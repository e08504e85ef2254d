use lib::info_request::InfoRequest;
use lib::info_request::InfoStep;
use lib::serverbrowse::Token7;
use lib::serverbrowse::COUNT;
use lib::serverbrowse::COUNT_7;
use lib::serverbrowse::INFO_6;
use lib::serverbrowse::INFO_6_DDPER;
use lib::serverbrowse::INFO_6_EX;
use lib::serverbrowse::INFO_6_EX_MORE;
use lib::serverbrowse::LIST_5;
use lib::serverbrowse::LIST_6;
use lib::serverbrowse::TOKEN_7;
use lib::serverbrowse::REQUEST_INFO_6_EX;
use lib::serverbrowse_response::parse_count;
use lib::serverbrowse_response::parse_response;
use lib::serverbrowse_response::Addr;
use lib::serverbrowse_response::Addr5Packed;
use lib::serverbrowse_response::Addr6Packed;
use lib::serverbrowse_response::IpAddr;
use lib::serverbrowse_response::Response;

fn with(header: &[u8], payload: &[u8]) -> Vec<u8> {
    let mut v = header.to_vec();
    v.extend_from_slice(payload);
    v
}

#[test]
fn response_info6_and_ddper() {
    let data = with(&INFO_6, b"payload");
    match parse_response(&data) {
        Some(Response::Info6(r)) => assert_eq!(r.0, b"payload"),
        _ => panic!("expected an info"),
    }
    // The token bytes of a 0.6 header are ignored.
    let mut data = with(&INFO_6, b"x");
    data[2] = 0x12;
    assert!(matches!(parse_response(&data), Some(Response::Info6(_))));
    let mut data = with(&INFO_6_DDPER, b"y");
    data[3] = 0x34;
    assert!(matches!(parse_response(&data), Some(Response::Info6Ddper(_))));
    assert!(matches!(
        parse_response(&with(&INFO_6_EX, b"")),
        Some(Response::Info6Ex(_))
    ));
    assert!(matches!(
        parse_response(&with(&INFO_6_EX_MORE, b"")),
        Some(Response::Info6ExMore(_))
    ));
}

#[test]
fn response_needs_connless_flag_and_known_header() {
    let mut data = with(&INFO_6, b"");
    data[0] = 0x00;
    assert!(parse_response(&data).is_none());
    assert!(parse_response(b"short").is_none());
    assert!(parse_response(&with(&INFO_6[..13], b"zz")).is_none());
}

#[test]
fn response_counts() {
    match parse_response(&with(&COUNT, &[0x01, 0x02, 0x03])) {
        Some(Response::Count(c)) => assert_eq!(c.0, 0x0102),
        _ => panic!("expected a count"),
    }
    assert!(parse_response(&with(&COUNT, &[0x01])).is_none());
    let mut data = with(&COUNT_7, &[0x00, 0x05]);
    data[1..5].copy_from_slice(&[1, 2, 3, 4]);
    data[5..9].copy_from_slice(&[5, 6, 7, 8]);
    match parse_response(&data) {
        Some(Response::Count7(c)) => {
            assert_eq!(c.0, Token7([1, 2, 3, 4]));
            assert_eq!(c.1, Token7([5, 6, 7, 8]));
            assert_eq!(c.2, 5);
        }
        _ => panic!("expected a count"),
    }
    assert_eq!(parse_count(&[0xff, 0xfe]), Some(0xfffe));
}

#[test]
fn response_token7() {
    let mut data = with(&TOKEN_7, &[9, 8, 7, 6]);
    data[3..7].copy_from_slice(&[1, 2, 3, 4]);
    match parse_response(&data) {
        Some(Response::Token7(t)) => {
            assert_eq!(t.0, Token7([1, 2, 3, 4]));
            assert_eq!(t.1, Token7([9, 8, 7, 6]));
        }
        _ => panic!("expected a token"),
    }
    assert!(parse_response(&with(&TOKEN_7, &[9, 8, 7])).is_none());
}

#[test]
fn response_lists() {
    let data = with(&LIST_5, &[127, 0, 0, 1, 0x6c, 0x20, 10, 0, 0, 2, 0x01, 0x00, 0xaa]);
    match parse_response(&data) {
        Some(Response::List5(l)) => {
            assert_eq!(l.0.len(), 2);
            assert_eq!(
                l.0[0].unpack(),
                Addr { ip_address: IpAddr::V4([127, 0, 0, 1]), port: 8300 }
            );
            assert_eq!(l.0[1].unpack().port, 1);
        }
        _ => panic!("expected a list"),
    }
    let mut entry = vec![0u8; 10];
    entry.extend_from_slice(&[0xff, 0xff, 192, 168, 0, 1, 0x20, 0x6c]);
    let mut v6 = vec![0x20u8, 0x01];
    v6.extend_from_slice(&[0; 14]);
    v6.extend_from_slice(&[0x00, 0x50]);
    let data = with(&LIST_6, &[entry, v6].concat());
    match parse_response(&data) {
        Some(Response::List6(l)) => {
            assert_eq!(l.0.len(), 2);
            assert_eq!(
                l.0[0].unpack(),
                Addr { ip_address: IpAddr::V4([192, 168, 0, 1]), port: 8300 }
            );
            let mut ip = [0u8; 16];
            ip[0] = 0x20;
            ip[1] = 0x01;
            assert_eq!(l.0[1].unpack(), Addr { ip_address: IpAddr::V6(ip), port: 80 });
        }
        _ => panic!("expected a list"),
    }
    let a = Addr5Packed { ip_address: [1, 2, 3, 4], port: [0x34, 0x12] };
    assert_eq!(a.unpack().port, 0x1234);
    let b = Addr6Packed { ip_address: [0; 16], port: [0x12, 0x34] };
    assert_eq!(b.unpack().port, 0x1234);
}

#[test]
fn info_request_puts_parts_together() {
    let mut req = InfoRequest::new();
    let mut wanted = REQUEST_INFO_6_EX.to_vec();
    wanted.push(0);
    assert_eq!(req.request().to_vec(), wanted);
    let p0 = with(&INFO_6_EX, b"10\0v\0n\0m\01\02\0g\00\01\02\02\02\0\0zed\0c\01\02\01\0\0");
    assert!(matches!(req.on_packet(&p0), InfoStep::Wait));
    let p1 = with(&INFO_6_EX_MORE, b"10\01\0\0amy\0c\01\02\00\0\0");
    match req.on_packet(&p1) {
        InfoStep::Done(info) => {
            assert_eq!(info.clients.len(), 2);
            assert_eq!(info.clients[0].name, b"amy".to_vec());
            assert_eq!(info.clients[1].name, b"zed".to_vec());
        }
        InfoStep::Wait => panic!("expected the info"),
    }
    let mut other = InfoRequest::new();
    assert!(matches!(other.on_packet(&with(&COUNT, &[0, 1])), InfoStep::Wait));
    let full = with(&INFO_6, b"1\0v\0n\0m\0g\00\00\02\00\02\0");
    assert!(matches!(other.on_packet(&full), InfoStep::Done(_)));
}

#[test]
fn info_request_checked_passes_over_garbage() {
    let mut r = InfoRequest::new();
    assert!(!r.step_overflows(b"garbage"));
    assert!(matches!(r.on_packet_checked(b"garbage"), Some(InfoStep::Wait)));
}
