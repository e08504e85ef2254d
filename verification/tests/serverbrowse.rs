use lib::serverbrowse::request_count;
use lib::serverbrowse::request_count_7;
use lib::serverbrowse::request_count_nobackcompat;
use lib::serverbrowse::request_info_6;
use lib::serverbrowse::request_info_6_ex;
use lib::serverbrowse::request_info_7;
use lib::serverbrowse::request_list_5;
use lib::serverbrowse::request_list_7_nobackcompat;
use lib::serverbrowse::request_token_7;
use lib::serverbrowse::ServerInfoVersion;
use lib::serverbrowse::Token7;
use lib::serverbrowse::NO_BACKCOMPAT;
use lib::serverbrowse::REQUEST_COUNT;
use lib::serverbrowse::REQUEST_INFO_6;
use lib::serverbrowse::REQUEST_LIST_5;

#[test]
fn requests_without_tokens() {
    assert_eq!(request_list_5(), REQUEST_LIST_5);
    assert_eq!(request_count(), REQUEST_COUNT);
    let info = request_info_6(0x42);
    assert_eq!(&info[..14], &REQUEST_INFO_6[..]);
    assert_eq!(info[14], 0x42);
    let nb = request_count_nobackcompat();
    assert_eq!(&nb[..14], &REQUEST_COUNT[..]);
    assert_eq!(&nb[14..], &NO_BACKCOMPAT[..]);
}

#[test]
fn request_info_6_ex_challenge() {
    let r = request_info_6_ex(0x00_12_34_56);
    assert_eq!(&r[..2], b"xe");
    assert_eq!(r[2], 0x12);
    assert_eq!(r[3], 0x34);
    assert_eq!(&r[4..14], b"\0\0\xff\xff\xff\xffgie3");
    assert_eq!(r[14], 0x56);
}

#[test]
fn requests_with_tokens() {
    let own = Token7([1, 2, 3, 4]);
    let their = Token7([5, 6, 7, 8]);
    let c = request_count_7(own, their);
    assert_eq!(c[0], 0x21);
    assert_eq!(&c[1..5], &[5, 6, 7, 8]);
    assert_eq!(&c[5..9], &[1, 2, 3, 4]);
    assert_eq!(&c[9..], b"\xff\xff\xff\xffcou2");
    let i = request_info_7(own, their, 0x3f);
    assert_eq!(&i[1..5], &[5, 6, 7, 8]);
    assert_eq!(&i[5..9], &[1, 2, 3, 4]);
    assert_eq!(&i[13..17], b"gie3");
    assert_eq!(i[17], 0x3f);
    let l = request_list_7_nobackcompat(own, their);
    assert_eq!(&l[13..17], b"req2");
    assert_eq!(&l[17..], &NO_BACKCOMPAT[..]);
    let t = request_token_7(own);
    assert_eq!(&t[..8], &[0x04, 0x00, 0x00, 0xff, 0xff, 0xff, 0xff, 0x05]);
    assert_eq!(&t[8..12], &[1, 2, 3, 4]);
    assert!(t[12..].iter().all(|&b| b == 0));
}

#[test]
fn server_info_versions() {
    assert_eq!(ServerInfoVersion::V5.max_clients(), Some(16));
    assert_eq!(ServerInfoVersion::V664.max_clients(), Some(64));
    assert_eq!(ServerInfoVersion::V6Ex.max_clients(), None);
    assert_eq!(ServerInfoVersion::V664.clients_per_packet(), Some(24));
    assert_eq!(ServerInfoVersion::V6Ex.clients_per_packet(), None);
    assert!(ServerInfoVersion::V7.has_hostname() && !ServerInfoVersion::V6Ex.has_hostname());
    assert!(ServerInfoVersion::V5.has_progression() && !ServerInfoVersion::V6.has_progression());
    assert!(ServerInfoVersion::V664.has_offset() && !ServerInfoVersion::V6.has_offset());
    assert!(ServerInfoVersion::V6.has_extended_player_info() && !ServerInfoVersion::V5.has_extended_player_info());
    assert!(ServerInfoVersion::V6Ex.has_extended_map_info() && ServerInfoVersion::V6Ex.has_extra_info());
    assert!(ServerInfoVersion::V7.has_full_client_flags() && !ServerInfoVersion::V6Ex.has_full_client_flags());
    assert!(ServerInfoVersion::V7.has_skill_level() && !ServerInfoVersion::V664.has_skill_level());
}
