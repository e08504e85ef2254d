use lib::serverbrowse::Info5Response;
use lib::serverbrowse::Info664Response;
use lib::serverbrowse::Info6ExMoreResponse;
use lib::serverbrowse::Info6ExResponse;
use lib::serverbrowse::Info6Response;
use lib::serverbrowse::Info7Response;
use lib::serverbrowse::MergeError;
use lib::serverbrowse::ServerInfoVersion;
use lib::serverbrowse::Token7;
use lib::serverbrowse::CLIENTINFO_FLAG_SPECTATOR;
use lib::serverbrowse_info::is_utf8;
use lib::serverbrowse_info::parse_decimal;
use lib::serverbrowse_info::parse_server_info;
use lib::serverbrowse_info::truncate_text;
use lib::serverbrowse_info::ClientInfo;
use lib::serverbrowse_info::InfoOutcome;
use lib::serverbrowse_info::ReceivedServerInfoVersion;
use lib::serverbrowse_info::ServerInfo;

fn b(s: &str) -> Vec<u8> {
    s.as_bytes().to_vec()
}

fn client(name: &str, clan: &str, country: i32, score: i32, flags: i32) -> ClientInfo {
    ClientInfo {
        name: b(name),
        clan: b(clan),
        country,
        score,
        flags,
    }
}

#[test]
fn parse_info_v6_real_world() {
    let info_raw = b"0\x000.6.4, 11.2.1\x00DDNet RUS - Moderate [DDraceNetwork] [0/64]\x00Sunreal\x00DDraceNetwork\x000\x000\x0016\x000\x0016\x00";
    let info = ServerInfo {
        info_version: ServerInfoVersion::V6,
        token: 0,
        version: b("0.6.4, 11.2.1"),
        name: b("DDNet RUS - Moderate [DDraceNetwork] [0/64]"),
        hostname: None,
        map: b("Sunreal"),
        map_crc: None,
        map_size: None,
        game_type: b("DDraceNetwork"),
        flags: 0,
        progression: None,
        skill_level: None,
        num_players: 0,
        max_players: 16,
        num_clients: 0,
        max_clients: 16,
        clients: vec![],
    };
    assert_eq!(Info6Response(info_raw).parse(), Some(info));
}

#[test]
fn parse_info_v6() {
    let info_raw = b"1\0two\0three\0four\0five\06\01\02\02\03\0seven\0eight\0-1\09\010\0eleven\0twelve\013\014\015\0";
    let info = ServerInfo {
        info_version: ServerInfoVersion::V6,
        token: 1,
        version: b("two"),
        name: b("three"),
        hostname: None,
        map: b("four"),
        map_crc: None,
        map_size: None,
        game_type: b("five"),
        flags: 6,
        progression: None,
        skill_level: None,
        num_players: 1,
        max_players: 2,
        num_clients: 2,
        max_clients: 3,
        clients: vec![
            client("eleven", "twelve", 13, 14, 0),
            client("seven", "eight", -1, 9, 0),
        ],
    };
    assert_eq!(Info6Response(info_raw).parse(), Some(info));
}

#[test]
fn parse_info_v6_ex() {
    let info_raw_p0 = b"86536\0version\0name\0map\06277493\0627272\0gametype\035247\03\06\09\012\0\0player8\0clan8\08\088\01\0\0player3\0clan3\03\033\01\0\0player1\0clan1\01\011\00\0\0";
    let info_raw_p1 = b"86536\01\0\0player4\0clan4\04\044\00\0\0player6\0clan6\06\066\00\0\0player5\0clan5\05\055\00\0\0";
    let info_raw_p2 = b"86536\01\0\0player9\0clan9\09\099\00\0\0player7\0clan7\07\077\01\0\0player2\0clan2\02\022\00\0\0";
    let wanted = ServerInfo {
        info_version: ServerInfoVersion::V6Ex,
        token: 86536,
        version: b("version"),
        name: b("name"),
        hostname: None,
        map: b("map"),
        map_crc: Some(6277493),
        map_size: Some(627272),
        game_type: b("gametype"),
        flags: 35247,
        progression: None,
        skill_level: None,
        num_players: 3,
        max_players: 6,
        num_clients: 9,
        max_clients: 12,
        clients: vec![
            client("player1", "clan1", 1, 11, CLIENTINFO_FLAG_SPECTATOR),
            client("player2", "clan2", 2, 22, CLIENTINFO_FLAG_SPECTATOR),
            client("player3", "clan3", 3, 33, 0),
            client("player4", "clan4", 4, 44, CLIENTINFO_FLAG_SPECTATOR),
            client("player5", "clan5", 5, 55, CLIENTINFO_FLAG_SPECTATOR),
            client("player6", "clan6", 6, 66, CLIENTINFO_FLAG_SPECTATOR),
            client("player7", "clan7", 7, 77, 0),
            client("player8", "clan8", 8, 88, 0),
            client("player9", "clan9", 9, 99, CLIENTINFO_FLAG_SPECTATOR),
        ],
    };
    let info_p0 = Info6ExResponse(info_raw_p0).parse().unwrap();
    let info_p1 = Info6ExMoreResponse(info_raw_p1).parse().unwrap();
    let info_p2 = Info6ExMoreResponse(info_raw_p2).parse().unwrap();
    println!("{:?}", info_p0);
    println!("{:?}", info_p1);
    println!("{:?}", info_p2);
    println!("merging");
    let mut info = info_p0;
    info.merge(info_p1).unwrap();
    println!("{:?}", info);
    info.merge(info_p2).unwrap();
    println!("{:?}", info);
    assert_eq!(info.get_info(), Some(&wanted));
}

#[test]
fn parse_info_v7() {
    let info_raw = b"\x01two\0three\0four\0five\0six\0\x07\x08\x01\x02\x02\x03thirteen\0fourteen\0\x0f\x10\x11eighteen\0nineteen\0\x14\x15\x16";
    let info = ServerInfo {
        info_version: ServerInfoVersion::V7,
        token: 1,
        version: b("two"),
        name: b("three"),
        hostname: Some(b("four")),
        map: b("five"),
        map_crc: None,
        map_size: None,
        game_type: b("six"),
        flags: 7,
        progression: None,
        skill_level: Some(8),
        num_players: 1,
        max_players: 2,
        num_clients: 2,
        max_clients: 3,
        clients: vec![
            client("eighteen", "nineteen", 20, 21, 22),
            client("thirteen", "fourteen", 15, 16, 17),
        ],
    };
    assert_eq!(
        Info7Response(Token7([0, 0, 0, 0]), Token7([0, 0, 0, 0]), info_raw).parse(),
        Some(info),
    );
}

#[test]
fn parse_info_v5_progression_and_plain_players() {
    let info_raw = b"7\0ver\0srv\0dm1\0dm\00\050\01\08\0bob\05\0";
    let info = Info5Response(info_raw).parse().unwrap();
    assert_eq!(info.info_version, ServerInfoVersion::V5);
    assert_eq!(info.progression, Some(50));
    assert_eq!(info.num_clients, 1);
    assert_eq!(info.max_clients, 8);
    assert_eq!(info.clients, vec![client("bob", "", -1, 5, 0)]);
}

#[test]
fn parse_info_rejects_bad_counts() {
    // More clients than client slots.
    let info_raw = b"1\0v\0n\0m\0g\00\03\04\04\03\0";
    assert_eq!(Info6Response(info_raw).parse(), None);
    // More client slots than 0.6 allows.
    let info_raw = b"1\0v\0n\0m\0g\00\00\02\00\017\0";
    assert_eq!(Info6Response(info_raw).parse(), None);
}

#[test]
fn parse_info_rejects_cut_player() {
    let info_raw = b"1\0v\0n\0m\0g\00\01\02\01\02\0alice\0clan\0";
    assert_eq!(Info6Response(info_raw).parse(), None);
}

#[test]
fn parse_info_rejects_bad_number() {
    let info_raw = b"x1\0v\0n\0m\0g\00\00\02\00\02\0";
    assert_eq!(Info6Response(info_raw).parse(), None);
}

#[test]
fn parse_info_truncates_long_names() {
    let info_raw = b"1\0v\0n\0m\0g\00\01\02\01\02\0abcdefghijklmnopqrstu\0clanclanclanclan\00\00\01\0";
    let info = Info6Response(info_raw).parse().unwrap();
    assert_eq!(info.clients[0].name, b("abcdefghijklmno"));
    assert_eq!(info.clients[0].clan, b("clanclancla"));
}

#[test]
fn parse_info_64_offset_and_overflow() {
    let ok = b"5\0v\0n\0m\0g\00\02\064\02\064\062\0a\0c\01\02\01\0b\0c\01\02\01\0";
    let part = Info664Response(ok).parse().unwrap();
    assert_eq!(part.token(), 5);
    match parse_server_info(ok, ReceivedServerInfoVersion::Normal(ServerInfoVersion::V664)) {
        InfoOutcome::Parsed(_) => {}
        _ => panic!("expected a parsed part"),
    }
    let overflowing = b"5\0v\0n\0m\0g\00\03\064\03\064\062\0a\0c\01\02\01\0b\0c\01\02\01\0c\0c\01\02\01\0";
    match parse_server_info(
        overflowing,
        ReceivedServerInfoVersion::Normal(ServerInfoVersion::V664),
    ) {
        InfoOutcome::Overflow => {}
        _ => panic!("expected an overflow"),
    }
}

#[test]
fn merge_refuses_mismatches() {
    let p0 = b"10\0v\0n\0m\01\02\0g\00\01\02\01\02\0\0";
    let other_token = b"11\01\0\0";
    let mut a = Info6ExResponse(p0).parse().unwrap();
    let b_part = Info6ExMoreResponse(other_token).parse().unwrap();
    assert!(matches!(a.merge(b_part), Err(MergeError::DifferingTokens)));
    let again = Info6ExResponse(p0).parse().unwrap();
    assert!(a.merge(again).is_ok());
    let v6 = b"10\0v\0n\0m\0g\00\01\02\01\02\00\0";
    let mut c = Info664Response(v6).parse().unwrap();
    let d = Info6ExResponse(p0).parse().unwrap();
    assert!(matches!(c.merge(d), Err(MergeError::DifferingVersions)));
}

#[test]
fn take_info_once_complete() {
    let p0 = b"10\0v\0n\0m\01\02\0g\00\01\02\01\02\0\0zed\0c\01\02\01\0\0";
    let mut part = Info6ExResponse(p0).parse().unwrap();
    let info = part.take_info().unwrap();
    assert_eq!(info.clients.len(), 1);
    assert_eq!(info.clients[0].flags, 0);
    let incomplete = b"10\0v\0n\0m\01\02\0g\00\02\02\02\02\0\0zed\0c\01\02\01\0\0";
    let mut part = Info6ExResponse(incomplete).parse().unwrap();
    assert!(part.take_info().is_none());
}

#[test]
fn decimal_and_text_helpers() {
    assert_eq!(parse_decimal(b"-2147483648"), Some(i32::MIN));
    assert_eq!(parse_decimal(b"2147483647"), Some(i32::MAX));
    assert_eq!(parse_decimal(b"2147483648"), None);
    assert_eq!(parse_decimal(b"+7"), Some(7));
    assert_eq!(parse_decimal(b"-"), None);
    assert_eq!(parse_decimal(b""), None);
    assert!(is_utf8("gr\u{fc}n".as_bytes()));
    assert!(!is_utf8(b"\xc0\x80"));
    assert!(!is_utf8(b"\xed\xa0\x80"));
    assert_eq!(truncate_text("ab\u{fc}".as_bytes(), 3), b("ab"));
    assert_eq!(truncate_text(b"abc", 5), b("abc"));
}
