use lib::hexdump::hexdump_iter;

fn lines(bytes: &[u8]) -> Vec<Vec<u8>> {
    let mut it = hexdump_iter(bytes);
    let mut out = vec![];
    while let Some(l) = it.next() {
        out.push(l.as_bytes().to_vec());
    }
    out
}

#[test]
fn hexdump_example() {
    let l = lines(b"0123456789abcdefXYZ\x00");
    assert_eq!(l.len(), 3);
    assert_eq!(
        String::from_utf8(l[0].clone()).unwrap(),
        "|30313233 34353637 38396162 63646566| 0123456789abcdef 00000000"
    );
    assert_eq!(
        String::from_utf8(l[1].clone()).unwrap(),
        format!("|58595a00| {}XYZ.{} 00000010", " ".repeat(27), " ".repeat(12))
    );
    assert_eq!(
        String::from_utf8(l[2].clone()).unwrap(),
        format!("{}{:08x}", " ".repeat(55), 20)
    );
}

#[test]
fn hexdump_length() {
    let empty_len = hexdump_iter(b"").next().unwrap().as_bytes().len();
    for input in [&b""[..], &b"a"[..], &[0u8; 17][..], &[0xffu8; 64][..], &b"hello world, this is a test"[..]].iter() {
        for l in lines(input) {
            assert_eq!(l.len(), empty_len);
        }
    }
}

#[test]
fn hexdump_ascii_only_no_cc() {
    let input: Vec<u8> = (0..=255u8).collect();
    for l in lines(&input) {
        assert!(l.iter().all(|&b| 0x20 <= b && b < 0x7f));
    }
}

#[test]
fn hexdump_summary() {
    let input = [7u8; 300];
    let l = lines(&input);
    let last = String::from_utf8(l.last().unwrap().clone()).unwrap();
    assert_eq!(usize::from_str_radix(last.trim(), 16).ok(), Some(300));
}

#[test]
fn hexdump_back_and_len() {
    let mut it = hexdump_iter(&[1u8; 20]);
    assert_eq!(it.len(), 3);
    let last = it.next_back().unwrap();
    assert_eq!(String::from_utf8(last.as_bytes().to_vec()).unwrap().trim(), "00000014");
    assert_eq!(it.len(), 2);
    let second = it.next_back().unwrap();
    assert!(second.as_bytes().ends_with(b"00000010"));
    let first = it.next().unwrap();
    assert!(first.as_bytes().ends_with(b"00000000"));
    assert!(it.next().is_none());
    assert!(it.next_back().is_none());
    assert_eq!(it.len(), 0);
}
