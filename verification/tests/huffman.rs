use lib::huffman::teeworlds;
use lib::huffman::Huffman;

fn huffman_default() -> Huffman {
    teeworlds().unwrap()
}

#[test]
fn decompress_extend_stream() {
    let h = huffman_default();
    assert_eq!(&[0x00u8, 0x00, 0x00][..], &h.decompress(&[0x57, 0xdc], 10240).unwrap()[..]);
}

#[test]
fn compress_decompress_roundtrip() {
    let h = huffman_default();
    let inputs: [&[u8]; 5] = [b"", b"\x00", b"hello world", b"\xff\xfe\xfd\x00\x01", b"aaaaaaaaaaaaaaaaaaaaaaaaaaaaaaaa"];
    for input in inputs.iter() {
        let compressed = h.compress(input, 10240).unwrap();
        assert_eq!(compressed.len(), h.compressed_len(input));
        let decompressed = h.decompress(&compressed, 10240).unwrap();
        assert_eq!(&decompressed[..], *input);
    }
}

#[test]
fn compress_capacity_error() {
    let h = huffman_default();
    let len = h.compressed_len(b"hello world");
    assert!(h.compress(b"hello world", len - 1).is_err());
    assert!(h.compress(b"hello world", len).is_ok());
}

#[test]
fn compressed_len_bug_at_most_one_more() {
    let h = huffman_default();
    for input in [&b"abc"[..], &b"\x00\x00\x00\x00"[..], &b"teeworlds"[..]].iter() {
        let a = h.compressed_len(input);
        let b = h.compressed_len_bug(input);
        assert!(a <= b && b <= a + 1);
        assert_eq!(h.compress_bug(input, 10240).unwrap().len(), b);
    }
}

#[test]
fn decompress_empty_needs_eof() {
    let h = huffman_default();
    assert!(h.decompress(&[], 10240).is_err());
}

#[test]
fn huffman_roundtrip_values() {
    let h = teeworlds().unwrap();
    for input in [&b""[..], b"hello, world", &[0u8, 255, 1, 254, 0, 0, 0][..]] {
        let c = h.compress(input, 1024).unwrap();
        assert_eq!(h.decompress(&c, input.len()).unwrap(), input);
        let c = h.compress_bug(input, 1024).unwrap();
        assert_eq!(h.decompress(&c, input.len()).unwrap(), input);
    }
}
