use lib::connection::Sequence;
use lib::connection::SequenceOrdering;
use lib::connection::SequenceOrdering::Current;
use lib::connection::SequenceOrdering::Future;
use lib::connection::SequenceOrdering::Past;
use lib::protocol::SEQUENCE_MODULUS;
use lib::connection::Connection;
use lib::connection::Error;
use lib::connection::ReceiveChunk;
use lib::connection::ReceivePacket;
use lib::huffman::teeworlds;

fn cmp(a: Sequence, b: Sequence) -> SequenceOrdering {
    Sequence::compare(a, b)
}

#[test]
fn sequence_compare() {
    let default = Sequence::new();
    let first = Sequence::from_u16(0);
    let mid = Sequence::from_u16(SEQUENCE_MODULUS / 2);
    let end = Sequence::from_u16(SEQUENCE_MODULUS - 1);
    assert_eq!(cmp(default, first), Current);
    assert_eq!(cmp(first, mid), Past);
    assert_eq!(cmp(first, end), Past);
    assert_eq!(cmp(mid, first), Past);
    assert_eq!(cmp(mid, end), Future);
    assert_eq!(cmp(end, first), Future);
    assert_eq!(cmp(end, mid), Past);
}

#[test]
fn sequence_next_wraps_around() {
    let mut s = Sequence::from_u16(SEQUENCE_MODULUS - 1);
    let old = s.next();
    assert_eq!(old.to_u16(), SEQUENCE_MODULUS - 1);
    assert_eq!(s.to_u16(), 0);
    assert_eq!(cmp(old, s), Future);
    assert_eq!(cmp(s, old), Past);
}

#[test]
fn sequence_update_advances_on_current() {
    let mut ack = Sequence::new();
    assert_eq!(ack.update(Sequence::from_u16(1)), Future);
    assert_eq!(ack.to_u16(), 0);
    assert_eq!(ack.update(Sequence::from_u16(0)), Current);
    assert_eq!(ack.to_u16(), 1);
    assert_eq!(ack.update(Sequence::from_u16(0)), Past);
    assert_eq!(ack.to_u16(), 1);
}

fn collect<'a>(mut p: ReceivePacket<'a>) -> Vec<ReceiveChunk<'a>> {
    let mut v = Vec::new();
    while let Some(c) = p.next() {
        v.push(c);
    }
    v
}

fn is_ready(c: &ReceiveChunk) -> bool {
    matches!(c, ReceiveChunk::Ready)
}

#[test]
fn connection_establish_connection() {
    let huffman = teeworlds().unwrap();
    let mut out: Vec<Vec<u8>> = Vec::new();

    let mut client = Connection::new();
    let mut server = Connection::new();

    // Connect
    client.connect(&huffman, 0, &mut out);
    let packet = out.remove(0);
    assert!(out.is_empty());
    assert!(&packet == b"\x10\x00\x00\x01");

    // ConnectAccept
    let mut buffer = Vec::new();
    assert_eq!(server.feed(&huffman, 0, &mut out, &packet, &mut buffer).len(), 0);
    let packet = out.remove(0);
    assert!(out.is_empty());
    assert!(&packet == b"\x10\x00\x00\x02");

    // Accept
    let mut buffer = Vec::new();
    let chunks = collect(client.feed(&huffman, 0, &mut out, &packet, &mut buffer));
    assert!(chunks.len() == 1 && is_ready(&chunks[0]));
    let packet = out.remove(0);
    assert!(out.is_empty());
    assert!(&packet == b"\x10\x00\x00\x03");

    let mut buffer = Vec::new();
    assert_eq!(server.feed(&huffman, 0, &mut out, &packet, &mut buffer).len(), 0);
    assert!(out.is_empty());

    // Send
    client.send(&huffman, &mut out, b"\x42", true).unwrap();
    assert!(out.is_empty());

    // Flush
    client.flush(&huffman, 0, &mut out);
    let packet = out.remove(0);
    assert!(out.is_empty());
    assert!(&packet == b"\x00\x00\x01\x40\x01\x00\x42");

    // Receive
    let mut buffer = Vec::new();
    let chunks = collect(server.feed(&huffman, 0, &mut out, &packet, &mut buffer));
    assert!(chunks.len() == 1);
    assert!(matches!(chunks[0], ReceiveChunk::Connected(d, true) if d == b"\x42"));
    assert!(out.is_empty());

    // Disconnect
    server.disconnect(&mut out, b"42");
    let packet = out.remove(0);
    assert!(&packet == b"\x10\x01\x00\x0442\0");

    let mut buffer = Vec::new();
    let chunks = collect(client.feed(&huffman, 0, &mut out, &packet, &mut buffer));
    assert!(chunks.len() == 1);
    assert!(matches!(chunks[0], ReceiveChunk::Disconnect(r) if r == b"42"));

    client.reset();
    server.reset();
}

#[test]
fn connection_timeouts() {
    let huffman = teeworlds().unwrap();
    let mut out: Vec<Vec<u8>> = Vec::new();
    let mut client = Connection::new();
    assert!(!client.needs_tick());
    client.connect(&huffman, 0, &mut out);
    assert!(client.needs_tick());
    out.clear();
    // Not yet expired.
    client.tick(&huffman, 0, &mut out, 100_000_000);
    assert!(out.is_empty());
    // Expired: the connect packet is sent again.
    client.tick(&huffman, 0, &mut out, 400_000_000);
    assert_eq!(out, vec![b"\x10\x00\x00\x01".to_vec()]);
}

#[test]
fn connection_keepalive_and_errors() {
    let huffman = teeworlds().unwrap();
    let mut out: Vec<Vec<u8>> = Vec::new();
    let mut client = Connection::new();
    let mut server = Connection::new();
    client.connect(&huffman, 0, &mut out);
    let p = out.remove(0);
    let mut b1 = Vec::new();
    server.feed(&huffman, 0, &mut out, &p, &mut b1);
    let p = out.remove(0);
    let mut b2 = Vec::new();
    client.feed(&huffman, 0, &mut out, &p, &mut b2);
    out.clear();
    // Nothing queued: a tick keeps the connection alive.
    client.tick(&huffman, 0, &mut out, 1_000_000_000);
    assert_eq!(out, vec![b"\x10\x00\x00\x00".to_vec()]);
    out.clear();
    // Too long data.
    let long = vec![0u8; 1395];
    assert_eq!(client.send(&huffman, &mut out, &long, false), Err(Error::TooLongData));
    assert_eq!(client.send_connless(0, &mut out, &long), Err(Error::TooLongData));
    assert!(out.is_empty());
    // A connectionless packet.
    assert_eq!(client.send_connless(0, &mut out, b"hi"), Ok(()));
    assert_eq!(out, vec![b"\xff\xff\xff\xff\xff\xffhi".to_vec()]);
    // A non-vital chunk.
    out.clear();
    client.send(&huffman, &mut out, b"\x01\x02", false).unwrap();
    client.flush(&huffman, 0, &mut out);
    assert_eq!(out.len(), 1);
    let p = out.remove(0);
    let mut b5 = Vec::new();
    let chunks = collect(server.feed(&huffman, 0, &mut out, &p, &mut b5));
    assert_eq!(chunks.len(), 1);
    assert!(matches!(chunks[0], ReceiveChunk::Connected(d, false) if d == b"\x01\x02"));
    // A packet read as connectionless.
    let mut b3 = Vec::new();
    let chunks = collect(server.feed(&huffman, 0, &mut out, b"\xff\xff\xff\xff\xff\xffyo", &mut b3));
    assert!(matches!(chunks[0], ReceiveChunk::Connless(d) if d == b"yo"));
    // A malformed packet yields nothing.
    let mut b4 = Vec::new();
    assert_eq!(server.feed(&huffman, 0, &mut out, b"\x10", &mut b4).len(), 0);
}
