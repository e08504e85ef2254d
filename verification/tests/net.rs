use lib::huffman::teeworlds;
use lib::net::Chunk;
use lib::net::ChunkOrEvent;
use lib::net::Net;
use lib::net::PeerId;
use lib::net::PeerMap;

#[derive(Clone, Copy, Debug, Eq, Hash, Ord, PartialEq, PartialOrd)]
enum Address {
    Client,
    Server,
}

#[test]
fn net_establish_connection() {
    let huffman = teeworlds().unwrap();
    let mut out: Vec<(Address, Vec<u8>)> = Vec::new();

    let mut net = Net::server();

    // Connect
    let c_pid = net.connect(&huffman, 0, &mut out, Address::Server);
    let (to, packet) = out.remove(0);
    assert_eq!(to, Address::Server);
    assert!(out.is_empty());

    // ConnectAccept
    let s_pid;
    {
        let mut buffer = Vec::new();
        let p = net.feed(&huffman, 0, &mut out, Address::Client, &packet, &mut buffer);
        assert!(p.len() == 1);
        if let ChunkOrEvent::Connect(s) = p[0] {
            s_pid = s;
        } else {
            panic!();
        }
    }
    // No packets sent out until we accept the client.
    assert!(out.is_empty());

    net.accept(&huffman, 0, &mut out, s_pid);
    let (to, packet) = out.remove(0);
    assert_eq!(to, Address::Client);
    assert!(out.is_empty());

    // Accept
    let mut buffer = Vec::new();
    let p = net.feed(&huffman, 0, &mut out, Address::Server, &packet, &mut buffer);
    assert!(p == [ChunkOrEvent::Ready(c_pid)]);
    let (to, packet) = out.remove(0);
    assert_eq!(to, Address::Server);
    assert!(out.is_empty());

    let mut buffer = Vec::new();
    assert!(net.feed(&huffman, 0, &mut out, Address::Client, &packet, &mut buffer).is_empty());
    assert!(out.is_empty());

    // Disconnect
    net.disconnect(&mut out, c_pid, b"foobar");
    let (to, packet) = out.remove(0);
    assert_eq!(to, Address::Server);
    assert!(out.is_empty());

    let mut buffer = Vec::new();
    let p = net.feed(&huffman, 0, &mut out, Address::Client, &packet, &mut buffer);
    assert!(p == [ChunkOrEvent::Disconnect(s_pid, b"foobar")]);
    assert!(out.is_empty());
}

#[test]
fn net_chunks_and_connless() {
    let huffman = teeworlds().unwrap();
    let mut out: Vec<(Address, Vec<u8>)> = Vec::new();
    let mut net = Net::server();
    let c_pid = net.connect(&huffman, 0, &mut out, Address::Server);
    let (_, packet) = out.remove(0);
    let mut buffer = Vec::new();
    let s_pid = match net.feed(&huffman, 0, &mut out, Address::Client, &packet, &mut buffer)[0] {
        ChunkOrEvent::Connect(s) => s,
        _ => panic!(),
    };
    assert_ne!(c_pid, s_pid);
    assert!(net.needs_tick().is_some());
    net.accept(&huffman, 0, &mut out, s_pid);
    let (_, packet) = out.remove(0);
    let mut buffer = Vec::new();
    net.feed(&huffman, 0, &mut out, Address::Server, &packet, &mut buffer);
    let (_, packet) = out.remove(0);
    let mut buffer = Vec::new();
    net.feed(&huffman, 0, &mut out, Address::Client, &packet, &mut buffer);

    net.send(&huffman, &mut out, Chunk { pid: c_pid, vital: true, data: b"\x42" }).unwrap();
    net.flush(&huffman, 0, &mut out, c_pid);
    let (to, packet) = out.remove(0);
    assert_eq!(to, Address::Server);
    let mut buffer = Vec::new();
    let p = net.feed(&huffman, 0, &mut out, Address::Client, &packet, &mut buffer);
    assert!(p == [ChunkOrEvent::Chunk(Chunk { pid: s_pid, vital: true, data: b"\x42" })]);
    assert!(net.is_receive_chunk_still_valid(&p[0]));

    net.send_connless(&mut out, Address::Client, b"hi").unwrap();
    let (to, packet) = out.remove(0);
    assert_eq!(to, Address::Client);
    assert_eq!(packet, b"\xff\xff\xff\xff\xff\xffhi".to_vec());

    net.ignore(s_pid);
    assert!(!net.is_receive_chunk_still_valid(&ChunkOrEvent::Chunk(Chunk {
        pid: s_pid,
        vital: true,
        data: b"",
    })));

    // A client does not take connections.
    let mut client: Net<Address> = Net::client();
    let mut buffer = Vec::new();
    assert!(client
        .feed(&huffman, 0, &mut out, Address::Server, b"\x10\x00\x00\x01", &mut buffer)
        .is_empty());
}

#[test]
fn peer_map_basics() {
    let mut m: PeerMap<u8> = PeerMap::new();
    assert!(m.is_empty());
    assert_eq!(m.insert(PeerId(3), 30), None);
    assert_eq!(m.insert(PeerId(5), 50), None);
    assert_eq!(m.insert(PeerId(7), 70), None);
    assert_eq!(m.insert(PeerId(5), 55), Some(50));
    assert_eq!(m.get(PeerId(5)), Some(&55));
    m.remove(PeerId(3));
    assert_eq!(m.keys(), vec![PeerId(7), PeerId(5)]);
    assert!(!m.contains_key(PeerId(3)));
    assert_eq!(m.len(), 2);
    m.clear();
    assert!(m.is_empty());
}
