use lib::protocol7::ChunkHeaderPacked;
use lib::huffman::teeworlds;
use lib::protocol7::ChunksIter;
use lib::protocol7::ConnectedPacket;
use lib::protocol7::ConnectedPacketType;
use lib::protocol7::MAX_PACKETSIZE;
use lib::protocol7::Packet;
use lib::protocol7::PacketReadError;
use lib::protocol7::PacketReadError::Compression;
use lib::protocol7::PacketReadError::ControlMissing;
use lib::protocol7::PacketReadError::ControlResponseTokenMissing;
use lib::protocol7::PacketReadError::ControlTokenRequestTooShort;
use lib::protocol7::PacketReadError::TooLong;
use lib::protocol7::PacketReadError::TooShort;
use lib::protocol7::PacketReadError::UnknownConnlessVersion;
use lib::protocol7::PacketReadError::UnknownControl;
use lib::protocol7::Warning;
use lib::protocol7::Warning::ChunkHeaderPadding;
use lib::protocol7::Warning::ChunksNoChunks;
use lib::protocol7::Warning::ChunksNumChunks;
use lib::protocol7::Warning::ChunksUnknownData;
use lib::protocol7::Warning::ConnlessFlags;
use lib::protocol7::Warning::ControlExcessData;
use lib::protocol7::Warning::ControlFlags;
use lib::protocol7::Warning::ControlNulTermination;
use lib::protocol7::Warning::ControlNumChunks;
use lib::protocol7::Warning::PacketHeaderPadding;

fn assert_warnings(input: &[u8], warnings: &[Warning]) {
    let huffman = teeworlds().unwrap();
    let mut vec = vec![];
    let mut buffer = Vec::with_capacity(4096);
    let packet = Packet::read(&mut vec, &huffman, input, &mut buffer).unwrap();
    if let Packet::Connected(ConnectedPacket {
        type_: ConnectedPacketType::Chunks(_, num_chunks, chunk_data),
        ..
    }) = packet
    {
        let mut chunks = ChunksIter::new(chunk_data, num_chunks);
        while let Some(_) = chunks.next_warn(&mut vec) {}
    }
    if warnings != &[ChunksNoChunks] {
        vec.retain(|w| *w != ChunksNoChunks);
    }
    assert_eq!(vec, warnings);
}

fn assert_warn(input: &[u8], warning: Warning) {
    assert_warnings(input, &[warning]);
}

fn assert_no_warn(input: &[u8]) {
    assert_warnings(input, &[]);
}

fn assert_err(input: &[u8], error: PacketReadError) {
    let huffman = teeworlds().unwrap();
    let mut warnings = vec![];
    let mut buffer = Vec::with_capacity(4096);
    assert_eq!(
        Packet::read(&mut warnings, &huffman, input, &mut buffer).unwrap_err(),
        error
    );
}

#[test]
fn protocol7_w_chp() {
    assert_warn(b"\x00\x00\x01\x00\x00\x00\x00\x00\xc0", ChunkHeaderPadding)
}

#[test]
fn protocol7_w_cud1() {
    assert_warn(b"\x00\x00\x00\x00\x00\x00\x00\xff", ChunksUnknownData)
}

#[test]
fn protocol7_w_cud2() {
    assert_warn(b"\x00\x00\x01\x00\x00\x00\x00\x00\x00\x00", ChunksUnknownData)
}

#[test]
fn protocol7_w_cud3() {
    assert_no_warn(b"\x00\x00\x01\x00\x00\x00\x00\x00\x00")
}

#[test]
fn w_cud4_ddnet_6() {
    assert_warn(b"\x00\x00\x01\x00\x00\x12\x34\x45\x67", ChunksUnknownData)
}

#[test]
fn protocol7_w_cnc1() {
    assert_warn(b"\x00\x00\x01\x00\x00\x00\x00", ChunksNumChunks)
}

#[test]
fn protocol7_w_cnc2() {
    assert_warn(b"\x00\x00\x00\x00\x00\x00\x00\x00\x00", ChunksNumChunks)
}

#[test]
fn protocol7_w_cnc_() {
    assert_warn(b"\x00\x00\x00\x00\x00\x00\x00", ChunksNoChunks)
}

#[test]
fn w_cf_1() {
    assert_warn(b"\x31\x00\x00\x00\x00\x00\x00\x00\x00", ConnlessFlags)
}

#[test]
fn w_cf_2() {
    assert_warn(b"\x29\x00\x00\x00\x00\x00\x00\x00\x00", ConnlessFlags)
}

#[test]
fn w_cf_3() {
    assert_warn(b"\x25\x00\x00\x00\x00\x00\x00\x00\x00", ConnlessFlags)
}

#[test]
fn w_cf_4() {
    assert_no_warn(b"\x21\x00\x00\x00\x00\x00\x00\x00\x00")
}

#[test]
fn protocol7_w_ced1() {
    assert_warn(b"\x04\x00\x00\x00\x00\x00\x00\x00\x00", ControlExcessData)
}

#[test]
fn protocol7_w_ced2() {
    assert_warn(b"\x04\x00\x00\x00\x00\x00\x00\x04\x00\x00", ControlExcessData)
}

#[test]
fn protocol7_w_cf1() {
    assert_warn(b"\x14\x00\x00\x00\x00\x00\x00\x15\x37", ControlFlags)
}

#[test]
fn protocol7_w_cf2() {
    assert_warn(b"\x0c\x00\x00\x00\x00\x00\x00\x00", ControlFlags)
}

#[test]
fn protocol7_w_cnt1() {
    assert_warn(b"\x04\x00\x00\x00\x00\x00\x00\x04\x01", ControlNulTermination)
}

#[test]
fn protocol7_w_cnt2() {
    assert_no_warn(b"\x04\x00\x00\x00\x00\x00\x00\x04")
}

#[test]
fn protocol7_w_cnc() {
    assert_warn(b"\x04\x00\xff\x00\x00\x00\x00\x00", ControlNumChunks)
}

#[test]
fn protocol7_w_php1() {
    assert_warn(b"\x80\x00\x00\x00\x00\x00\x00", PacketHeaderPadding)
}

#[test]
fn protocol7_w_php2() {
    assert_warn(b"\x40\x00\x00\x00\x00\x00\x00", PacketHeaderPadding)
}

#[test]
fn protocol7_e_cm() {
    assert_err(b"\x04\x00\x00\x00\x00\x00\x00", ControlMissing)
}

#[test]
fn e_crtm() {
    assert_err(b"\x04\x00\x00\x00\x00\x00\x00\x05", ControlResponseTokenMissing)
}

#[test]
fn e_ctrts() {
    assert_err(b"\x04\x00\x00\xff\xff\xff\xff\x05\x00\x00\x00\x00", ControlTokenRequestTooShort)
}

#[test]
fn protocol7_e_sc() {
    assert_err(b"\xff\xff\xff", TooShort)
}

#[test]
fn protocol7_e_tl() {
    assert_err(&[0; MAX_PACKETSIZE+1], TooLong)
}

#[test]
fn protocol7_e_ts1() {
    assert_err(b"\x00\x00", TooShort)
}

#[test]
fn protocol7_e_ts2() {
    assert_err(b"", TooShort)
}

#[test]
fn protocol7_e_uc1() {
    assert_err(b"\x04\x00\x00\x00\x00\x00\x00\x06", UnknownControl)
}

#[test]
fn protocol7_e_uc2() {
    assert_err(b"\x04\x00\x00\x00\x00\x00\x00\xff", UnknownControl)
}

#[test]
fn protocol7_e_c() {
    assert_err(b"\x10\x00\x00\x00\x00\x00\x00", Compression)
}

#[test]
fn e_ucv() {
    assert_err(b"\x22\x00\x00\x00\x00\x00\x00\x00\x00", UnknownConnlessVersion)
}

#[test]
fn protocol7_chunk_header_padding_bits() {
    let mut w = vec![];
    let h = ChunkHeaderPacked::from_bytes(&[0x00, 0x30]).unpack_warn(&mut w);
    assert_eq!(h.size, 48);
    assert!(w.is_empty());
    let mut w = vec![];
    ChunkHeaderPacked::from_bytes(&[0x00, 0xc0]).unpack_warn(&mut w);
    assert_eq!(w, vec![ChunkHeaderPadding]);
}
