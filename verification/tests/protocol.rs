use lib::huffman::teeworlds;
use lib::protocol::ChunksIter;
use lib::protocol::ConnectedPacket;
use lib::protocol::ConnectedPacketType;
use lib::protocol::MAX_PACKETSIZE;
use lib::protocol::Packet;
use lib::protocol::PacketReadError;
use lib::protocol::PacketReadError::Compression;
use lib::protocol::PacketReadError::ControlMissing;
use lib::protocol::PacketReadError::ShortConnless;
use lib::protocol::PacketReadError::TooLong;
use lib::protocol::PacketReadError::TooShort;
use lib::protocol::PacketReadError::UnknownControl;
use lib::protocol::Warning;
use lib::protocol::Warning::ChunkHeaderPadding;
use lib::protocol::Warning::ChunkHeaderSequence;
use lib::protocol::Warning::ChunksNoChunks;
use lib::protocol::Warning::ChunksNumChunks;
use lib::protocol::Warning::ChunksUnknownData;
use lib::protocol::Warning::ConnlessPadding;
use lib::protocol::Warning::ControlExcessData;
use lib::protocol::Warning::ControlFlags;
use lib::protocol::Warning::ControlNulTermination;
use lib::protocol::Warning::ControlNumChunks;
use lib::protocol::Warning::PacketHeaderPadding;

fn assert_warnings(input: &[u8], warnings: &[Warning]) {
    let huffman = teeworlds().unwrap();
    let mut vec = vec![];
    let mut buffer = Vec::with_capacity(4096);
    let packet = Packet::read(&mut vec, &huffman, input, &mut buffer).unwrap();
    if let Packet::Connected(ConnectedPacket {
        type_: ConnectedPacketType::Chunks(_, num_chunks, chunk_data),
        ..
    }) = packet
    {
        let mut chunks = ChunksIter::new(chunk_data, num_chunks);
        while let Some(_) = chunks.next_warn(&mut vec) {}
    }
    if warnings != &[ChunksNoChunks] {
        vec.retain(|w| *w != ChunksNoChunks);
    }
    assert_eq!(vec, warnings);
}

fn assert_warn(input: &[u8], warning: Warning) {
    assert_warnings(input, &[warning]);
}

fn assert_no_warn(input: &[u8]) {
    assert_warnings(input, &[]);
}

fn assert_err(input: &[u8], error: PacketReadError) {
    let huffman = teeworlds().unwrap();
    let mut warnings = vec![];
    let mut buffer = Vec::with_capacity(4096);
    assert_eq!(
        Packet::read(&mut warnings, &huffman, input, &mut buffer).unwrap_err(),
        error
    );
}

#[test]
fn protocol_w_chp() {
    assert_warn(b"\x00\x00\x01\x00\xf0", ChunkHeaderPadding)
}

#[test]
fn w_chs1() {
    assert_warn(b"\x00\x00\x01\x40\x20\x00", ChunkHeaderSequence)
}

#[test]
fn w_chs2() {
    assert_warn(b"\x00\x00\x01\x40\x10\x00", ChunkHeaderSequence)
}

#[test]
fn w_chs3() {
    assert_no_warn(b"\x00\x00\x01\x40\x70\xcf")
}

#[test]
fn protocol_w_cud1() {
    assert_warn(b"\x00\x00\x00\xff", ChunksUnknownData)
}

#[test]
fn protocol_w_cud2() {
    assert_warn(b"\x00\x00\x01\x00\x00\x00", ChunksUnknownData)
}

#[test]
fn protocol_w_cud3() {
    assert_no_warn(b"\x00\x00\x01\x00\x00")
}

#[test]
fn w_cud4_ddnet() {
    assert_no_warn(b"\x00\x00\x01\x00\x00\x12\x34\x45\x67")
}

#[test]
fn protocol_w_cnc1() {
    assert_warn(b"\x00\x00\x01", ChunksNumChunks)
}

#[test]
fn protocol_w_cnc2() {
    assert_warn(b"\x00\x00\x00\x00\x00", ChunksNumChunks)
}

#[test]
fn protocol_w_cnc_() {
    assert_warn(b"\x00\x00\x00", ChunksNoChunks)
}

#[test]
fn w_cp1() {
    assert_warn(b"xe\x01\x02\x03\x04", ConnlessPadding)
}

#[test]
fn w_cp2() {
    assert_warn(b"\xff\xff\xff\xff\xff\xfe", ConnlessPadding)
}

#[test]
fn w_cp3() {
    assert_warn(b"\x7f\xff\xff\xff\xff\xff", ConnlessPadding)
}

#[test]
fn w_cp4() {
    assert_no_warn(b"\xff\xff\xff\xff\xff\xff")
}

#[test]
fn protocol_w_ced1() {
    assert_warn(b"\x10\x00\x00\x00\x00", ControlExcessData)
}

#[test]
fn protocol_w_ced2() {
    assert_warn(b"\x10\x00\x00\x04\x00\x00", ControlExcessData)
}

#[test]
fn protocol_w_cf1() {
    assert_warn(b"\x90\x00\x00\x15\x37", ControlFlags)
}

#[test]
fn protocol_w_cf2() {
    assert_warn(b"\x50\x00\x00\x00", ControlFlags)
}

#[test]
fn protocol_w_cnt1() {
    assert_warn(b"\x10\x00\x00\x04\x01", ControlNulTermination)
}

#[test]
fn protocol_w_cnt2() {
    assert_no_warn(b"\x10\x00\x00\x04")
}

#[test]
fn protocol_w_cnc() {
    assert_warn(b"\x10\x00\xff\x00", ControlNumChunks)
}

#[test]
fn protocol_w_php1() {
    assert_warn(b"\x08\x00\x00", PacketHeaderPadding)
}

#[test]
fn protocol_w_php2() {
    assert_warn(b"\x04\x00\x00", PacketHeaderPadding)
}

#[test]
fn protocol_e_cm() {
    assert_err(b"\x10\x00\x00", ControlMissing)
}

#[test]
fn protocol_e_sc() {
    assert_err(b"\xff\xff\xff", ShortConnless)
}

#[test]
fn protocol_e_tl() {
    assert_err(&[0; MAX_PACKETSIZE+1], TooLong)
}

#[test]
fn protocol_e_ts1() {
    assert_err(b"\x00\x00", TooShort)
}

#[test]
fn protocol_e_ts2() {
    assert_err(b"", TooShort)
}

#[test]
fn protocol_e_uc1() {
    assert_err(b"\x10\x00\x00\x05", UnknownControl)
}

#[test]
fn protocol_e_uc2() {
    assert_err(b"\x10\x00\x00\xff", UnknownControl)
}

#[test]
fn protocol_e_c() {
    assert_err(b"\x80\x00\x00", Compression)
}
