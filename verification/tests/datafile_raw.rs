use lib::datafile_raw::DatafileErr;
use lib::datafile_raw::DatafileHeader;
use lib::datafile_raw::DatafileHeaderVersion;
use lib::datafile_raw::DatafileItemHeader;
use lib::datafile_raw::DATAFILE_MAGIC;
use lib::datafile_raw::DATAFILE_MAGIC_BIGENDIAN;

fn header() -> DatafileHeader {
    DatafileHeader {
        _size: 100,
        _swaplen: 80,
        num_item_types: 2,
        num_items: 3,
        num_data: 1,
        size_items: 24,
        size_data: 10,
    }
}

#[test]
fn header_version_check() {
    assert_eq!(DatafileHeaderVersion { magic: DATAFILE_MAGIC, version: 4 }.check(), Ok(()));
    assert_eq!(DatafileHeaderVersion { magic: DATAFILE_MAGIC_BIGENDIAN, version: 3 }.check(), Ok(()));
    assert_eq!(DatafileHeaderVersion { magic: *b"ATAX", version: 4 }.check(), Err(DatafileErr::WrongMagic));
    assert_eq!(DatafileHeaderVersion { magic: DATAFILE_MAGIC, version: 5 }.check(), Err(DatafileErr::UnsupportedVersion));
}

#[test]
fn header_check() {
    assert_eq!(header().check(), Ok(()));
    let mut h = header();
    h.size_items = 22;
    assert_eq!(h.check(), Err(DatafileErr::MalformedHeader));
    let mut h = header();
    h.num_items = -1;
    assert_eq!(h.check(), Err(DatafileErr::MalformedHeader));
}

#[test]
fn item_header_type_id() {
    let mut h = DatafileItemHeader { type_id__id: 0, size: 8 };
    h.set_type_id__id(5, 7);
    assert_eq!(h.type_id__id, 0x0005_0007);
    assert_eq!(h.type_id(), 5);
    assert_eq!(h.id(), 7);
    assert_eq!(h.size, 8);
    h.set_type_id__id(0xffff, 0xffff);
    assert_eq!(h.type_id(), 0xffff);
    assert_eq!(h.id(), 0xffff);
}

use lib::datafile_raw::DatafileReader;
use lib::datafile_raw::ReadError;

fn le(v: i32) -> [u8; 4] {
    v.to_le_bytes()
}

/// A version 4 datafile with one item type (id 2), two items (ids 0 and 5)
/// and one data.
fn small_datafile() -> Vec<u8> {
    let mut b = Vec::new();
    b.extend_from_slice(b"DATA");
    b.extend_from_slice(&le(4));
    // header: size, swaplen, num_item_types, num_items, num_data,
    // size_items, size_data
    for v in [0, 0, 1, 2, 1, 24, 5] {
        b.extend_from_slice(&le(v));
    }
    // item type: type_id, start, num
    for v in [2, 0, 2] {
        b.extend_from_slice(&le(v));
    }
    // item offsets
    b.extend_from_slice(&le(0));
    b.extend_from_slice(&le(12));
    // data offsets
    b.extend_from_slice(&le(0));
    // uncompressed sizes
    b.extend_from_slice(&le(3));
    // items: header (type_id << 16 | id, size), data
    b.extend_from_slice(&le((2 << 16) | 0));
    b.extend_from_slice(&le(4));
    b.extend_from_slice(&le(7));
    b.extend_from_slice(&le((2 << 16) | 5));
    b.extend_from_slice(&le(4));
    b.extend_from_slice(&le(9));
    // data
    b.extend_from_slice(b"abcde");
    b
}

#[test]
fn reader_reads_items() {
    let bytes = small_datafile();
    let df = DatafileReader::read(&bytes).unwrap();
    assert_eq!(df.num_item_types(), 1);
    assert_eq!(df.num_items(), 2);
    assert_eq!(df.num_data(), 1);
    assert_eq!(df.item_types(), vec![2]);
    assert_eq!(df.item_type_indexes_start_num(2), (0, 2));
    assert_eq!(df.item_type_indexes_start_num(3), (0, 0));
    let item = df.item(1);
    assert_eq!((item.type_id, item.id, item.data), (2, 5, &[9][..]));
    let found = df.item_find(2, 5).unwrap();
    assert_eq!(found.data, &[9]);
    assert!(df.item_find(2, 1).is_none());
    assert_eq!(df.item_type_items(2).len(), 2);
    assert_eq!(df.items().len(), 2);
    assert_eq!(df.data_size_file(0), 5);
    assert_eq!(df.data_file_offset(0), (bytes.len() - 5) as u64);
    assert_eq!(df.uncomp_data_size(0), Some(3));
}

#[test]
fn reader_refuses_bad_files() {
    let bytes = small_datafile();
    assert!(matches!(DatafileReader::read(&bytes[..20]), Err(ReadError::UnexpectedEnd)));
    assert!(matches!(DatafileReader::read(&bytes[..60]), Err(ReadError::UnexpectedEnd)));
    let mut bad = bytes.clone();
    bad[0] = b'X';
    assert!(matches!(DatafileReader::read(&bad), Err(ReadError::Df(DatafileErr::WrongMagic))));
    let mut bad = bytes.clone();
    bad[4] = 5;
    assert!(matches!(DatafileReader::read(&bad), Err(ReadError::Df(DatafileErr::UnsupportedVersion))));
    // The item type starts at item 1.
    let mut bad = bytes.clone();
    bad[40..44].copy_from_slice(&le(1));
    assert!(matches!(DatafileReader::read(&bad), Err(ReadError::Df(DatafileErr::Malformed))));
    // The second item has another type.
    let mut bad = bytes.clone();
    let at = 36 + 12 + 8 + 4 + 4 + 12;
    bad[at..at + 4].copy_from_slice(&le((3 << 16) | 5));
    assert!(matches!(DatafileReader::read(&bad), Err(ReadError::Df(DatafileErr::Malformed))));
}

#[test]
fn reader_read_checked() {
    let bytes = small_datafile();
    assert!(matches!(DatafileReader::read_checked(&bytes), Some(Ok(_))));
    assert!(matches!(DatafileReader::read_checked(&bytes[..20]), Some(Err(ReadError::UnexpectedEnd))));
    // The first item claims 2 bytes of data, so the second would start at
    // byte 10, which is no multiple of 4.
    let mut b = Vec::new();
    b.extend_from_slice(b"DATA");
    b.extend_from_slice(&le(4));
    for v in [0, 0, 1, 2, 1, 24, 5] {
        b.extend_from_slice(&le(v));
    }
    for v in [2, 0, 2] {
        b.extend_from_slice(&le(v));
    }
    for v in [0, 10, 0, 3] {
        b.extend_from_slice(&le(v));
    }
    for v in [2 << 16, 2, 0, 0, 0, 0] {
        b.extend_from_slice(&le(v));
    }
    b.extend_from_slice(b"abcde");
    assert!(DatafileReader::read_checked(&b).is_none());
}
