use lib::packer::at_least;
use lib::packer::in_range;
use lib::packer::positive;
use lib::packer::sanitize;
use lib::packer::to_bool;
use lib::packer::Packer;
use lib::packer::Unpacker;
use lib::packer::Warning;
use lib::packer::Warning::ExcessData;
use lib::packer::Warning::IntPadding;
use lib::packer::Warning::OverlongIntEncoding;

fn assert_int_err(bytes: &[u8]) {
    let mut unpacker = Unpacker::new(bytes);
    let mut warnings = vec![];
    unpacker.read_int(&mut warnings).unwrap_err();
}

fn assert_int_warnings(bytes: &[u8], int: i32, warnings: &[Warning]) {
    let mut vec = vec![];
    let mut unpacker = Unpacker::new(bytes);
    assert_eq!(unpacker.read_int(&mut vec).unwrap(), int);
    assert!(unpacker.as_slice().is_empty());
    assert_eq!(vec, warnings);

    let mut p = Packer::new(5);
    p.write_int(int).unwrap();
    let written = p.written();
    if warnings.is_empty() {
        assert_eq!(written, bytes);
    } else {
        assert!(written != bytes);
    }
}

fn assert_int_warn(bytes: &[u8], int: i32, warning: Warning) {
    assert_int_warnings(bytes, int, &[warning]);
}

fn assert_int(bytes: &[u8], int: i32) {
    assert_int_warnings(bytes, int, &[]);
}

fn assert_str(bytes: &[u8], string: &[u8], remaining: &[u8]) {
    let mut unpacker = Unpacker::new(bytes);
    assert_eq!(unpacker.read_string().unwrap(), string);
    assert_eq!(unpacker.as_slice(), remaining);

    let mut p = Packer::new(4096);
    p.write_string(string).unwrap();
    p.write_rest(remaining).unwrap();
    let written = p.written();
    assert_eq!(written, bytes);
}

fn assert_str_err(bytes: &[u8]) {
    let mut unpacker = Unpacker::new(bytes);
    unpacker.read_string().unwrap_err();
}

#[test]
fn int_0() {
    assert_int(b"\x00", 0)
}
#[test]
fn int_1() {
    assert_int(b"\x01", 1)
}
#[test]
fn int_63() {
    assert_int(b"\x3f", 63)
}
#[test]
fn int_m1() {
    assert_int(b"\x40", -1)
}
#[test]
fn int_64() {
    assert_int(b"\x80\x01", 64)
}
#[test]
fn int_m65() {
    assert_int(b"\xc0\x01", -65)
}
#[test]
fn int_m64() {
    assert_int(b"\x7f", -64)
}
#[test]
fn int_min() {
    assert_int(b"\xff\xff\xff\xff\x0f", i32::MIN)
}
#[test]
fn int_max() {
    assert_int(b"\xbf\xff\xff\xff\x0f", i32::MAX)
}
#[test]
fn int_quirk1() {
    assert_int_warn(b"\xff\xff\xff\xff\xff", 0, IntPadding)
}
#[test]
fn int_quirk2() {
    assert_int_warn(b"\xbf\xff\xff\xff\xff", -1, IntPadding)
}
#[test]
fn int_empty() {
    assert_int_err(b"")
}
#[test]
fn int_extend_empty() {
    assert_int_err(b"\x80")
}
#[test]
fn int_overlong1() {
    assert_int_warn(b"\x80\x00", 0, OverlongIntEncoding)
}
#[test]
fn int_overlong2() {
    assert_int_warn(b"\xc0\x00", -1, OverlongIntEncoding)
}

#[test]
fn str_empty() {
    assert_str(b"\0", b"", b"")
}
#[test]
fn str_none() {
    assert_str_err(b"")
}
#[test]
fn str_no_nul() {
    assert_str_err(b"abc")
}
#[test]
fn str_rest1() {
    assert_str(b"abc\0def", b"abc", b"def")
}
#[test]
fn str_rest2() {
    assert_str(b"abc\0", b"abc", b"")
}
#[test]
fn str_rest3() {
    assert_str(b"abc\0\0", b"abc", b"\0")
}
#[test]
fn str_rest4() {
    assert_str(b"\0\0", b"", b"\0")
}

#[test]
fn excess_data() {
    let mut warnings = vec![];
    let mut unpacker = Unpacker::new(b"\x00");
    unpacker.finish(&mut warnings);
    assert_eq!(warnings, [ExcessData]);
}

#[test]
fn int_roundtrip_values() {
    for &int in &[0, 1, -1, 63, 64, -64, -65, 1000, -1000, i32::MIN, i32::MAX, 123456789] {
        let mut p = Packer::new(5);
        p.write_int(int).unwrap();
        let written = p.written();
        let mut unpacker = Unpacker::new(&written);
        let mut warnings = vec![];
        assert_eq!(unpacker.read_int(&mut warnings).unwrap(), int);
        assert!(unpacker.as_slice().is_empty());
        assert!(warnings.is_empty());
    }
}

#[test]
fn packer_capacity_error() {
    let mut p = Packer::new(1);
    assert!(p.write_int(64).is_err());
    assert!(p.write_int(63).is_ok());
    assert_eq!(p.written(), vec![0x3f]);
}

#[test]
fn read_data_and_rest() {
    let mut warnings = vec![];
    let mut unpacker = Unpacker::new(b"\x02ab\x01");
    assert_eq!(unpacker.read_data(&mut warnings).unwrap(), b"ab");
    assert_eq!(unpacker.read_rest().unwrap(), b"\x01");
    assert!(unpacker.as_slice().is_empty());
    let mut unpacker = Unpacker::new(b"\x05ab");
    assert!(unpacker.read_data(&mut warnings).is_err());
    assert!(unpacker.as_slice().is_empty());
}

#[test]
fn range_checks() {
    assert_eq!(in_range(5, 0, 5).unwrap(), 5);
    assert!(in_range(6, 0, 5).is_err());
    assert_eq!(to_bool(1).unwrap(), true);
    assert_eq!(to_bool(0).unwrap(), false);
    assert!(to_bool(2).is_err());
    assert!(at_least(-2, -1).is_err());
    assert_eq!(positive(0).unwrap(), 0);
    assert!(positive(-1).is_err());
}

#[test]
fn sanitize_control_characters() {
    let mut warnings = vec![];
    assert_eq!(sanitize(&mut warnings, b"abc").unwrap(), b"abc");
    assert!(sanitize(&mut warnings, b"a\x01c").is_err());
}
