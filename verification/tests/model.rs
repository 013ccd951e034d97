use rustytune::ini::lex::Shape;
use rustytune::ini::model::{byte_size, ConstantClass, DataType};
use rustytune::ini::Error;
use rustytune::msq::{decode_latin1, xml_escape};

#[test]
fn data_types_parse_with_sizes_and_signs() {
    let all = [
        ("U08", DataType::U08, 1, false),
        ("S08", DataType::S08, 1, true),
        ("U16", DataType::U16, 2, false),
        ("S16", DataType::S16, 2, true),
        ("U32", DataType::U32, 4, false),
        ("S32", DataType::S32, 4, true),
        ("ASCII", DataType::Ascii, 1, false),
    ];
    for (name, ty, size, signed) in all {
        let t = DataType::parse(name, 7).unwrap();
        assert_eq!(t, ty);
        assert_eq!(t.size(), size);
        assert_eq!(t.signed(), signed);
    }
    match DataType::parse("F32", 12) {
        Err(Error::Parse(12, msg)) => assert_eq!(msg, "unknown data type `F32`"),
        other => panic!("{other:?}"),
    }
}

#[test]
fn constant_byte_sizes() {
    assert_eq!(byte_size(ConstantClass::Scalar, DataType::U16, None, None), 2);
    assert_eq!(byte_size(ConstantClass::Bits, DataType::U08, Some(Shape::Bits { lo: 0, hi: 3 }), None), 1);
    assert_eq!(byte_size(ConstantClass::Array, DataType::U16, Some(Shape::Array2D { x: 16, y: 16 }), None), 512);
    assert_eq!(byte_size(ConstantClass::Array, DataType::S08, Some(Shape::Array1D(6)), None), 6);
    assert_eq!(byte_size(ConstantClass::Array, DataType::S08, None, None), 0);
    assert_eq!(byte_size(ConstantClass::String, DataType::Ascii, None, Some(20)), 20);
}

#[test]
fn latin1_and_xml_escape() {
    assert_eq!(decode_latin1(&[0x41, 0xE9, 0xFF]), "A\u{e9}\u{ff}");
    assert_eq!(xml_escape("a&b<c>\"d\""), "a&amp;b&lt;c&gt;&quot;d&quot;");
    assert_eq!(xml_escape("plain"), "plain");
}

use rustytune::ini::telemetry::{bit_field, read_raw};

#[test]
fn signed_decode() {
    // S16 at offset 0: -300
    let block = (-300i16).to_le_bytes();
    assert_eq!(read_raw(&block, 0, DataType::S16).map(|v| v as f64), Some(-300.0));
    assert_eq!(read_raw(&[0x85], 0, DataType::S08).map(|v| v as f64), Some(-123.0));
    assert_eq!(read_raw(&[0x85], 0, DataType::U08).map(|v| v as f64), Some(133.0));
}

#[test]
fn out_of_range_is_none() {
    assert_eq!(read_raw(&[1, 2], 1, DataType::U16).map(|v| v as f64), None);
}

#[test]
fn wide_and_bit_values() {
    assert_eq!(read_raw(&[0, 0x78, 0x56, 0x34, 0x12], 1, DataType::U32), Some(0x1234_5678));
    assert_eq!(read_raw(&[0xff, 0xff, 0xff, 0xff], 0, DataType::S32), Some(-1));
    assert_eq!(read_raw(&[0xff, 0xff], 0, DataType::U16), Some(0xffff));
    assert_eq!(bit_field(0b1011_0100, 2, 4), 0b101);
    assert_eq!(bit_field(0xff, 0, 0), 1);
}
