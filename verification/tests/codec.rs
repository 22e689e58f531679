// Tests for the base64 codec layers, built around the icosahedron mesh
// fixture: its point coordinates (Float32), connectivity (Int64) and
// cell types (UInt8) sections.

use vtk_codec::CodecError;
use vtk_codec::base64::{
    decode_f32_bits, decode_i64, decode_u8, decode_u8_raw, encode_f32_bits, encode_i64, encode_u8,
    encode_u8_raw, BIG_ENDIAN, LITTLE_ENDIAN,
};
use vtk_codec::vtk::{check_type, parse_data_f32, parse_data_i64, parse_data_u8};
use vtk_codec::vtk::{DataHeader, Settings, VtkFile};

// Points (Float32)
const STR_F32: &str = "kAAAAAAAAABpg40+QMRZPy755D5MPjm/UJYGPy755D5MPjm/UJYGvy755D5pg40+QMRZvy755D4u+WQ/f5J8pS755D5pg42+QMRZPy755L4u+WS/d5L8JC755L5pg42+QMRZvy755L5MPjk/UJYGvy755L5MPjk/UJYGPy755L4AAAAAAAAAAAAAgD8zMQ0lAAAAAAAAgL8=";

const STR_F32_RAW: &str = "kAAAAAAAAABpg40+QMRZPy755D5MPjm/UJYGPy755D5MPjm/UJYGvy755D5pg40+QMRZvy755D4u+WQ/f5J8pS755D5pg42+QMRZPy755L4u+WS/d5L8JC755L5pg42+QMRZvy755L5MPjk/UJYGvy755L5MPjk/UJYGPy755L4AAAAAAAAAAAAAgD8zMQ0lAAAAAAAAgL8A";

// connectivity (Int64)
const STR_I64: &str = "4AEAAAAAAAAAAAAAAAAAAAEAAAAAAAAACgAAAAAAAAABAAAAAAAAAAIAAAAAAAAACgAAAAAAAAACAAAAAAAAAAMAAAAAAAAACgAAAAAAAAADAAAAAAAAAAQAAAAAAAAACgAAAAAAAAAEAAAAAAAAAAAAAAAAAAAACgAAAAAAAAABAAAAAAAAAAAAAAAAAAAABQAAAAAAAAACAAAAAAAAAAEAAAAAAAAABgAAAAAAAAADAAAAAAAAAAIAAAAAAAAABwAAAAAAAAAEAAAAAAAAAAMAAAAAAAAACAAAAAAAAAAAAAAAAAAAAAQAAAAAAAAACQAAAAAAAAAFAAAAAAAAAAYAAAAAAAAAAQAAAAAAAAAGAAAAAAAAAAcAAAAAAAAAAgAAAAAAAAAHAAAAAAAAAAgAAAAAAAAAAwAAAAAAAAAIAAAAAAAAAAkAAAAAAAAABAAAAAAAAAAJAAAAAAAAAAUAAAAAAAAAAAAAAAAAAAAGAAAAAAAAAAUAAAAAAAAACwAAAAAAAAAHAAAAAAAAAAYAAAAAAAAACwAAAAAAAAAIAAAAAAAAAAcAAAAAAAAACwAAAAAAAAAJAAAAAAAAAAgAAAAAAAAACwAAAAAAAAAFAAAAAAAAAAkAAAAAAAAACwAAAAAAAAA=";

// types (UInt8)
const STR_U8: &str = "FAAAAAAAAAAFBQUFBQUFBQUFBQUFBQUFBQUFBQ==";

// Raw bytes for STR_F32
const EXPECTED_F32_BYTES: [u8; 153] = [
    144, 0, 0, 0, 0, 0, 0, 0, 105, 131, 141, 62, 64, 196, 89, 63, 46, 249, 228, 62, 76, 62, 57,
    191, 80, 150, 6, 63, 46, 249, 228, 62, 76, 62, 57, 191, 80, 150, 6, 191, 46, 249, 228, 62,
    105, 131, 141, 62, 64, 196, 89, 191, 46, 249, 228, 62, 46, 249, 100, 63, 127, 146, 124, 165,
    46, 249, 228, 62, 105, 131, 141, 190, 64, 196, 89, 63, 46, 249, 228, 190, 46, 249, 100, 191,
    119, 146, 252, 36, 46, 249, 228, 190, 105, 131, 141, 190, 64, 196, 89, 191, 46, 249, 228, 190,
    76, 62, 57, 63, 80, 150, 6, 191, 46, 249, 228, 190, 76, 62, 57, 63, 80, 150, 6, 63, 46, 249,
    228, 190, 0, 0, 0, 0, 0, 0, 0, 0, 0, 0, 128, 63, 51, 49, 13, 37, 0, 0, 0, 0, 0, 0, 128, 191,
    0,
];

// STR_F32, decoded as actual f32, without the u64 length header
const EXPECTED_F32: [f32; 36] = [
    0.2763932, 0.8506508, 0.4472136, -0.7236068, 0.5257311, 0.4472136, -0.7236068, -0.5257311,
    0.4472136, 0.2763932, -0.8506508, 0.4472136, 0.8944272, -2.190715e-16, 0.4472136, -0.2763932,
    0.8506508, -0.4472136, -0.8944272, 1.095357e-16, -0.4472136, -0.2763932, -0.8506508,
    -0.4472136, 0.7236068, -0.5257311, -0.4472136, 0.7236068, 0.5257311, -0.4472136, 0.0, 0.0,
    1.0, 1.224647e-16, 0.0, -1.0,
];

const EXPECTED_I64: [i64; 60] = [
    0, 1, 10, 1, 2, 10, 2, 3, 10, 3, 4, 10, 4, 0, 10, 1, 0, 5, 2, 1, 6, 3, 2, 7, 4, 3, 8, 0, 4,
    9, 5, 6, 1, 6, 7, 2, 7, 8, 3, 8, 9, 4, 9, 5, 0, 6, 5, 11, 7, 6, 11, 8, 7, 11, 9, 8, 11, 5, 9,
    11,
];

const EXPECTED_U8: [u8; 20] = [5, 5, 5, 5, 5, 5, 5, 5, 5, 5, 5, 5, 5, 5, 5, 5, 5, 5, 5, 5];

fn f32_bits(v: &[f32]) -> Vec<u32> {
    v.iter().map(|x| x.to_bits()).collect()
}

fn bits_f32(v: &[u32]) -> Vec<f32> {
    v.iter().map(|x| f32::from_bits(*x)).collect()
}

#[test]
fn test_encode_u8_raw() {
    let s = encode_u8_raw(&EXPECTED_F32_BYTES.to_vec());
    assert_eq!(s, STR_F32_RAW);
}

#[test]
fn test_decode_u8_raw() {
    let data = decode_u8_raw(STR_F32);
    assert_eq!(data, EXPECTED_F32_BYTES);
}

#[test]
fn test_encode_f32() {
    let s = encode_f32_bits(&f32_bits(&EXPECTED_F32), LITTLE_ENDIAN);
    assert_eq!(s, STR_F32);
}

#[test]
fn test_decode_f32() {
    let data = decode_f32_bits(STR_F32, LITTLE_ENDIAN).unwrap();
    assert_eq!(bits_f32(&data), EXPECTED_F32);
}

#[test]
fn test_decode_i64() {
    let data = decode_i64(STR_I64, LITTLE_ENDIAN).unwrap();
    assert_eq!(data, EXPECTED_I64);
}

#[test]
fn test_decode_u8() {
    let data = decode_u8(STR_U8, LITTLE_ENDIAN).unwrap();
    assert_eq!(data, EXPECTED_U8);
}

#[test]
fn test_le_f32() {
    let endianness = LITTLE_ENDIAN;
    let s = encode_f32_bits(&f32_bits(&EXPECTED_F32), endianness);
    let data = decode_f32_bits(&s, endianness).unwrap();
    assert_eq!(bits_f32(&data), EXPECTED_F32);
}

#[test]
fn test_be_f32() {
    let endianness = BIG_ENDIAN;
    let s = encode_f32_bits(&f32_bits(&EXPECTED_F32), endianness);
    let data = decode_f32_bits(&s, endianness).unwrap();
    assert_eq!(bits_f32(&data), EXPECTED_F32);
}

#[test]
fn test_le_i64() {
    let endianness = LITTLE_ENDIAN;
    let s = encode_i64(&EXPECTED_I64.to_vec(), endianness);
    let data = decode_i64(&s, endianness).unwrap();
    assert_eq!(data, EXPECTED_I64);
}

#[test]
fn test_be_i64() {
    let endianness = BIG_ENDIAN;
    let s = encode_i64(&EXPECTED_I64.to_vec(), endianness);
    let data = decode_i64(&s, endianness).unwrap();
    assert_eq!(data, EXPECTED_I64);
}

#[test]
fn test_le_u8() {
    let endianness = LITTLE_ENDIAN;
    let s = encode_u8(&EXPECTED_U8.to_vec(), endianness);
    let data = decode_u8(&s, endianness).unwrap();
    assert_eq!(data, EXPECTED_U8);
}

#[test]
fn test_be_u8() {
    let endianness = BIG_ENDIAN;
    let s = encode_u8(&EXPECTED_U8.to_vec(), endianness);
    let data = decode_u8(&s, endianness).unwrap();
    assert_eq!(data, EXPECTED_U8);
}

// A raw byte sequence whose length is a multiple of three round-trips
// exactly; otherwise the decoding starts with the original bytes and
// carries only zero fill after them.
#[test]
fn test_raw_round_trip() {
    let exact: Vec<u8> = vec![1, 2, 3, 250, 251, 252];
    assert_eq!(decode_u8_raw(&encode_u8_raw(&exact)), exact);

    let partial: Vec<u8> = vec![9, 8, 7, 6];
    let decoded = decode_u8_raw(&encode_u8_raw(&partial));
    assert_eq!(decoded.len(), 6);
    assert_eq!(&decoded[..4], &partial[..]);
    assert_eq!(&decoded[4..], &[0, 0]);
}

// An empty array of any element type encodes to the twelve characters
// of the zero-length header alone, and decodes back to an empty array.
#[test]
fn test_empty_array() {
    for endianness in [LITTLE_ENDIAN, BIG_ENDIAN] {
        let s = encode_u8(&Vec::new(), endianness);
        assert_eq!(s, "AAAAAAAAAAA=");
        assert_eq!(decode_u8(&s, endianness).unwrap(), Vec::<u8>::new());

        let s = encode_i64(&Vec::new(), endianness);
        assert_eq!(s, "AAAAAAAAAAA=");
        assert_eq!(decode_i64(&s, endianness).unwrap(), Vec::<i64>::new());

        let s = encode_f32_bits(&Vec::new(), endianness);
        assert_eq!(s, "AAAAAAAAAAA=");
        assert_eq!(decode_f32_bits(&s, endianness).unwrap(), Vec::<u32>::new());
    }
}

// The two endianness settings produce different text for multi-byte
// elements, and for byte arrays they still differ through the length
// header whenever the byte count is not symmetric under byte swap.
#[test]
fn test_endianness_text_differs() {
    let ints: Vec<i64> = vec![1, 2, 3];
    assert_ne!(encode_i64(&ints, LITTLE_ENDIAN), encode_i64(&ints, BIG_ENDIAN));

    let floats = f32_bits(&[1.0, -2.5]);
    assert_ne!(
        encode_f32_bits(&floats, LITTLE_ENDIAN),
        encode_f32_bits(&floats, BIG_ENDIAN)
    );

    let bytes: Vec<u8> = vec![7];
    assert_ne!(encode_u8(&bytes, LITTLE_ENDIAN), encode_u8(&bytes, BIG_ENDIAN));
}

// A buffer shorter than its own header, or shorter than the element
// count the header declares, is rejected.
#[test]
fn test_malformed_length() {
    assert_eq!(decode_u8("", LITTLE_ENDIAN), Err(CodecError::MalformedLength));
    assert_eq!(decode_i64("AAAA", LITTLE_ENDIAN), Err(CodecError::MalformedLength));
    // The header of STR_U8 declares twenty bytes; cutting the payload
    // off leaves too few.
    assert_eq!(decode_u8(&STR_U8[..12], LITTLE_ENDIAN), Err(CodecError::MalformedLength));
    assert_eq!(decode_f32_bits(&STR_F32[..16], LITTLE_ENDIAN), Err(CodecError::MalformedLength));
}

#[test]
fn test_check_type() {
    let mut dh = DataHeader::new();
    dh.dtype = "Int64".to_string();
    assert_eq!(check_type(&dh, "Int64"), Ok(()));
    assert_eq!(check_type(&dh, "Float32"), Err(CodecError::TypeMismatch));
}

fn section(dtype: &str, format: &str) -> (DataHeader, VtkFile) {
    let mut dh = DataHeader::new();
    dh.dtype = dtype.to_string();
    dh.format = format.to_string();
    (dh, VtkFile::new())
}

#[test]
fn test_parse_data_sections() {
    let (dh, v) = section("Int64", "binary");
    assert_eq!(parse_data_i64(&dh, STR_I64, &v).unwrap(), EXPECTED_I64);

    let (dh, v) = section("UInt8", "binary");
    assert_eq!(parse_data_u8(&dh, STR_U8, &v).unwrap(), EXPECTED_U8);

    let (dh, v) = section("Float32", "binary");
    assert_eq!(
        bits_f32(&parse_data_f32(&dh, STR_F32, &v).unwrap()),
        EXPECTED_F32
    );
}

#[test]
fn test_parse_data_type_mismatch() {
    let (dh, v) = section("Float32", "binary");
    assert_eq!(parse_data_i64(&dh, STR_I64, &v), Err(CodecError::TypeMismatch));
    let (dh, v) = section("Int64", "binary");
    assert_eq!(parse_data_u8(&dh, STR_U8, &v), Err(CodecError::TypeMismatch));
    let (dh, v) = section("UInt8", "binary");
    assert_eq!(parse_data_f32(&dh, STR_F32, &v), Err(CodecError::TypeMismatch));
}

#[test]
fn test_parse_data_unsupported_format() {
    let (dh, v) = section("Int64", "ascii");
    assert_eq!(parse_data_i64(&dh, STR_I64, &v), Err(CodecError::UnsupportedFormat));
    let (dh, v) = section("Float32", "appended");
    assert_eq!(parse_data_f32(&dh, STR_F32, &v), Err(CodecError::UnsupportedFormat));
    let (dh, v) = section("UInt8", "ascii");
    assert_eq!(parse_data_u8(&dh, STR_U8, &v), Err(CodecError::UnsupportedFormat));
}

#[test]
fn test_convert() {
    let mut v = VtkFile::new();
    assert_eq!(v.endianness, LITTLE_ENDIAN);
    assert_eq!(v.format, "binary");

    let settings = Settings {
        input: String::new(),
        output: String::new(),
        le: false,
        be: true,
        ascii: true,
        binary: false,
    };
    v.convert(&settings);
    assert_eq!(v.endianness, BIG_ENDIAN);
    assert_eq!(v.format, "ascii");

    let keep = Settings {
        input: String::new(),
        output: String::new(),
        le: false,
        be: false,
        ascii: false,
        binary: false,
    };
    v.convert(&keep);
    assert_eq!(v.endianness, BIG_ENDIAN);
    assert_eq!(v.format, "ascii");

    let back = Settings {
        input: String::new(),
        output: String::new(),
        le: true,
        be: true,
        ascii: false,
        binary: true,
    };
    v.convert(&back);
    assert_eq!(v.endianness, LITTLE_ENDIAN);
    assert_eq!(v.format, "binary");
}

// The length header read back from an encoded buffer always matches the
// payload size, whichever endianness laid it out.
#[test]
fn test_header_reads_back() {
    for endianness in [LITTLE_ENDIAN, BIG_ENDIAN] {
        let s = encode_u8(&vec![9; 300], endianness);
        let bytes = decode_u8_raw(&s);
        let header = &bytes[..8];
        let value = if endianness == BIG_ENDIAN {
            u64::from_be_bytes(header.try_into().unwrap())
        } else {
            u64::from_le_bytes(header.try_into().unwrap())
        };
        assert_eq!(value, 300);
    }
}
