//! In-memory representation of an unstructured-grid mesh file, and the
//! rules that route each data section of the enclosing container to the
//! right typed decoder.

use crate::CodecError;
use crate::base64;
use vstd::prelude::*;

verus! {

/// Conversion settings handed in by the caller: where to read and write,
/// and which endianness and text format the output should use.
pub struct Settings {
    pub input: String,
    pub output: String,
    pub le: bool,
    pub be: bool,
    pub ascii: bool,
    pub binary: bool,
}

/// A mesh file's header fields and data sections. Point coordinates are
/// 32-bit floats carried as their IEEE 754 bit patterns, which keeps the
/// byte layout exact without any floating-point arithmetic.
pub struct VtkFile {
    pub vtype: String,
    pub version: String,
    pub endianness: u8,
    pub format: String,
    pub npoints: u64,
    pub ncells: u64,
    pub ncomponents: u64,
    pub points: Vec<u32>,
    pub connectivity: Vec<i64>,
    pub offsets: Vec<i64>,
    pub types: Vec<u8>,
}

impl VtkFile {
    /// A fresh file record: little-endian binary format, three
    /// components per point, no data.
    pub fn new() -> (v: VtkFile)
        ensures
            v.vtype@ == Seq::<char>::empty(),
            v.version@ == Seq::<char>::empty(),
            v.endianness == base64::LITTLE_ENDIAN,
            v.format@ == "binary"@,
            v.npoints == 0,
            v.ncells == 0,
            v.ncomponents == 3,
            v.points@ == Seq::<u32>::empty(),
            v.connectivity@ == Seq::<i64>::empty(),
            v.offsets@ == Seq::<i64>::empty(),
            v.types@ == Seq::<u8>::empty(),
    {
        VtkFile {
            vtype: String::new(),
            version: String::new(),
            endianness: base64::LITTLE_ENDIAN,
            format: String::from_str("binary"),
            npoints: 0,
            ncells: 0,
            ncomponents: 3,
            points: Vec::new(),
            connectivity: Vec::new(),
            offsets: Vec::new(),
            types: Vec::new(),
        }
    }

    /// Applies the output settings: an explicit endianness choice
    /// overrides the file's own, little-endian winning over big-endian
    /// when both are set, and an explicit text-format choice overrides
    /// the file's own, ascii winning over binary when both are set.
    /// Every data field is left untouched.
    pub fn convert(&mut self, settings: &Settings)
        ensures
            final(self).endianness == (if settings.le {
                base64::LITTLE_ENDIAN
            } else if settings.be {
                base64::BIG_ENDIAN
            } else {
                old(self).endianness
            }),
            final(self).format@ == (if settings.ascii {
                "ascii"@
            } else if settings.binary {
                "binary"@
            } else {
                old(self).format@
            }),
            final(self).vtype == old(self).vtype,
            final(self).version == old(self).version,
            final(self).npoints == old(self).npoints,
            final(self).ncells == old(self).ncells,
            final(self).ncomponents == old(self).ncomponents,
            final(self).points == old(self).points,
            final(self).connectivity == old(self).connectivity,
            final(self).offsets == old(self).offsets,
            final(self).types == old(self).types,
    {
        self.endianness = if settings.le {
            base64::LITTLE_ENDIAN
        } else if settings.be {
            base64::BIG_ENDIAN
        } else {
            self.endianness
        };
        if settings.ascii {
            self.format = String::from_str("ascii");
        } else if settings.binary {
            self.format = String::from_str("binary");
        }
    }
}

/// The attributes of one data section: its declared element type, its
/// name, and its text encoding.
pub struct DataHeader {
    pub dtype: String,
    pub name: String,
    pub format: String,
}

impl DataHeader {
    /// A fresh section header: empty type and name, binary format.
    pub fn new() -> (dh: DataHeader)
        ensures
            dh.dtype@ == Seq::<char>::empty(),
            dh.name@ == Seq::<char>::empty(),
            dh.format@ == "binary"@,
    {
        DataHeader {
            dtype: String::new(),
            name: String::new(),
            format: String::from_str("binary"),
        }
    }
}

/// Rejects a data section whose declared element type is not the one
/// the caller is about to decode it as.
pub fn check_type(dh: &DataHeader, expected: &str) -> (r: Result<(), CodecError>)
    ensures
        r is Ok <==> dh.dtype@ == expected@,
        r is Err ==> r == Err::<(), CodecError>(CodecError::TypeMismatch),
{
    let exp = String::from_str(expected);
    if dh.dtype == exp {
        Ok(())
    } else {
        Err(CodecError::TypeMismatch)
    }
}

/// What parsing a float32 data section yields: the declared type must
/// be `Float32`, only the binary text encoding is handled, and the text
/// then goes through the framed float32 decoder; element values are
/// IEEE 754 bit patterns.
pub open spec fn spec_parse_data_f32(
    dtype: Seq<char>,
    format: Seq<char>,
    text: Seq<char>,
    e: u8,
) -> Result<Seq<u32>, CodecError> {
    if dtype != "Float32"@ {
        Err(CodecError::TypeMismatch)
    } else if format != "binary"@ {
        Err(CodecError::UnsupportedFormat)
    } else {
        base64::spec_decode_f32_bits(text, e)
    }
}

/// Parses a float32 data section, routing its text through the framed
/// float32 decoder; elements come back as IEEE 754 bit patterns.
pub fn parse_data_f32(dh: &DataHeader, string: &str, v: &VtkFile) -> (r: Result<
    Vec<u32>,
    CodecError,
>)
    ensures
        (match r {
            Ok(data) => spec_parse_data_f32(dh.dtype@, dh.format@, string@, v.endianness) == Ok::<
                Seq<u32>,
                CodecError,
            >(data@),
            Err(e) => spec_parse_data_f32(dh.dtype@, dh.format@, string@, v.endianness) == Err::<
                Seq<u32>,
                CodecError,
            >(e),
        }),
{
    match check_type(dh, "Float32") {
        Err(e) => return Err(e),
        Ok(()) => {},
    }
    let bin = String::from_str("binary");
    if !(dh.format == bin) {
        return Err(CodecError::UnsupportedFormat);
    }
    base64::decode_f32_bits(string, v.endianness)
}

/// What parsing an int64 data section yields: the declared type must be
/// `Int64`, only the binary text encoding is handled, and the text then
/// goes through the framed int64 decoder.
pub open spec fn spec_parse_data_i64(
    dtype: Seq<char>,
    format: Seq<char>,
    text: Seq<char>,
    e: u8,
) -> Result<Seq<i64>, CodecError> {
    if dtype != "Int64"@ {
        Err(CodecError::TypeMismatch)
    } else if format != "binary"@ {
        Err(CodecError::UnsupportedFormat)
    } else {
        base64::spec_decode_i64(text, e)
    }
}

/// Parses an int64 data section, routing its text through the framed
/// int64 decoder.
pub fn parse_data_i64(dh: &DataHeader, string: &str, v: &VtkFile) -> (r: Result<
    Vec<i64>,
    CodecError,
>)
    ensures
        (match r {
            Ok(data) => spec_parse_data_i64(dh.dtype@, dh.format@, string@, v.endianness) == Ok::<
                Seq<i64>,
                CodecError,
            >(data@),
            Err(e) => spec_parse_data_i64(dh.dtype@, dh.format@, string@, v.endianness) == Err::<
                Seq<i64>,
                CodecError,
            >(e),
        }),
{
    match check_type(dh, "Int64") {
        Err(e) => return Err(e),
        Ok(()) => {},
    }
    let bin = String::from_str("binary");
    if !(dh.format == bin) {
        return Err(CodecError::UnsupportedFormat);
    }
    base64::decode_i64(string, v.endianness)
}

/// What parsing a byte data section yields: the declared type must be
/// `UInt8`, only the binary text encoding is handled, and the text then
/// goes through the framed byte decoder.
pub open spec fn spec_parse_data_u8(
    dtype: Seq<char>,
    format: Seq<char>,
    text: Seq<char>,
    e: u8,
) -> Result<Seq<u8>, CodecError> {
    if dtype != "UInt8"@ {
        Err(CodecError::TypeMismatch)
    } else if format != "binary"@ {
        Err(CodecError::UnsupportedFormat)
    } else {
        base64::spec_decode_u8(text, e)
    }
}

/// Parses a byte data section, routing its text through the framed
/// byte decoder.
pub fn parse_data_u8(dh: &DataHeader, string: &str, v: &VtkFile) -> (r: Result<
    Vec<u8>,
    CodecError,
>)
    ensures
        (match r {
            Ok(data) => spec_parse_data_u8(dh.dtype@, dh.format@, string@, v.endianness) == Ok::<
                Seq<u8>,
                CodecError,
            >(data@),
            Err(e) => spec_parse_data_u8(dh.dtype@, dh.format@, string@, v.endianness) == Err::<
                Seq<u8>,
                CodecError,
            >(e),
        }),
{
    match check_type(dh, "UInt8") {
        Err(e) => return Err(e),
        Ok(()) => {},
    }
    let bin = String::from_str("binary");
    if !(dh.format == bin) {
        return Err(CodecError::UnsupportedFormat);
    }
    base64::decode_u8(string, v.endianness)
}

} // verus!
