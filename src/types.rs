//! Classifications, codes and property types of `rres` chunks.
use vstd::prelude::*;

verus! {

/// Glyph metrics of one character in a font-glyphs chunk.
pub struct FontGlyphInfo {
    pub x: i32,
    pub y: i32,
    pub width: i32,
    pub height: i32,
    pub value: i32,
    pub offset_x: i32,
    pub offset_y: i32,
    pub advance_x: i32,
}

/// What a chunk holds, as told by its four-byte type tag.
#[derive(Clone, Copy, Debug, PartialEq, Eq, Structural)]
pub enum ResourceDataType {
    Null,
    Raw,
    Text,
    Image,
    Wave,
    Vertex,
    FontGlyphs,
    Link,
    Directory,
}

/// The classification of a type tag; unrecognized tags read as `Null`.
pub open spec fn data_type_of(tag: Seq<u8>) -> ResourceDataType {
    if tag == seq![78u8, 85u8, 76u8, 76u8] {  // "NULL"
        ResourceDataType::Null
    } else if tag == seq![82u8, 65u8, 87u8, 68u8] {  // "RAWD"
        ResourceDataType::Raw
    } else if tag == seq![84u8, 69u8, 88u8, 84u8] {  // "TEXT"
        ResourceDataType::Text
    } else if tag == seq![73u8, 77u8, 71u8, 69u8] {  // "IMGE"
        ResourceDataType::Image
    } else if tag == seq![87u8, 65u8, 86u8, 69u8] {  // "WAVE"
        ResourceDataType::Wave
    } else if tag == seq![86u8, 82u8, 84u8, 88u8] {  // "VRTX"
        ResourceDataType::Vertex
    } else if tag == seq![70u8, 78u8, 84u8, 71u8] {  // "FNTG"
        ResourceDataType::FontGlyphs
    } else if tag == seq![76u8, 73u8, 78u8, 75u8] {  // "LINK"
        ResourceDataType::Link
    } else if tag == seq![67u8, 68u8, 73u8, 82u8] {  // "CDIR"
        ResourceDataType::Directory
    } else {
        ResourceDataType::Null
    }
}

fn tag_is(tag: &[u8; 4], a: u8, b: u8, c: u8, d: u8) -> (r: bool)
    ensures
        r == (tag@ == seq![a, b, c, d]),
{
    let r = tag[0] == a && tag[1] == b && tag[2] == c && tag[3] == d;
    if r {
        assert(tag@ =~= seq![a, b, c, d]);
    }
    r
}

impl ResourceDataType {
    /// Classifies a four-byte type tag.
    pub fn from_tag(tag: &[u8; 4]) -> (r: ResourceDataType)
        ensures
            r == data_type_of(tag@),
    {
        if tag_is(tag, 78u8, 85u8, 76u8, 76u8) {  // "NULL"
            ResourceDataType::Null
        } else if tag_is(tag, 82u8, 65u8, 87u8, 68u8) {  // "RAWD"
            ResourceDataType::Raw
        } else if tag_is(tag, 84u8, 69u8, 88u8, 84u8) {  // "TEXT"
            ResourceDataType::Text
        } else if tag_is(tag, 73u8, 77u8, 71u8, 69u8) {  // "IMGE"
            ResourceDataType::Image
        } else if tag_is(tag, 87u8, 65u8, 86u8, 69u8) {  // "WAVE"
            ResourceDataType::Wave
        } else if tag_is(tag, 86u8, 82u8, 84u8, 88u8) {  // "VRTX"
            ResourceDataType::Vertex
        } else if tag_is(tag, 70u8, 78u8, 84u8, 71u8) {  // "FNTG"
            ResourceDataType::FontGlyphs
        } else if tag_is(tag, 76u8, 73u8, 78u8, 75u8) {  // "LINK"
            ResourceDataType::Link
        } else if tag_is(tag, 67u8, 68u8, 73u8, 82u8) {  // "CDIR"
            ResourceDataType::Directory
        } else {
            ResourceDataType::Null
        }
    }
}

impl ResourceDataType {
    /// The numeric code of this classification.
    pub open spec fn spec_code(self) -> u32 {
        match self {
            ResourceDataType::Null => 0,
            ResourceDataType::Raw => 1,
            ResourceDataType::Text => 2,
            ResourceDataType::Image => 3,
            ResourceDataType::Wave => 4,
            ResourceDataType::Vertex => 5,
            ResourceDataType::FontGlyphs => 6,
            ResourceDataType::Link => 99,
            ResourceDataType::Directory => 100,
        }
    }

    /// The numeric code of this classification.
    pub fn code(&self) -> (r: u32)
        ensures
            r == self.spec_code(),
    {
        match self {
            ResourceDataType::Null => 0,
            ResourceDataType::Raw => 1,
            ResourceDataType::Text => 2,
            ResourceDataType::Image => 3,
            ResourceDataType::Wave => 4,
            ResourceDataType::Vertex => 5,
            ResourceDataType::FontGlyphs => 6,
            ResourceDataType::Link => 99,
            ResourceDataType::Directory => 100,
        }
    }
}

impl From<&[u8; 4]> for ResourceDataType {
    fn from(value: &[u8; 4]) -> (r: ResourceDataType) {
        ResourceDataType::from_tag(value)
    }
}

impl vstd::std_specs::convert::FromSpecImpl<&[u8; 4]> for ResourceDataType {
    open spec fn obeys_from_spec() -> bool {
        true
    }

    open spec fn from_spec(v: &[u8; 4]) -> ResourceDataType {
        data_type_of(v@)
    }
}

/// Compression algorithm named by a chunk's compression code.
#[derive(Clone, Copy, Debug, PartialEq, Eq, Structural)]
pub enum CompressionType {
    NoCompression,
    RLE,
    Deflate,
    LZ4,
    LZMA2,
    QOI,
}

impl CompressionType {
    /// The on-disk code of this compression algorithm.
    pub open spec fn spec_code(self) -> u8 {
        match self {
            CompressionType::NoCompression => 0,
            CompressionType::RLE => 1,
            CompressionType::Deflate => 10,
            CompressionType::LZ4 => 20,
            CompressionType::LZMA2 => 30,
            CompressionType::QOI => 40,
        }
    }

    /// The on-disk code of this compression algorithm.
    pub fn code(&self) -> (r: u8)
        ensures
            r == self.spec_code(),
    {
        match self {
            CompressionType::NoCompression => 0,
            CompressionType::RLE => 1,
            CompressionType::Deflate => 10,
            CompressionType::LZ4 => 20,
            CompressionType::LZMA2 => 30,
            CompressionType::QOI => 40,
        }
    }
}

/// Cipher named by a chunk's cipher code.
#[derive(Clone, Copy, Debug, PartialEq, Eq, Structural)]
pub enum EncryptionType {
    NoEncryption,
    Xor,
    Des,
    Tdes,
    Idea,
    Aes,
    AesGcm,
    Xtea,
    Blowfish,
    Rsa,
    Salsa20,
    Chacha20,
    Xchacha20,
    Xchacha20Poly1305,
}

impl EncryptionType {
    /// The on-disk code of this cipher.
    pub open spec fn spec_code(self) -> u8 {
        match self {
            EncryptionType::NoEncryption => 0,
            EncryptionType::Xor => 1,
            EncryptionType::Des => 10,
            EncryptionType::Tdes => 11,
            EncryptionType::Idea => 20,
            EncryptionType::Aes => 30,
            EncryptionType::AesGcm => 31,
            EncryptionType::Xtea => 40,
            EncryptionType::Blowfish => 50,
            EncryptionType::Rsa => 60,
            EncryptionType::Salsa20 => 70,
            EncryptionType::Chacha20 => 71,
            EncryptionType::Xchacha20 => 72,
            EncryptionType::Xchacha20Poly1305 => 73,
        }
    }

    /// The on-disk code of this cipher.
    pub fn code(&self) -> (r: u8)
        ensures
            r == self.spec_code(),
    {
        match self {
            EncryptionType::NoEncryption => 0,
            EncryptionType::Xor => 1,
            EncryptionType::Des => 10,
            EncryptionType::Tdes => 11,
            EncryptionType::Idea => 20,
            EncryptionType::Aes => 30,
            EncryptionType::AesGcm => 31,
            EncryptionType::Xtea => 40,
            EncryptionType::Blowfish => 50,
            EncryptionType::Rsa => 60,
            EncryptionType::Salsa20 => 70,
            EncryptionType::Chacha20 => 71,
            EncryptionType::Xchacha20 => 72,
            EncryptionType::Xchacha20Poly1305 => 73,
        }
    }
}

/// Text encoding property of a text chunk.
pub enum TextEncoding {
    Undefined,
    UTF8,
    UTF8BOM,
    UTF16LE,
    UTF16BE,
}

impl TextEncoding {
    /// The numeric code of this encoding.
    pub open spec fn spec_code(self) -> u32 {
        match self {
            TextEncoding::Undefined => 0,
            TextEncoding::UTF8 => 1,
            TextEncoding::UTF8BOM => 2,
            TextEncoding::UTF16LE => 10,
            TextEncoding::UTF16BE => 11,
        }
    }

    /// The numeric code of this encoding.
    pub fn code(&self) -> (r: u32)
        ensures
            r == self.spec_code(),
    {
        match self {
            TextEncoding::Undefined => 0,
            TextEncoding::UTF8 => 1,
            TextEncoding::UTF8BOM => 2,
            TextEncoding::UTF16LE => 10,
            TextEncoding::UTF16BE => 11,
        }
    }
}

/// Programming language property of a text chunk holding code.
pub enum CodeLang {
    Undefined,
    C,
    CPP,
    CS,
    Lua,
    JS,
    Python,
    Rust,
    Zig,
    Odin,
    Jai,
    GDScript,
    GLSL,
}

/// Pixel layout property of an image chunk.
pub enum PixelFormat {
    Undefined,
    UncompGrayscale,
    UncompGrayAlpha,
    UncompR5G6B5,
    UncompR8G8B8,
    UncompR5G5B5A1,
    UncompR4G4B4A4,
    UncompR8G8B8A8,
    UncompR32,
    UncompR32G32B32,
    UncompR32G32B32A32,
    CompDxt1Rgb,
    CompDxt1Rgba,
    CompDxt3Rgba,
    CompDxt5Rgba,
    CompEtc1Rgb,
    CompEtc2Rgb,
    CompETC2EacRgba,
    CompPvrtRgb,
    CompPvrtRgba,
    CompAstc4x4Rgba,
    CompAstc8x8Rgba,
}

/// Attribute carried by a vertex chunk.
pub enum VertexAttribute {
    Position,
    TexCoord1,
    TexCoord2,
    TexCoord3,
    TexCoord4,
    Normal,
    Tangent,
    Color,
    Index,
}

impl VertexAttribute {
    /// The numeric code of this attribute.
    pub open spec fn spec_code(self) -> u32 {
        match self {
            VertexAttribute::Position => 0,
            VertexAttribute::TexCoord1 => 10,
            VertexAttribute::TexCoord2 => 11,
            VertexAttribute::TexCoord3 => 12,
            VertexAttribute::TexCoord4 => 13,
            VertexAttribute::Normal => 20,
            VertexAttribute::Tangent => 30,
            VertexAttribute::Color => 40,
            VertexAttribute::Index => 100,
        }
    }

    /// The numeric code of this attribute.
    pub fn code(&self) -> (r: u32)
        ensures
            r == self.spec_code(),
    {
        match self {
            VertexAttribute::Position => 0,
            VertexAttribute::TexCoord1 => 10,
            VertexAttribute::TexCoord2 => 11,
            VertexAttribute::TexCoord3 => 12,
            VertexAttribute::TexCoord4 => 13,
            VertexAttribute::Normal => 20,
            VertexAttribute::Tangent => 30,
            VertexAttribute::Color => 40,
            VertexAttribute::Index => 100,
        }
    }
}

/// Component format of a vertex chunk.
pub enum VertexFormat {
    UByte,
    Byte,
    UShort,
    Short,
    UInt,
    Int,
    HFloat,
    Float,
}

/// Style property of a font-glyphs chunk.
pub enum FontStyle {
    Undefined,
    Regular,
    Bold,
    Italic,
}

} // verus!
