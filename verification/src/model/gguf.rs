use std::sync::Arc;

use vstd::prelude::*;
use vstd::utf8::{decode_utf8, encode_utf8, valid_utf8};

use crate::tensor::dtype::DType;
use crate::tensor::shape::{checked_product, dims_product, lemma_product_nonneg, prefix_products_fit};
use crate::text::{decimal, hex8, push_decimal, push_hex8, push_str, string_from_chars};

verus! {

/// "GGUF" read as a little-endian `u32`.
pub const GGUF_MAGIC: u32 = 0x46554747;

// ============================================================================
// Values
// ============================================================================
/// A metadata value as it appears in a GGUF file. Floating-point values are
/// kept as their IEEE-754 bit patterns.
#[derive(Debug, PartialEq)]
pub enum GgufValue {
    Uint8(u8),
    Int8(i8),
    Uint16(u16),
    Int16(i16),
    Uint32(u32),
    Int32(i32),
    /// Bit pattern of an `f32`.
    Float32(u32),
    Bool(bool),
    String(String),
    Array(Vec<GgufValue>),
    Uint64(u64),
    Int64(i64),
    /// Bit pattern of an `f64`.
    Float64(u64),
}

/// Mathematical model of a metadata value.
pub enum ValueModel {
    Uint8(u8),
    Int8(i8),
    Uint16(u16),
    Int16(i16),
    Uint32(u32),
    Int32(i32),
    Float32(u32),
    Bool(bool),
    Str(Seq<char>),
    Array(Seq<ValueModel>),
    Uint64(u64),
    Int64(i64),
    Float64(u64),
}

impl GgufValue {
    pub open spec fn model(&self) -> ValueModel
        decreases self,
    {
        match self {
            GgufValue::Uint8(v) => ValueModel::Uint8(*v),
            GgufValue::Int8(v) => ValueModel::Int8(*v),
            GgufValue::Uint16(v) => ValueModel::Uint16(*v),
            GgufValue::Int16(v) => ValueModel::Int16(*v),
            GgufValue::Uint32(v) => ValueModel::Uint32(*v),
            GgufValue::Int32(v) => ValueModel::Int32(*v),
            GgufValue::Float32(v) => ValueModel::Float32(*v),
            GgufValue::Bool(v) => ValueModel::Bool(*v),
            GgufValue::String(s) => ValueModel::Str(s@),
            GgufValue::Array(v) => ValueModel::Array(models_of(v@)),
            GgufValue::Uint64(v) => ValueModel::Uint64(*v),
            GgufValue::Int64(v) => ValueModel::Int64(*v),
            GgufValue::Float64(v) => ValueModel::Float64(*v),
        }
    }
}

/// Models of a sequence of values, element by element.
pub open spec fn models_of(s: Seq<GgufValue>) -> Seq<ValueModel>
    decreases s,
{
    if s.len() == 0 {
        Seq::empty()
    } else {
        seq![s[0].model()] + models_of(s.subrange(1, s.len() as int))
    }
}

pub(crate) proof fn lemma_models_of(s: Seq<GgufValue>)
    ensures
        models_of(s).len() == s.len(),
        forall|i: int| 0 <= i < s.len() ==> #[trigger] models_of(s)[i] == s[i].model(),
    decreases s.len(),
{
    if s.len() > 0 {
        lemma_models_of(s.subrange(1, s.len() as int));
    }
}

proof fn lemma_models_of_push(s: Seq<GgufValue>, v: GgufValue)
    ensures
        models_of(s.push(v)) == models_of(s).push(v.model()),
{
    lemma_models_of(s);
    lemma_models_of(s.push(v));
    assert(models_of(s.push(v)) =~= models_of(s).push(v.model()));
}

// ============================================================================
// Errors
// ============================================================================
#[verifier::external_type_specification]
#[verifier::external_body]
pub struct ExIoError(std::io::Error);

/// Errors reported while reading a GGUF file.
#[derive(Debug)]
pub enum GgufError {
    Io(std::io::Error),
    InvalidMagic(u32),
    UnsupportedVersion(u32),
    UnexpectedEof,
    InvalidUtf8(String),
    UnknownValueType(u32),
    UnknownGgmlType(u32),
    TensorNotFound(String),
    AlignmentError,
}

impl From<std::io::Error> for GgufError {
    fn from(e: std::io::Error) -> (r: Self) {
        GgufError::Io(e)
    }
}

impl vstd::std_specs::convert::FromSpecImpl<std::io::Error> for GgufError {
    open spec fn obeys_from_spec() -> bool {
        true
    }

    open spec fn from_spec(e: std::io::Error) -> Self {
        GgufError::Io(e)
    }
}

/// Why the parse of a byte sequence stops. `Overflow` marks inputs whose
/// sizes do not fit the machine's `usize` arithmetic.
pub enum ParseFailure {
    Eof,
    Utf8(Seq<u8>),
    UnknownValueType(u32),
    InvalidMagic(u32),
    UnsupportedVersion(u32),
    UnknownGgmlType(u32),
    Overflow,
}

/// Text of std's UTF-8 decoding error for the given invalid bytes.
pub uninterp spec fn utf8_error_text(bytes: Seq<u8>) -> Seq<char>;

/// `e` is the error that reports failure `f`.
pub open spec fn reports(e: GgufError, f: ParseFailure) -> bool {
    match f {
        ParseFailure::Eof => e is UnexpectedEof,
        ParseFailure::Utf8(b) => e matches GgufError::InvalidUtf8(m) && m@ == utf8_error_text(b),
        ParseFailure::UnknownValueType(t) => e == GgufError::UnknownValueType(t),
        ParseFailure::InvalidMagic(m) => e == GgufError::InvalidMagic(m),
        ParseFailure::UnsupportedVersion(v) => e == GgufError::UnsupportedVersion(v),
        ParseFailure::UnknownGgmlType(t) => e == GgufError::UnknownGgmlType(t),
        ParseFailure::Overflow => false,
    }
}

/// Failure of the internal readers: a format error, or arithmetic that
/// does not fit in a `usize`.
pub enum ReadError {
    Format(GgufError),
    Overflow,
}

pub open spec fn read_error_matches(e: ReadError, f: ParseFailure) -> bool {
    match e {
        ReadError::Format(g) => reports(g, f),
        ReadError::Overflow => f is Overflow,
    }
}

/// An exec read result `r` (with the cursor left at `end`) agrees with the
/// spec result `s`, values compared through `m`.
pub open spec fn agrees<T, M>(
    r: Result<T, ReadError>,
    end: int,
    s: Result<(M, int), ParseFailure>,
    m: spec_fn(T) -> M,
) -> bool {
    match s {
        Ok((v, q)) => r matches Ok(x) && m(x) == v && end == q,
        Err(f) => r matches Err(e) && read_error_matches(e, f),
    }
}

// ============================================================================
// Spec of the binary layout
// ============================================================================
pub open spec fn le2(b: Seq<u8>, p: int) -> int {
    b[p] + b[p + 1] * 256
}

pub open spec fn le4(b: Seq<u8>, p: int) -> int {
    le2(b, p) + le2(b, p + 2) * 65536
}

pub open spec fn le8(b: Seq<u8>, p: int) -> int {
    le4(b, p) + le4(b, p + 4) * 4294967296
}

pub open spec fn spec_u8(b: Seq<u8>, p: int) -> Result<(u8, int), ParseFailure> {
    if p + 1 > b.len() {
        Err(ParseFailure::Eof)
    } else {
        Ok((b[p], p + 1))
    }
}

pub open spec fn spec_u16(b: Seq<u8>, p: int) -> Result<(u16, int), ParseFailure> {
    if p + 2 > b.len() {
        Err(ParseFailure::Eof)
    } else {
        Ok((le2(b, p) as u16, p + 2))
    }
}

pub open spec fn spec_u32(b: Seq<u8>, p: int) -> Result<(u32, int), ParseFailure> {
    if p + 4 > b.len() {
        Err(ParseFailure::Eof)
    } else {
        Ok((le4(b, p) as u32, p + 4))
    }
}

pub open spec fn spec_u64(b: Seq<u8>, p: int) -> Result<(u64, int), ParseFailure> {
    if p + 8 > b.len() {
        Err(ParseFailure::Eof)
    } else {
        Ok((le8(b, p) as u64, p + 8))
    }
}

/// A string: a `u64` byte length followed by that many UTF-8 bytes.
pub open spec fn spec_string(b: Seq<u8>, p: int) -> Result<(Seq<char>, int), ParseFailure> {
    match spec_u64(b, p) {
        Err(f) => Err(f),
        Ok((n, q)) => {
            let len = n as usize;
            if q + len > usize::MAX {
                Err(ParseFailure::Overflow)
            } else if q + len > b.len() {
                Err(ParseFailure::Eof)
            } else {
                let sb = b.subrange(q, q + len);
                if valid_utf8(sb) {
                    Ok((decode_utf8(sb), q + len))
                } else {
                    Err(ParseFailure::Utf8(sb))
                }
            }
        },
    }
}

/// A value of the given type tag. Arrays hold an element type tag, a `u64`
/// count, and the elements.
pub open spec fn spec_value(b: Seq<u8>, p: int, t: u32) -> Result<(ValueModel, int), ParseFailure>
    decreases b.len() - p, 0int,
{
    if p < 0 || p > b.len() {
        Err(ParseFailure::Eof)
    } else if t == 0 {
        match spec_u8(b, p) {
            Ok((v, q)) => Ok((ValueModel::Uint8(v), q)),
            Err(f) => Err(f),
        }
    } else if t == 1 {
        match spec_u8(b, p) {
            Ok((v, q)) => Ok((ValueModel::Int8(v as i8), q)),
            Err(f) => Err(f),
        }
    } else if t == 2 {
        match spec_u16(b, p) {
            Ok((v, q)) => Ok((ValueModel::Uint16(v), q)),
            Err(f) => Err(f),
        }
    } else if t == 3 {
        match spec_u16(b, p) {
            Ok((v, q)) => Ok((ValueModel::Int16(v as i16), q)),
            Err(f) => Err(f),
        }
    } else if t == 4 {
        match spec_u32(b, p) {
            Ok((v, q)) => Ok((ValueModel::Uint32(v), q)),
            Err(f) => Err(f),
        }
    } else if t == 5 {
        match spec_u32(b, p) {
            Ok((v, q)) => Ok((ValueModel::Int32(v as i32), q)),
            Err(f) => Err(f),
        }
    } else if t == 6 {
        match spec_u32(b, p) {
            Ok((v, q)) => Ok((ValueModel::Float32(v), q)),
            Err(f) => Err(f),
        }
    } else if t == 7 {
        match spec_u8(b, p) {
            Ok((v, q)) => Ok((ValueModel::Bool(v != 0), q)),
            Err(f) => Err(f),
        }
    } else if t == 8 {
        match spec_string(b, p) {
            Ok((s, q)) => Ok((ValueModel::Str(s), q)),
            Err(f) => Err(f),
        }
    } else if t == 9 {
        match spec_u32(b, p) {
            Err(f) => Err(f),
            Ok((et, q)) => match spec_u64(b, q) {
                Err(f) => Err(f),
                Ok((n, q2)) => match spec_array(b, q2, et, (n as usize) as nat, Seq::empty()) {
                    Ok((vs, q3)) => Ok((ValueModel::Array(vs), q3)),
                    Err(f) => Err(f),
                },
            },
        }
    } else if t == 10 {
        match spec_u64(b, p) {
            Ok((v, q)) => Ok((ValueModel::Uint64(v), q)),
            Err(f) => Err(f),
        }
    } else if t == 11 {
        match spec_u64(b, p) {
            Ok((v, q)) => Ok((ValueModel::Int64(v as i64), q)),
            Err(f) => Err(f),
        }
    } else if t == 12 {
        match spec_u64(b, p) {
            Ok((v, q)) => Ok((ValueModel::Float64(v), q)),
            Err(f) => Err(f),
        }
    } else {
        Err(ParseFailure::UnknownValueType(t))
    }
}

/// `count` more elements of type `t`, appended to those already read (`acc`).
pub open spec fn spec_array(b: Seq<u8>, p: int, t: u32, count: nat, acc: Seq<ValueModel>) -> Result<
    (Seq<ValueModel>, int),
    ParseFailure,
>
    decreases b.len() - p, 1int, count,
{
    if p < 0 || p > b.len() {
        Err(ParseFailure::Eof)
    } else if count == 0 {
        Ok((acc, p))
    } else {
        match spec_value(b, p, t) {
            Err(f) => Err(f),
            Ok((v, q)) => if p < q <= b.len() {
                spec_array(b, q, t, (count - 1) as nat, acc.push(v))
            } else {
                Err(ParseFailure::Eof)
            },
        }
    }
}

/// A value preceded by its `u32` type tag.
pub open spec fn spec_tagged_value(b: Seq<u8>, p: int) -> Result<(ValueModel, int), ParseFailure> {
    match spec_u32(b, p) {
        Err(f) => Err(f),
        Ok((t, q)) => spec_value(b, q, t),
    }
}

proof fn lemma_value_advances(b: Seq<u8>, p: int, t: u32)
    ensures
        spec_value(b, p, t) matches Ok((_, q)) ==> p < q <= b.len(),
    decreases b.len() - p, 0int,
{
    if 0 <= p <= b.len() && t == 9 {
        if let Ok((et, q)) = spec_u32(b, p) {
            if let Ok((n, q2)) = spec_u64(b, q) {
                lemma_array_advances(b, q2, et, (n as usize) as nat, Seq::empty());
            }
        }
    }
}

proof fn lemma_array_advances(b: Seq<u8>, p: int, t: u32, count: nat, acc: Seq<ValueModel>)
    ensures
        spec_array(b, p, t, count, acc) matches Ok((_, q)) ==> 0 <= p <= q <= b.len(),
    decreases b.len() - p, 1int, count,
{
    if 0 <= p <= b.len() && count > 0 {
        lemma_value_advances(b, p, t);
        if let Ok((v, q)) = spec_value(b, p, t) {
            if p < q <= b.len() {
                lemma_array_advances(b, q, t, (count - 1) as nat, acc.push(v));
            }
        }
    }
}

// ============================================================================
// Readers
// ============================================================================
fn read_u8(bytes: &[u8], cursor: &mut usize) -> (r: Result<u8, ReadError>)
    requires
        *old(cursor) <= bytes@.len(),
    ensures
        agrees(r, *final(cursor) as int, spec_u8(bytes@, *old(cursor) as int), |v: u8| v),
        *final(cursor) <= bytes@.len(),
        r is Err ==> *final(cursor) == *old(cursor),
{
    if *cursor >= bytes.len() {
        return Err(ReadError::Format(GgufError::UnexpectedEof));
    }
    let val = bytes[*cursor];
    *cursor = *cursor + 1;
    Ok(val)
}

fn read_u16(bytes: &[u8], cursor: &mut usize) -> (r: Result<u16, ReadError>)
    requires
        *old(cursor) <= bytes@.len(),
    ensures
        agrees(r, *final(cursor) as int, spec_u16(bytes@, *old(cursor) as int), |v: u16| v),
        *final(cursor) <= bytes@.len(),
        r is Err ==> *final(cursor) == *old(cursor),
{
    let c = *cursor;
    if bytes.len() - c < 2 {
        return Err(ReadError::Format(GgufError::UnexpectedEof));
    }
    let val: u16 = bytes[c] as u16 + bytes[c + 1] as u16 * 256;
    *cursor = c + 2;
    Ok(val)
}

fn read_u32(bytes: &[u8], cursor: &mut usize) -> (r: Result<u32, ReadError>)
    requires
        *old(cursor) <= bytes@.len(),
    ensures
        agrees(r, *final(cursor) as int, spec_u32(bytes@, *old(cursor) as int), |v: u32| v),
        *final(cursor) <= bytes@.len(),
        r is Err ==> *final(cursor) == *old(cursor),
{
    let c = *cursor;
    if bytes.len() - c < 4 {
        return Err(ReadError::Format(GgufError::UnexpectedEof));
    }
    let lo: u32 = bytes[c] as u32 + bytes[c + 1] as u32 * 256;
    let hi: u32 = bytes[c + 2] as u32 + bytes[c + 3] as u32 * 256;
    let val: u32 = lo + hi * 65536;
    *cursor = c + 4;
    Ok(val)
}

fn read_u64(bytes: &[u8], cursor: &mut usize) -> (r: Result<u64, ReadError>)
    requires
        *old(cursor) <= bytes@.len(),
    ensures
        agrees(r, *final(cursor) as int, spec_u64(bytes@, *old(cursor) as int), |v: u64| v),
        *final(cursor) <= bytes@.len(),
        r is Err ==> *final(cursor) == *old(cursor),
{
    let c = *cursor;
    if bytes.len() - c < 8 {
        return Err(ReadError::Format(GgufError::UnexpectedEof));
    }
    let a: u64 = bytes[c] as u64 + bytes[c + 1] as u64 * 256;
    let b: u64 = bytes[c + 2] as u64 + bytes[c + 3] as u64 * 256;
    let d: u64 = bytes[c + 4] as u64 + bytes[c + 5] as u64 * 256;
    let e: u64 = bytes[c + 6] as u64 + bytes[c + 7] as u64 * 256;
    let lo: u64 = a + b * 65536;
    let hi: u64 = d + e * 65536;
    let val: u64 = lo + hi * 4294967296;
    *cursor = c + 8;
    Ok(val)
}

/// Decodes UTF-8 bytes into a `String` (std's `String::from_utf8`): `Ok`
/// exactly when the bytes are valid UTF-8, with the decoded characters;
/// otherwise the text of std's error.
#[verifier::external_body]
fn string_from_utf8(bytes: &[u8]) -> (r: Result<String, String>)
    ensures
        r is Ok <==> valid_utf8(bytes@),
        r matches Ok(s) ==> s@ == decode_utf8(bytes@),
        r matches Err(m) ==> m@ == utf8_error_text(bytes@),
{
    String::from_utf8(bytes.to_vec()).map_err(|e| e.to_string())
}

/// Where reading a string at `p` leaves the cursor: unmoved when the
/// length is cut short; after the length when the text is cut short or
/// too long to address; after the text otherwise, whether it is valid
/// UTF-8 or not.
pub open spec fn string_cursor(b: Seq<u8>, p: int) -> int {
    match spec_u64(b, p) {
        Err(_) => p,
        Ok((n, q)) => if q + (n as usize) > usize::MAX || q + (n as usize) > b.len() {
            q
        } else {
            q + (n as usize)
        },
    }
}

fn read_string(bytes: &[u8], cursor: &mut usize) -> (r: Result<String, ReadError>)
    requires
        *old(cursor) <= bytes@.len(),
    ensures
        agrees(r, *final(cursor) as int, spec_string(bytes@, *old(cursor) as int), |s: String| s@),
        *final(cursor) <= bytes@.len(),
        *final(cursor) == string_cursor(bytes@, *old(cursor) as int),
{
    let n = read_u64(bytes, cursor)?;
    let len = n as usize;
    let c = *cursor;
    if c > usize::MAX - len {
        return Err(ReadError::Overflow);
    }
    if c + len > bytes.len() {
        return Err(ReadError::Format(GgufError::UnexpectedEof));
    }
    let str_bytes = vstd::slice::slice_subrange(bytes, c, c + len);
    *cursor = c + len;
    match string_from_utf8(str_bytes) {
        Ok(s) => Ok(s),
        Err(m) => Err(ReadError::Format(GgufError::InvalidUtf8(m))),
    }
}

fn read_value_by_type(bytes: &[u8], cursor: &mut usize, type_id: u32) -> (r: Result<
    GgufValue,
    ReadError,
>)
    requires
        *old(cursor) <= bytes@.len(),
    ensures
        agrees(
            r,
            *final(cursor) as int,
            spec_value(bytes@, *old(cursor) as int, type_id),
            |v: GgufValue| v.model(),
        ),
        *final(cursor) <= bytes@.len(),
    decreases bytes@.len() - *old(cursor),
{
    let ghost c0 = *cursor as int;
    let ghost b = bytes@;
    if type_id == 0 {
        let v = read_u8(bytes, cursor)?;
        Ok(GgufValue::Uint8(v))
    } else if type_id == 1 {
        let v = read_u8(bytes, cursor)?;
        Ok(GgufValue::Int8(v as i8))
    } else if type_id == 2 {
        let v = read_u16(bytes, cursor)?;
        Ok(GgufValue::Uint16(v))
    } else if type_id == 3 {
        let v = read_u16(bytes, cursor)?;
        Ok(GgufValue::Int16(v as i16))
    } else if type_id == 4 {
        let v = read_u32(bytes, cursor)?;
        Ok(GgufValue::Uint32(v))
    } else if type_id == 5 {
        let v = read_u32(bytes, cursor)?;
        Ok(GgufValue::Int32(v as i32))
    } else if type_id == 6 {
        let v = read_u32(bytes, cursor)?;
        Ok(GgufValue::Float32(v))
    } else if type_id == 7 {
        let v = read_u8(bytes, cursor)?;
        Ok(GgufValue::Bool(v != 0))
    } else if type_id == 8 {
        let s = read_string(bytes, cursor)?;
        Ok(GgufValue::String(s))
    } else if type_id == 9 {
        let elem_type = read_u32(bytes, cursor)?;
        let n = read_u64(bytes, cursor)?;
        let count = n as usize;
        let ghost q2 = *cursor as int;
        let ghost target = spec_array(b, q2, elem_type, count as nat, Seq::empty());
        let mut arr: Vec<GgufValue> = Vec::new();
        let mut i: usize = 0;
        proof {
            assert(models_of(arr@) =~= Seq::<ValueModel>::empty());
        }
        while i < count
            invariant
                b == bytes@,
                        c0 == *old(cursor),
                type_id == 9,
                c0 + 12 <= *cursor <= bytes@.len(),
                i <= count,
                spec_array(b, *cursor as int, elem_type, (count - i) as nat, models_of(arr@))
                    == target,
                spec_value(b, c0, 9) == match target {
                    Ok((vs, q)) => Ok((ValueModel::Array(vs), q)),
                    Err(f) => Err(f),
                },
            decreases count - i,
        {
            let ghost p = *cursor as int;
            proof {
                lemma_value_advances(b, p, elem_type);
                if let Err(f) = spec_value(b, p, elem_type) {
                    assert(spec_array(b, p, elem_type, (count - i) as nat, models_of(arr@)) == Err::<
                        (Seq<ValueModel>, int),
                        ParseFailure,
                    >(f));
                }
            }
            let v = read_value_by_type(bytes, cursor, elem_type)?;
            proof {
                lemma_models_of_push(arr@, v);
            }
            arr.push(v);
            i = i + 1;
        }
        proof {
            assert(models_of(arr@) == GgufValue::Array(arr).model()->Array_0);
        }
        Ok(GgufValue::Array(arr))
    } else if type_id == 10 {
        let v = read_u64(bytes, cursor)?;
        Ok(GgufValue::Uint64(v))
    } else if type_id == 11 {
        let v = read_u64(bytes, cursor)?;
        Ok(GgufValue::Int64(v as i64))
    } else if type_id == 12 {
        let v = read_u64(bytes, cursor)?;
        Ok(GgufValue::Float64(v))
    } else {
        Err(ReadError::Format(GgufError::UnknownValueType(type_id)))
    }
}

fn read_value(bytes: &[u8], cursor: &mut usize) -> (r: Result<GgufValue, ReadError>)
    requires
        *old(cursor) <= bytes@.len(),
    ensures
        agrees(
            r,
            *final(cursor) as int,
            spec_tagged_value(bytes@, *old(cursor) as int),
            |v: GgufValue| v.model(),
        ),
        *final(cursor) <= bytes@.len(),
{
    let type_id = read_u32(bytes, cursor)?;
    read_value_by_type(bytes, cursor, type_id)
}

// ============================================================================
// Tensor descriptors and keyed tables
// ============================================================================
/// Descriptor of one tensor stored in a GGUF file. The shape is row-major
/// (GGUF stores it innermost-first; it is reversed on reading).
#[derive(Debug, Clone)]
pub struct GgufTensorInfo {
    pub name: String,
    pub shape: Vec<usize>,
    pub dtype: DType,
    pub offset: usize,
    pub size_in_bytes: usize,
}

pub struct TensorInfoModel {
    pub name: Seq<char>,
    pub shape: Seq<usize>,
    pub dtype: DType,
    pub offset: usize,
    pub size_in_bytes: usize,
}

impl GgufTensorInfo {
    pub open spec fn model(&self) -> TensorInfoModel {
        TensorInfoModel {
            name: self.name@,
            shape: self.shape@,
            dtype: self.dtype,
            offset: self.offset,
            size_in_bytes: self.size_in_bytes,
        }
    }
}

/// Metadata entries in file order; a later entry with the same key
/// replaces an earlier one.
pub struct GgufMetadata {
    entries: Vec<(String, GgufValue)>,
}

pub type MetadataModel = Seq<(Seq<char>, ValueModel)>;

/// The value of the last entry with key `key`.
pub open spec fn lookup_value(s: MetadataModel, key: Seq<char>) -> Option<ValueModel>
    decreases s.len(),
{
    if s.len() == 0 {
        None
    } else if s.last().0 == key {
        Some(s.last().1)
    } else {
        lookup_value(s.drop_last(), key)
    }
}

impl GgufMetadata {
    pub closed spec fn model(&self) -> MetadataModel {
        Seq::new(self.entries@.len(), |i: int| (self.entries@[i].0@, self.entries@[i].1.model()))
    }

    /// An empty table.
    pub fn new() -> (r: Self)
        ensures
            r.model() == Seq::<(Seq<char>, ValueModel)>::empty(),
    {
        let r = GgufMetadata { entries: Vec::new() };
        proof {
            assert(r.model() =~= Seq::<(Seq<char>, ValueModel)>::empty());
        }
        r
    }

    /// Adds an entry (replacing any earlier entry with the same key).
    pub fn insert(&mut self, key: String, value: GgufValue)
        ensures
            final(self).model() == old(self).model().push((key@, value.model())),
    {
        self.entries.push((key, value));
        proof {
            assert(final(self).model() =~= old(self).model().push((key@, value.model())));
        }
    }

    /// The value stored under `key`, if any.
    pub fn get(&self, key: &str) -> (r: Option<&GgufValue>)
        ensures
            match lookup_value(self.model(), key@) {
                Some(m) => r matches Some(v) && v.model() == m,
                None => r is None,
            },
    {
        let k = key.to_string();
        let mut i = self.entries.len();
        proof {
            assert(self.model().take(i as int) =~= self.model());
        }
        while i > 0
            invariant
                i <= self.entries@.len(),
                k@ == key@,
                lookup_value(self.model(), key@) == lookup_value(self.model().take(i as int), key@),
            decreases i,
        {
            i = i - 1;
            proof {
                assert(self.model().take(i + 1).drop_last() =~= self.model().take(i as int));
            }
            if self.entries[i].0 == k {
                return Some(&self.entries[i].1);
            }
        }
        None
    }

    /// Whether some entry has key `key`.
    pub fn contains_key(&self, key: &str) -> (r: bool)
        ensures
            r == lookup_value(self.model(), key@) is Some,
    {
        self.get(key).is_some()
    }

    /// Number of entries, counting replaced ones.
    pub fn num_entries(&self) -> (r: usize)
        ensures
            r == self.model().len(),
    {
        self.entries.len()
    }
}

/// Tensor descriptors in file order; a later descriptor with the same name
/// replaces an earlier one.
pub struct GgufTensorTable {
    infos: Vec<GgufTensorInfo>,
}

/// The last descriptor named `name`.
pub open spec fn lookup_tensor(s: Seq<TensorInfoModel>, name: Seq<char>) -> Option<TensorInfoModel>
    decreases s.len(),
{
    if s.len() == 0 {
        None
    } else if s.last().name == name {
        Some(s.last())
    } else {
        lookup_tensor(s.drop_last(), name)
    }
}

impl GgufTensorTable {
    pub closed spec fn model(&self) -> Seq<TensorInfoModel> {
        Seq::new(self.infos@.len(), |i: int| self.infos@[i].model())
    }

    pub fn new() -> (r: Self)
        ensures
            r.model() == Seq::<TensorInfoModel>::empty(),
    {
        let r = GgufTensorTable { infos: Vec::new() };
        proof {
            assert(r.model() =~= Seq::<TensorInfoModel>::empty());
        }
        r
    }

    /// Adds a descriptor (replacing any earlier one with the same name).
    pub fn insert(&mut self, info: GgufTensorInfo)
        ensures
            final(self).model() == old(self).model().push(info.model()),
    {
        self.infos.push(info);
        proof {
            assert(final(self).model() =~= old(self).model().push(info.model()));
        }
    }

    /// The descriptor of the tensor named `name`, if any.
    pub fn get(&self, name: &str) -> (r: Option<&GgufTensorInfo>)
        ensures
            match lookup_tensor(self.model(), name@) {
                Some(m) => r matches Some(v) && v.model() == m,
                None => r is None,
            },
    {
        let k = name.to_string();
        let mut i = self.infos.len();
        proof {
            assert(self.model().take(i as int) =~= self.model());
        }
        while i > 0
            invariant
                i <= self.infos@.len(),
                k@ == name@,
                lookup_tensor(self.model(), name@) == lookup_tensor(self.model().take(i as int), name@),
            decreases i,
        {
            i = i - 1;
            proof {
                assert(self.model().take(i + 1).drop_last() =~= self.model().take(i as int));
            }
            if self.infos[i].name == k {
                return Some(&self.infos[i]);
            }
        }
        None
    }

    /// Whether a tensor named `name` is described.
    pub fn contains_key(&self, name: &str) -> (r: bool)
        ensures
            r == lookup_tensor(self.model(), name@) is Some,
    {
        self.get(name).is_some()
    }

    /// Whether no tensor is described.
    pub fn is_empty(&self) -> (r: bool)
        ensures
            r == (self.model().len() == 0),
    {
        self.infos.len() == 0
    }
}

// ============================================================================
// Spec of the file layout
// ============================================================================
/// The element type for a GGML type tag.
pub open spec fn ggml_dtype(t: u32) -> Option<DType> {
    if t == 0 {
        Some(DType::F32)
    } else if t == 1 {
        Some(DType::F16)
    } else if t == 2 {
        Some(DType::Q4_0)
    } else if t == 8 {
        Some(DType::Q8_0)
    } else {
        None
    }
}

/// Bytes occupied by `numel` elements: 4 or 2 per element for F32/F16, 34
/// bytes per block of 32 for Q8_0 and 18 per block of 32 for Q4_0.
pub open spec fn tensor_byte_size(dtype: DType, numel: int) -> int {
    match dtype {
        DType::F32 => numel * 4,
        DType::F16 => numel * 2,
        DType::Q8_0 => (numel / 32) * 34,
        DType::Q4_0 => (numel / 32) * 18,
        _ => numel,
    }
}

/// `rank` more `u64` dimensions, appended to `acc`.
pub open spec fn spec_dims(b: Seq<u8>, p: int, rank: nat, acc: Seq<usize>) -> Result<
    (Seq<usize>, int),
    ParseFailure,
>
    decreases rank,
{
    if rank == 0 {
        Ok((acc, p))
    } else {
        match spec_u64(b, p) {
            Err(f) => Err(f),
            Ok((d, q)) => spec_dims(b, q, (rank - 1) as nat, acc.push(d as usize)),
        }
    }
}

/// One tensor descriptor: name, `u32` rank, dimensions innermost first,
/// `u32` GGML type and `u64` data offset.
pub open spec fn spec_tensor_info(b: Seq<u8>, p: int) -> Result<(TensorInfoModel, int), ParseFailure> {
    match spec_string(b, p) {
        Err(f) => Err(f),
        Ok((name, q1)) => match spec_u32(b, q1) {
            Err(f) => Err(f),
            Ok((rank, q2)) => match spec_dims(b, q2, (rank as usize) as nat, Seq::empty()) {
                Err(f) => Err(f),
                Ok((dims, q3)) => match spec_u32(b, q3) {
                    Err(f) => Err(f),
                    Ok((gt, q4)) => match ggml_dtype(gt) {
                        None => Err(ParseFailure::UnknownGgmlType(gt)),
                        Some(dtype) => match spec_u64(b, q4) {
                            Err(f) => Err(f),
                            Ok((off, q5)) => {
                                let shape = dims.reverse();
                                if !prefix_products_fit(shape) {
                                    Err(ParseFailure::Overflow)
                                } else if tensor_byte_size(dtype, dims_product(shape)) > usize::MAX {
                                    Err(ParseFailure::Overflow)
                                } else {
                                    Ok(
                                        (
                                            TensorInfoModel {
                                                name,
                                                shape,
                                                dtype,
                                                offset: off as usize,
                                                size_in_bytes: tensor_byte_size(
                                                    dtype,
                                                    dims_product(shape),
                                                ) as usize,
                                            },
                                            q5,
                                        ),
                                    )
                                }
                            },
                        },
                    },
                },
            },
        },
    }
}

/// What a tensor descriptor's element type says of its byte size: the
/// stored data of an F32 tensor takes 4 bytes per element, of an F16 tensor
/// 2, and of Q8_0 and Q4_0 tensors 34 and 18 bytes per whole block of 32
/// elements.
pub open spec fn element_size_law(t: TensorInfoModel) -> bool {
    let n = dims_product(t.shape);
    &&& t.dtype == DType::F32 ==> t.size_in_bytes == 4 * n
    &&& t.dtype == DType::F16 ==> t.size_in_bytes == 2 * n
    &&& t.dtype == DType::Q8_0 ==> t.size_in_bytes == 34 * (n / 32)
    &&& t.dtype == DType::Q4_0 ==> t.size_in_bytes == 18 * (n / 32)
}

/// A parsed tensor descriptor: its element type is the one its GGML type
/// tag names (the `u32` just before the final `u64` offset: 0 is F32, 1 is
/// F16, 2 is Q4_0, 8 is Q8_0, nothing else parses), and its byte size is
/// the element count times the size the type gives (see
/// `element_size_law`).
pub proof fn descriptor_size_law(b: Seq<u8>, p: int)
    ensures
        spec_tensor_info(b, p) matches Ok((t, q)) ==> {
            &&& element_size_law(t)
            &&& spec_u32(b, q - 12) matches Ok((tag, q8)) && q8 == q - 8 && {
                &&& (tag == 0) == (t.dtype == DType::F32)
                &&& (tag == 1) == (t.dtype == DType::F16)
                &&& (tag == 2) == (t.dtype == DType::Q4_0)
                &&& (tag == 8) == (t.dtype == DType::Q8_0)
                &&& (tag == 0 || tag == 1 || tag == 2 || tag == 8)
            }
        },
{
    if let Ok((name, q1)) = spec_string(b, p) {
        if let Ok((rank, q2)) = spec_u32(b, q1) {
            if let Ok((dims, q3)) = spec_dims(b, q2, (rank as usize) as nat, Seq::empty()) {
                if let Ok((gt, q4)) = spec_u32(b, q3) {
                    if let Ok((off, q5)) = spec_u64(b, q4) {
                        let shape = dims.reverse();
                        let n = dims_product(shape);
                        lemma_product_nonneg(shape);
                        assert(q4 == q3 + 4 && q5 == q4 + 8);
                        assert((n / 32) * 34 == 34 * (n / 32)) by (nonlinear_arith);
                        assert((n / 32) * 18 == 18 * (n / 32)) by (nonlinear_arith);
                        assert(n * 4 == 4 * n && n * 2 == 2 * n);
                        if let Some(dt) = ggml_dtype(gt) {
                            if prefix_products_fit(shape) && tensor_byte_size(dt, n) <= usize::MAX {
                                let t = TensorInfoModel {
                                    name,
                                    shape,
                                    dtype: dt,
                                    offset: off as usize,
                                    size_in_bytes: tensor_byte_size(dt, n) as usize,
                                };
                                assert(spec_tensor_info(b, p) == Ok::<(TensorInfoModel, int), ParseFailure>((t, q5)));
                                assert(tensor_byte_size(dt, n) >= 0) by (nonlinear_arith)
                                    requires
                                        n >= 0,
                                        dt == DType::F32 ==> tensor_byte_size(dt, n) == n * 4,
                                        dt == DType::F16 ==> tensor_byte_size(dt, n) == n * 2,
                                        dt == DType::Q8_0 ==> tensor_byte_size(dt, n) == (n / 32) * 34,
                                        dt == DType::Q4_0 ==> tensor_byte_size(dt, n) == (n / 32) * 18,
                                        dt == DType::F32 || dt == DType::F16 || dt == DType::Q8_0 || dt == DType::Q4_0,
                                ;
                                assert(element_size_law(t));
                                assert(spec_u32(b, q5 - 12) == Ok::<(u32, int), ParseFailure>((gt, q4)));
                            }
                        }
                    }
                }
            }
        }
    }
}

proof fn lemma_infos_size_law(b: Seq<u8>, p: int, count: nat, acc: Seq<TensorInfoModel>)
    requires
        forall|k: int| 0 <= k < acc.len() ==> element_size_law(#[trigger] acc[k]),
    ensures
        spec_infos(b, p, count, acc) matches Ok((ts, q)) ==> forall|k: int|
            0 <= k < ts.len() ==> element_size_law(#[trigger] ts[k]),
    decreases count,
{
    if count > 0 {
        descriptor_size_law(b, p);
        if let Ok((t, q)) = spec_tensor_info(b, p) {
            let acc2 = acc.push(t);
            assert forall|k: int| 0 <= k < acc2.len() implies element_size_law(#[trigger] acc2[k]) by {
                if k < acc.len() {
                    assert(acc2[k] == acc[k]);
                }
            }
            lemma_infos_size_law(b, q, (count - 1) as nat, acc2);
        }
    }
}

/// Every tensor of a parsed GGUF file has the byte size its element type
/// and shape give (see `element_size_law`).
pub proof fn parsed_tensor_sizes(b: Seq<u8>)
    ensures
        spec_parse_gguf(b) matches Ok(m) ==> forall|k: int|
            0 <= k < m.tensors.len() ==> element_size_law(#[trigger] m.tensors[k]),
{
    if let Ok((_, p1)) = spec_u32(b, 0) {
        if let Ok((_, p2)) = spec_u32(b, p1) {
            if let Ok((tc, p3)) = spec_u64(b, p2) {
                if let Ok((kc, p4)) = spec_u64(b, p3) {
                    if let Ok((md, p5)) = spec_entries(b, p4, (kc as usize) as nat, Seq::empty()) {
                        lemma_infos_size_law(b, p5, (tc as usize) as nat, Seq::empty());
                    }
                }
            }
        }
    }
}

/// `count` more metadata entries (key string, then tagged value).
pub open spec fn spec_entries(b: Seq<u8>, p: int, count: nat, acc: MetadataModel) -> Result<
    (MetadataModel, int),
    ParseFailure,
>
    decreases count,
{
    if count == 0 {
        Ok((acc, p))
    } else {
        match spec_string(b, p) {
            Err(f) => Err(f),
            Ok((k, q)) => match spec_tagged_value(b, q) {
                Err(f) => Err(f),
                Ok((v, q2)) => spec_entries(b, q2, (count - 1) as nat, acc.push((k, v))),
            },
        }
    }
}

/// `count` more tensor descriptors.
pub open spec fn spec_infos(b: Seq<u8>, p: int, count: nat, acc: Seq<TensorInfoModel>) -> Result<
    (Seq<TensorInfoModel>, int),
    ParseFailure,
>
    decreases count,
{
    if count == 0 {
        Ok((acc, p))
    } else {
        match spec_tensor_info(b, p) {
            Err(f) => Err(f),
            Ok((t, q)) => spec_infos(b, q, (count - 1) as nat, acc.push(t)),
        }
    }
}

/// Alignment of the tensor data: the `general.alignment` entry when it is a
/// `u32` or `u64`, else 32.
pub open spec fn spec_alignment(md: MetadataModel) -> int {
    match lookup_value(md, "general.alignment"@) {
        Some(ValueModel::Uint32(v)) => (v as usize) as int,
        Some(ValueModel::Uint64(v)) => (v as usize) as int,
        _ => 32,
    }
}

/// `pos` rounded up by masking with the alignment (exact rounding when the
/// alignment is a power of two).
pub open spec fn align_up(pos: int, alignment: int) -> usize {
    ((pos + alignment - 1) as usize) & !((alignment - 1) as usize)
}

pub struct FileModel {
    pub version: u32,
    pub metadata: MetadataModel,
    pub tensors: Seq<TensorInfoModel>,
    pub tensor_data_start: usize,
}

/// The end of a GGUF file's header: the tensor data starts at the first
/// aligned offset after the descriptors; that offset must lie inside the
/// file when there are tensors. The rounding forms `p6 + al` before it
/// subtracts one, so that sum must fit in a `usize`.
pub open spec fn spec_finish(
    blen: int,
    version: u32,
    md: MetadataModel,
    infos: Seq<TensorInfoModel>,
    p6: int,
) -> Result<FileModel, ParseFailure> {
    let al = spec_alignment(md);
    if al == 0 || p6 + al > usize::MAX {
        Err(ParseFailure::Overflow)
    } else if align_up(p6, al) > blen && infos.len() > 0 {
        Err(ParseFailure::Eof)
    } else {
        Ok(FileModel { version, metadata: md, tensors: infos, tensor_data_start: align_up(p6, al) })
    }
}

/// Tensor descriptors after the metadata, then the end of the header.
pub open spec fn spec_tail(b: Seq<u8>, version: u32, md: MetadataModel, tc: nat, p5: int) -> Result<
    FileModel,
    ParseFailure,
> {
    match spec_infos(b, p5, tc, Seq::empty()) {
        Err(f) => Err(f),
        Ok((infos, p6)) => spec_finish(b.len() as int, version, md, infos, p6),
    }
}

/// Metadata entries after the counts, then the rest.
pub open spec fn spec_body(b: Seq<u8>, version: u32, tc: nat, kc: nat, p4: int) -> Result<
    FileModel,
    ParseFailure,
> {
    match spec_entries(b, p4, kc, Seq::empty()) {
        Err(f) => Err(f),
        Ok((md, p5)) => spec_tail(b, version, md, tc, p5),
    }
}

/// A GGUF file: magic, version (2 or 3), `u64` tensor count, `u64` entry
/// count, the metadata entries, the tensor descriptors, and tensor data
/// starting at the next aligned offset.
pub open spec fn spec_parse_gguf(b: Seq<u8>) -> Result<FileModel, ParseFailure> {
    match spec_u32(b, 0) {
        Err(f) => Err(f),
        Ok((magic, p1)) => if magic != GGUF_MAGIC {
            Err(ParseFailure::InvalidMagic(magic))
        } else {
            match spec_u32(b, p1) {
                Err(f) => Err(f),
                Ok((version, p2)) => if version != 2 && version != 3 {
                    Err(ParseFailure::UnsupportedVersion(version))
                } else {
                    match spec_u64(b, p2) {
                        Err(f) => Err(f),
                        Ok((tc, p3)) => match spec_u64(b, p3) {
                            Err(f) => Err(f),
                            Ok((kc, p4)) => spec_body(
                                b,
                                version,
                                (tc as usize) as nat,
                                (kc as usize) as nat,
                                p4,
                            ),
                        },
                    }
                },
            }
        },
    }
}

// ============================================================================
// File-level readers
// ============================================================================
fn read_tensor_info(bytes: &[u8], cursor: &mut usize) -> (r: Result<GgufTensorInfo, ReadError>)
    requires
        *old(cursor) <= bytes@.len(),
    ensures
        agrees(
            r,
            *final(cursor) as int,
            spec_tensor_info(bytes@, *old(cursor) as int),
            |t: GgufTensorInfo| t.model(),
        ),
        *final(cursor) <= bytes@.len(),
{
    let ghost b = bytes@;
    let ghost c0 = *cursor as int;
    let name = read_string(bytes, cursor)?;
    let rank = read_u32(bytes, cursor)? as usize;
    let ghost q2 = *cursor as int;
    let mut dims: Vec<usize> = Vec::new();
    let mut i: usize = 0;
    while i < rank
        invariant
            b == bytes@,
                *cursor <= bytes@.len(),
            i <= rank,
            spec_dims(b, q2, rank as nat, Seq::empty()) == spec_dims(
                b,
                *cursor as int,
                (rank - i) as nat,
                dims@,
            ),
            c0 == *old(cursor),
            spec_dims(b, q2, rank as nat, Seq::empty()) matches Err(f) ==> spec_tensor_info(b, c0)
                == Err::<(TensorInfoModel, int), ParseFailure>(f),
        decreases rank - i,
    {
        let d = read_u64(bytes, cursor)?;
        dims.push(d as usize);
        i = i + 1;
    }
    let mut shape: Vec<usize> = Vec::new();
    let mut j: usize = dims.len();
    while j > 0
        invariant
            j <= dims@.len(),
            shape@ == dims@.reverse().take(dims@.len() - j),
        decreases j,
    {
        j = j - 1;
        shape.push(dims[j]);
        proof {
            assert(shape@ =~= dims@.reverse().take(dims@.len() - j));
        }
    }
    proof {
        assert(shape@ =~= dims@.reverse());
    }
    let ggml_type = read_u32(bytes, cursor)?;
    let dtype = if ggml_type == 0 {
        DType::F32
    } else if ggml_type == 1 {
        DType::F16
    } else if ggml_type == 2 {
        DType::Q4_0
    } else if ggml_type == 8 {
        DType::Q8_0
    } else {
        return Err(ReadError::Format(GgufError::UnknownGgmlType(ggml_type)));
    };
    let offset = read_u64(bytes, cursor)? as usize;
    let numel = match checked_product(shape.as_slice()) {
        Some(n) => n,
        None => {
            return Err(ReadError::Overflow);
        },
    };
    let size = match dtype {
        DType::F32 => numel.checked_mul(4),
        DType::F16 => numel.checked_mul(2),
        DType::Q8_0 => (numel / 32).checked_mul(34),
        DType::Q4_0 => (numel / 32).checked_mul(18),
        _ => Some(numel),
    };
    let size_in_bytes = match size {
        Some(s) => s,
        None => {
            return Err(ReadError::Overflow);
        },
    };
    Ok(GgufTensorInfo { name, shape, dtype, offset, size_in_bytes })
}

/// What parsing yields before the storage is attached.
pub struct ParsedGguf {
    pub version: u32,
    pub metadata: GgufMetadata,
    pub tensors: GgufTensorTable,
    pub tensor_data_start: usize,
}

impl ParsedGguf {
    pub open spec fn model(&self) -> FileModel {
        FileModel {
            version: self.version,
            metadata: self.metadata.model(),
            tensors: self.tensors.model(),
            tensor_data_start: self.tensor_data_start,
        }
    }
}

/// Parses the header, metadata and tensor descriptors of a GGUF file.
/// `Err(ReadError::Overflow)` exactly for files whose sizes do not fit in
/// `usize` arithmetic; otherwise the result is the spec's.
pub fn parse_gguf(bytes: &[u8]) -> (r: Result<ParsedGguf, ReadError>)
    ensures
        match spec_parse_gguf(bytes@) {
            Ok(m) => r matches Ok(p) && p.model() == m,
            Err(f) => r matches Err(e) && read_error_matches(e, f),
        },
{
    let ghost b = bytes@;
    let mut cursor: usize = 0;
    let magic = read_u32(bytes, &mut cursor)?;
    if magic != GGUF_MAGIC {
        return Err(ReadError::Format(GgufError::InvalidMagic(magic)));
    }
    let version = read_u32(bytes, &mut cursor)?;
    if version != 2 && version != 3 {
        return Err(ReadError::Format(GgufError::UnsupportedVersion(version)));
    }
    let tensor_count = read_u64(bytes, &mut cursor)? as usize;
    let kv_count = read_u64(bytes, &mut cursor)? as usize;
    let ghost p4 = cursor as int;
    let ghost whole = spec_parse_gguf(b);
    assert(whole == spec_body(b, version, tensor_count as nat, kv_count as nat, p4));
    let mut metadata = GgufMetadata::new();
    let mut i: usize = 0;
    while i < kv_count
        invariant
            b == bytes@,
                cursor <= bytes@.len(),
            i <= kv_count,
            spec_entries(b, p4, kv_count as nat, Seq::empty()) == spec_entries(
                b,
                cursor as int,
                (kv_count - i) as nat,
                metadata.model(),
            ),
            whole == spec_body(b, version, tensor_count as nat, kv_count as nat, p4),
            whole == spec_parse_gguf(bytes@),
        decreases kv_count - i,
    {
        let key = read_string(bytes, &mut cursor)?;
        let val = read_value(bytes, &mut cursor)?;
        metadata.insert(key, val);
        i = i + 1;
    }
    let alignment: usize = match metadata.get("general.alignment") {
        Some(GgufValue::Uint32(v)) => *v as usize,
        Some(GgufValue::Uint64(v)) => *v as usize,
        _ => 32,
    };
    let ghost p5 = cursor as int;
    assert(whole == spec_tail(b, version, metadata.model(), tensor_count as nat, p5));
    let mut tensors = GgufTensorTable::new();
    let mut j: usize = 0;
    while j < tensor_count
        invariant
            b == bytes@,
                cursor <= bytes@.len(),
            j <= tensor_count,
            spec_infos(b, p5, tensor_count as nat, Seq::empty()) == spec_infos(
                b,
                cursor as int,
                (tensor_count - j) as nat,
                tensors.model(),
            ),
            whole == spec_tail(b, version, metadata.model(), tensor_count as nat, p5),
            whole == spec_parse_gguf(bytes@),
        decreases tensor_count - j,
    {
        let info = read_tensor_info(bytes, &mut cursor)?;
        tensors.insert(info);
        j = j + 1;
    }
    assert(whole == spec_finish(b.len() as int, version, metadata.model(), tensors.model(), cursor as int));
    // `cursor + alignment` is formed first, then one is taken off.
    if alignment == 0 || cursor > usize::MAX - alignment {
        return Err(ReadError::Overflow);
    }
    let tensor_data_start = (cursor + alignment - 1) & !(alignment - 1);
    if tensor_data_start > bytes.len() && !tensors.is_empty() {
        return Err(ReadError::Format(GgufError::UnexpectedEof));
    }
    Ok(ParsedGguf { version, metadata, tensors, tensor_data_start })
}

// ============================================================================
// The file with its storage
// ============================================================================
#[verifier::external_type_specification]
#[verifier::external_body]
pub struct ExMmap(memmap2::Mmap);

/// The bytes of a memory map (memmap2's `Deref` for `Mmap`). They are the
/// file's current contents, so nothing is stated about them.
#[verifier::external_body]
fn mmap_bytes(m: &memmap2::Mmap) -> &[u8] {
    m.as_ref()
}

/// Where the bytes of a GGUF file live.
pub enum GgufStorage {
    Mmap(memmap2::Mmap),
    Owned(Arc<Vec<u8>>),
}

impl GgufStorage {
    /// The stored bytes.
    pub fn as_slice(&self) -> (r: &[u8])
        ensures
            self matches GgufStorage::Owned(v) ==> r@ == v@,
    {
        match self {
            GgufStorage::Mmap(m) => mmap_bytes(m),
            GgufStorage::Owned(v) => v.as_slice(),
        }
    }
}

/// A parsed GGUF model file: header, metadata and tensor descriptors, with
/// the bytes that hold the tensor data.
pub struct GgufFile {
    pub version: u32,
    pub metadata: GgufMetadata,
    pub tensors: GgufTensorTable,
    pub storage: GgufStorage,
    pub tensor_data_start: usize,
}

impl GgufFile {
    pub open spec fn model(&self) -> FileModel {
        FileModel {
            version: self.version,
            metadata: self.metadata.model(),
            tensors: self.tensors.model(),
            tensor_data_start: self.spec_data_start(),
        }
    }

    pub open spec fn spec_data_start(&self) -> usize {
        self.tensor_data_start
    }

    /// The stored bytes when they are held in memory (not mapped).
    pub open spec fn owned_bytes(&self) -> Option<Seq<u8>> {
        match self.storage {
            GgufStorage::Owned(v) => Some(v@),
            GgufStorage::Mmap(_) => None,
        }
    }

    /// Parses the header of the stored bytes. `None` exactly when the file's
    /// sizes do not fit in `usize` arithmetic; otherwise the outcome of
    /// `spec_parse_gguf` on the bytes.
    pub fn parse_storage(storage: GgufStorage) -> (r: Option<Result<Self, GgufError>>)
        ensures
            storage matches GgufStorage::Owned(v) ==> match spec_parse_gguf(v@) {
                Ok(m) => r matches Some(Ok(f)) && f.model() == m && f.owned_bytes() == Some(v@)
                    && f.version == m.version && f.metadata.model() == m.metadata
                    && f.tensors.model() == m.tensors,
                Err(ParseFailure::Overflow) => r is None,
                Err(fl) => r matches Some(Err(e)) && reports(e, fl),
            },
            r matches Some(Ok(f)) ==> exists|b: Seq<u8>| spec_parse_gguf(b) == Ok::<FileModel, ParseFailure>(f.model()),
    {
        let parsed = {
            let bytes = storage.as_slice();
            parse_gguf(bytes)
        };
        match parsed {
            Ok(p) => {
                let f = GgufFile {
                    version: p.version,
                    metadata: p.metadata,
                    tensors: p.tensors,
                    storage,
                    tensor_data_start: p.tensor_data_start,
                };
                Some(Ok(f))
            },
            Err(ReadError::Format(e)) => Some(Err(e)),
            Err(ReadError::Overflow) => None,
        }
    }

    /// Parses a GGUF file held in memory (the bytes are copied).
    pub fn from_bytes(bytes: &[u8]) -> (r: Result<Self, GgufError>)
        requires
            !(spec_parse_gguf(bytes@) is Err && spec_parse_gguf(bytes@)->Err_0 is Overflow),
        ensures
            match spec_parse_gguf(bytes@) {
                Ok(m) => r matches Ok(f) && f.model() == m && f.owned_bytes() == Some(bytes@)
                    && f.version == m.version && f.metadata.model() == m.metadata
                    && f.tensors.model() == m.tensors && f.spec_data_start() == m.tensor_data_start,
                Err(fl) => r matches Err(e) && reports(e, fl),
            },
    {
        let v = vstd::slice::slice_to_vec(bytes);
        match Self::parse_storage(GgufStorage::Owned(Arc::new(v))) {
            Some(r) => r,
            None => {
                proof {
                    assert(false);
                }
                Err(GgufError::UnexpectedEof)
            },
        }
    }

    /// Offset of the tensor data inside the stored bytes.
    pub fn tensor_data_start(&self) -> (r: usize)
        ensures
            r == self.spec_data_start(),
    {
        self.tensor_data_start
    }

    /// The stored bytes of the tensor `name`: `size_in_bytes` bytes at its
    /// offset from the start of the tensor data. `TensorNotFound` when no
    /// tensor has that name, `UnexpectedEof` when the bytes run past the end.
    pub fn tensor_bytes(&self, name: &str) -> (r: Result<&[u8], GgufError>)
        requires
            lookup_tensor(self.tensors.model(), name@) matches Some(t) ==> self.spec_data_start()
                + t.offset + t.size_in_bytes <= usize::MAX,
        ensures
            lookup_tensor(self.tensors.model(), name@) is None ==> (r matches Err(
                GgufError::TensorNotFound(n),
            ) && n@ == name@),
            match lookup_tensor(self.tensors.model(), name@) {
                Some(t) => {
                    let start = self.spec_data_start() + t.offset;
                    let end = start + t.size_in_bytes;
                    match r {
                        Ok(s) => s@.len() == t.size_in_bytes && (self.owned_bytes() matches Some(
                            b,
                        ) ==> end <= b.len() && s@ == b.subrange(start, end)),
                        Err(e) => e is UnexpectedEof && (self.owned_bytes() matches Some(b) ==> end
                            > b.len()),
                    }
                },
                None => true,
            },
    {
        let info = match self.tensors.get(name) {
            Some(i) => i,
            None => {
                return Err(GgufError::TensorNotFound(name.to_string()));
            },
        };
        let start = self.tensor_data_start + info.offset;
        let end = start + info.size_in_bytes;
        let bytes = self.storage.as_slice();
        if end > bytes.len() {
            return Err(GgufError::UnexpectedEof);
        }
        Ok(vstd::slice::slice_subrange(bytes, start, end))
    }

    /// The model architecture named in the metadata (e.g. "llama").
    pub fn architecture(&self) -> (r: Option<&str>)
        ensures
            match lookup_value(self.metadata.model(), "general.architecture"@) {
                Some(ValueModel::Str(s)) => r matches Some(a) && a@ == s,
                _ => r is None,
            },
    {
        match self.metadata.get("general.architecture") {
            Some(GgufValue::String(s)) => Some(s.as_str()),
            _ => None,
        }
    }
}

// ============================================================================
// Writing GGUF files
// ============================================================================
pub open spec fn u32_le(v: u32) -> Seq<u8> {
    seq![
        (v & 0xff) as u8,
        ((v >> 8u32) & 0xff) as u8,
        ((v >> 16u32) & 0xff) as u8,
        ((v >> 24u32) & 0xff) as u8,
    ]
}

pub open spec fn u64_le(v: u64) -> Seq<u8> {
    seq![
        (v & 0xff) as u8,
        ((v >> 8u64) & 0xff) as u8,
        ((v >> 16u64) & 0xff) as u8,
        ((v >> 24u64) & 0xff) as u8,
        ((v >> 32u64) & 0xff) as u8,
        ((v >> 40u64) & 0xff) as u8,
        ((v >> 48u64) & 0xff) as u8,
        ((v >> 56u64) & 0xff) as u8,
    ]
}

/// A string as written: its UTF-8 length as `u64`, then its UTF-8 bytes.
pub open spec fn string_record(s: Seq<char>) -> Seq<u8> {
    u64_le(encode_utf8(s).len() as u64) + encode_utf8(s)
}

/// A metadata value as the builder writes it: `u32` and string values with
/// their type tag; other values are not written.
pub open spec fn value_record(v: ValueModel) -> Seq<u8> {
    match v {
        ValueModel::Uint32(x) => u32_le(4) + u32_le(x),
        ValueModel::Str(s) => u32_le(8) + string_record(s),
        _ => Seq::empty(),
    }
}

pub open spec fn entries_bytes(md: MetadataModel) -> Seq<u8>
    decreases md.len(),
{
    if md.len() == 0 {
        Seq::empty()
    } else {
        entries_bytes(md.drop_last()) + string_record(md.last().0) + value_record(md.last().1)
    }
}

/// A tensor given to the builder: its name, row-major shape, element type
/// and raw data bytes.
pub struct TensorEntry {
    pub name: Seq<char>,
    pub shape: Seq<usize>,
    pub dtype: DType,
    pub data: Seq<u8>,
}

/// The GGML type tag written for an element type.
pub open spec fn ggml_tag(d: DType) -> u32 {
    match d {
        DType::F32 => 0,
        DType::F16 => 1,
        DType::Q4_0 => 2,
        DType::Q8_0 => 8,
        _ => 0,
    }
}

/// Dimensions as written: innermost first, each as `u64`.
pub open spec fn dims_bytes(shape: Seq<usize>) -> Seq<u8>
    decreases shape.len(),
{
    if shape.len() == 0 {
        Seq::empty()
    } else {
        u64_le(shape.last() as u64) + dims_bytes(shape.drop_last())
    }
}

pub open spec fn data_bytes(ts: Seq<TensorEntry>) -> Seq<u8>
    decreases ts.len(),
{
    if ts.len() == 0 {
        Seq::empty()
    } else {
        data_bytes(ts.drop_last()) + ts.last().data
    }
}

/// Offset of the data of tensor `i` from the start of the tensor data.
pub open spec fn data_offset(ts: Seq<TensorEntry>, i: int) -> int {
    data_bytes(ts.take(i)).len() as int
}

pub open spec fn info_record(t: TensorEntry, offset: int) -> Seq<u8> {
    string_record(t.name) + u32_le(t.shape.len() as u32) + dims_bytes(t.shape) + u32_le(
        ggml_tag(t.dtype),
    ) + u64_le(offset as u64)
}

pub open spec fn infos_bytes(ts: Seq<TensorEntry>) -> Seq<u8>
    decreases ts.len(),
{
    if ts.len() == 0 {
        Seq::empty()
    } else {
        infos_bytes(ts.drop_last()) + info_record(ts.last(), data_offset(ts, ts.len() - 1))
    }
}

pub open spec fn header_bytes(md: MetadataModel, ts: Seq<TensorEntry>) -> Seq<u8> {
    u32_le(GGUF_MAGIC) + u32_le(3) + u64_le(ts.len() as u64) + u64_le(md.len() as u64)
        + entries_bytes(md) + infos_bytes(ts)
}

/// `n` rounded up to a multiple of 32.
pub open spec fn align32(n: int) -> int {
    (((n + 31) as usize) & !31usize) as int
}

/// The file the builder writes: header, zero padding up to a multiple of
/// 32 bytes, then the tensors' data in order.
pub open spec fn spec_build(md: MetadataModel, ts: Seq<TensorEntry>) -> Seq<u8> {
    let h = header_bytes(md, ts);
    h + Seq::new((align32(h.len() as int) - h.len()) as nat, |i: int| 0u8) + data_bytes(ts)
}

pub(crate) proof fn lemma_data_prefix_len(ts: Seq<TensorEntry>, i: int)
    requires
        0 <= i <= ts.len(),
    ensures
        data_bytes(ts.take(i)).len() <= data_bytes(ts).len(),
        i > 0 ==> data_bytes(ts.take(i)) == data_bytes(ts.take(i - 1)) + ts[i - 1].data,
    decreases ts.len(),
{
    if i > 0 {
        assert(ts.take(i).drop_last() =~= ts.take(i - 1));
    }
    if i == ts.len() {
        assert(ts.take(i) =~= ts);
    } else {
        lemma_data_prefix_len(ts.drop_last(), i);
        assert(ts.drop_last().take(i) =~= ts.take(i));
    }
}

pub(crate) proof fn lemma_align32(n: usize)
    requires
        n + 31 <= usize::MAX,
    ensures
        n <= align32(n as int) < n + 32,
        align32(n as int) % 32 == 0,
{
    let m = (n + 31) as usize;
    assert(n <= (m & !31usize) < n + 32) by (bit_vector)
        requires
            m == n + 31,
    ;
    assert((m & !31usize) % 32 == 0) by (bit_vector);
}

fn push_u32(buf: &mut Vec<u8>, v: u32)
    ensures
        final(buf)@ == old(buf)@ + u32_le(v),
{
    buf.push((v & 0xff) as u8);
    buf.push(((v >> 8u32) & 0xff) as u8);
    buf.push(((v >> 16u32) & 0xff) as u8);
    buf.push(((v >> 24u32) & 0xff) as u8);
    proof {
        assert(final(buf)@ =~= old(buf)@ + u32_le(v));
    }
}

fn push_u64(buf: &mut Vec<u8>, v: u64)
    ensures
        final(buf)@ == old(buf)@ + u64_le(v),
{
    buf.push((v & 0xff) as u8);
    buf.push(((v >> 8u64) & 0xff) as u8);
    buf.push(((v >> 16u64) & 0xff) as u8);
    buf.push(((v >> 24u64) & 0xff) as u8);
    buf.push(((v >> 32u64) & 0xff) as u8);
    buf.push(((v >> 40u64) & 0xff) as u8);
    buf.push(((v >> 48u64) & 0xff) as u8);
    buf.push(((v >> 56u64) & 0xff) as u8);
    proof {
        assert(final(buf)@ =~= old(buf)@ + u64_le(v));
    }
}

fn push_bytes(buf: &mut Vec<u8>, src: &[u8])
    ensures
        final(buf)@ == old(buf)@ + src@,
{
    let ghost start = buf@;
    let mut i: usize = 0;
    while i < src.len()
        invariant
            i <= src@.len(),
            buf@ == start + src@.take(i as int),
        decreases src@.len() - i,
    {
        buf.push(src[i]);
        i = i + 1;
        proof {
            assert(buf@ =~= start + src@.take(i as int));
        }
    }
    proof {
        assert(src@.take(src@.len() as int) =~= src@);
    }
}

/// Appends a string record: the UTF-8 length as `u64`, then the bytes.
pub fn write_string_buf(buf: &mut Vec<u8>, s: &str)
    ensures
        final(buf)@ == old(buf)@ + string_record(s@),
{
    let bytes = s.as_bytes();
    push_u64(buf, bytes.len() as u64);
    push_bytes(buf, bytes);
    proof {
        assert(final(buf)@ =~= old(buf)@ + string_record(s@));
    }
}

/// Appends a metadata value with its type tag; only `u32` and string values
/// are written, other values add nothing.
pub fn write_value_buf(buf: &mut Vec<u8>, val: &GgufValue)
    ensures
        final(buf)@ == old(buf)@ + value_record(val.model()),
{
    match val {
        GgufValue::Uint32(v) => {
            push_u32(buf, 4);
            push_u32(buf, *v);
            proof {
                assert(final(buf)@ =~= old(buf)@ + value_record(val.model()));
            }
        },
        GgufValue::String(s) => {
            push_u32(buf, 8);
            write_string_buf(buf, s.as_str());
            proof {
                assert(final(buf)@ =~= old(buf)@ + value_record(val.model()));
            }
        },
        _ => {
            proof {
                assert(final(buf)@ =~= old(buf)@ + value_record(val.model()));
            }
        },
    }
}

/// Appends a tensor descriptor record.
fn write_tensor_info(buf: &mut Vec<u8>, t: &(String, Vec<usize>, DType, Vec<u8>), offset: usize)
    ensures
        final(buf)@ == old(buf)@ + info_record(
            TensorEntry { name: t.0@, shape: t.1@, dtype: t.2, data: t.3@ },
            offset as int,
        ),
{
    write_string_buf(buf, t.0.as_str());
    push_u32(buf, t.1.len() as u32);
    let ghost before_dims = buf@;
    let ghost shape = t.1@;
    let mut k: usize = t.1.len();
    proof {
        assert(shape.take(k as int) =~= shape);
        assert(buf@ + dims_bytes(shape.take(k as int)) =~= before_dims + dims_bytes(shape));
    }
    while k > 0
        invariant
            shape == t.1@,
            k <= shape.len(),
            buf@ + dims_bytes(shape.take(k as int)) == before_dims + dims_bytes(shape),
        decreases k,
    {
        let ghost prev = buf@;
        k = k - 1;
        push_u64(buf, t.1[k] as u64);
        proof {
            let tk1 = shape.take(k + 1);
            assert(tk1.drop_last() =~= shape.take(k as int));
            assert(tk1.last() == shape[k as int]);
            assert(dims_bytes(tk1) == u64_le(shape[k as int] as u64) + dims_bytes(
                shape.take(k as int),
            ));
            assert(buf@ + dims_bytes(shape.take(k as int)) =~= prev + dims_bytes(tk1));
        }
    }
    proof {
        assert(shape.take(0) =~= Seq::<usize>::empty());
        assert(buf@ =~= before_dims + dims_bytes(shape));
    }
    let tag: u32 = match t.2 {
        DType::F32 => 0,
        DType::F16 => 1,
        DType::Q4_0 => 2,
        DType::Q8_0 => 8,
        _ => 0,
    };
    push_u32(buf, tag);
    push_u64(buf, offset as u64);
    proof {
        assert(final(buf)@ =~= old(buf)@ + info_record(
            TensorEntry { name: t.0@, shape: t.1@, dtype: t.2, data: t.3@ },
            offset as int,
        ));
    }
}

/// Builds an in-memory GGUF file (version 3, 32-byte tensor alignment) from
/// metadata and raw tensor data.
pub struct GgufBuilder {
    metadata: GgufMetadata,
    tensors: Vec<(String, Vec<usize>, DType, Vec<u8>)>,
}

impl Default for GgufBuilder {
    /// An empty builder (same as `new`).
    fn default() -> (r: Self)
        ensures
            r.metadata_model() == Seq::<(Seq<char>, ValueModel)>::empty(),
            r.tensors_model() == Seq::<TensorEntry>::empty(),
    {
        Self::new()
    }
}

impl GgufBuilder {
    pub closed spec fn metadata_model(&self) -> MetadataModel {
        self.metadata.model()
    }

    pub closed spec fn tensors_model(&self) -> Seq<TensorEntry> {
        Seq::new(
            self.tensors@.len(),
            |i: int|
                TensorEntry {
                    name: self.tensors@[i].0@,
                    shape: self.tensors@[i].1@,
                    dtype: self.tensors@[i].2,
                    data: self.tensors@[i].3@,
                },
        )
    }

    /// An empty builder.
    pub fn new() -> (r: Self)
        ensures
            r.metadata_model() == Seq::<(Seq<char>, ValueModel)>::empty(),
            r.tensors_model() == Seq::<TensorEntry>::empty(),
    {
        let r = GgufBuilder { metadata: GgufMetadata::new(), tensors: Vec::new() };
        proof {
            assert(r.tensors_model() =~= Seq::<TensorEntry>::empty());
        }
        r
    }

    /// Adds a string metadata entry.
    pub fn add_string_meta(&mut self, key: &str, val: &str)
        ensures
            final(self).metadata_model() == old(self).metadata_model().push(
                (key@, ValueModel::Str(val@)),
            ),
            final(self).tensors_model() == old(self).tensors_model(),
    {
        self.metadata.insert(key.to_string(), GgufValue::String(val.to_string()));
    }

    /// Adds a `u32` metadata entry.
    pub fn add_u32_meta(&mut self, key: &str, val: u32)
        ensures
            final(self).metadata_model() == old(self).metadata_model().push(
                (key@, ValueModel::Uint32(val)),
            ),
            final(self).tensors_model() == old(self).tensors_model(),
    {
        self.metadata.insert(key.to_string(), GgufValue::Uint32(val));
    }

    /// Adds a tensor with its row-major shape, element type and raw bytes.
    pub fn add_tensor_raw(&mut self, name: &str, shape: &[usize], dtype: DType, data: &[u8])
        ensures
            final(self).metadata_model() == old(self).metadata_model(),
            final(self).tensors_model() == old(self).tensors_model().push(
                TensorEntry { name: name@, shape: shape@, dtype, data: data@ },
            ),
    {
        self.tensors.push(
            (
                name.to_string(),
                vstd::slice::slice_to_vec(shape),
                dtype,
                vstd::slice::slice_to_vec(data),
            ),
        );
        proof {
            assert(final(self).tensors_model() =~= old(self).tensors_model().push(
                TensorEntry { name: name@, shape: shape@, dtype, data: data@ },
            ));
        }
    }

    /// Serializes the file (see `spec_build`).
    pub fn build(self) -> (r: Vec<u8>)
        requires
            spec_build(self.metadata_model(), self.tensors_model()).len() + 32 <= usize::MAX,
        ensures
            r@ == spec_build(self.metadata_model(), self.tensors_model()),
    {
        let ghost md = self.metadata_model();
        let ghost ts = self.tensors_model();
        let mut buf: Vec<u8> = Vec::new();
        push_u32(&mut buf, GGUF_MAGIC);
        push_u32(&mut buf, 3);
        push_u64(&mut buf, self.tensors.len() as u64);
        push_u64(&mut buf, self.metadata.entries.len() as u64);
        let ghost h0 = buf@;
        let mut i: usize = 0;
        proof {
            assert(md.take(0) =~= Seq::<(Seq<char>, ValueModel)>::empty());
            assert(buf@ =~= h0 + entries_bytes(md.take(0)));
        }
        while i < self.metadata.entries.len()
            invariant
                md == self.metadata.model(),
                i <= md.len(),
                buf@ == h0 + entries_bytes(md.take(i as int)),
            decreases md.len() - i,
        {
            let entry = &self.metadata.entries[i];
            write_string_buf(&mut buf, entry.0.as_str());
            write_value_buf(&mut buf, &entry.1);
            proof {
                assert(md.take(i + 1).drop_last() =~= md.take(i as int));
                assert(buf@ =~= h0 + entries_bytes(md.take(i + 1)));
            }
            i = i + 1;
        }
        proof {
            assert(md.take(md.len() as int) =~= md);
        }
        let ghost h1 = buf@;
        let mut current_offset: usize = 0;
        let mut j: usize = 0;
        proof {
            assert(ts.take(0) =~= Seq::<TensorEntry>::empty());
            assert(buf@ =~= h1 + infos_bytes(ts.take(0)));
        }
        while j < self.tensors.len()
            invariant
                ts == self.tensors_model(),
                j <= ts.len(),
                buf@ == h1 + infos_bytes(ts.take(j as int)),
                current_offset == data_offset(ts, j as int),
                data_bytes(ts).len() <= usize::MAX,
            decreases ts.len() - j,
        {
            let t = &self.tensors[j];
            write_tensor_info(&mut buf, t, current_offset);
            proof {
                lemma_data_prefix_len(ts, j + 1);
                let tj1 = ts.take(j + 1);
                assert(tj1.drop_last() =~= ts.take(j as int));
                assert(tj1.take(j as int) =~= ts.take(j as int));
                assert(tj1.last() == ts[j as int]);
                assert(infos_bytes(tj1) == infos_bytes(ts.take(j as int)) + info_record(
                    ts[j as int],
                    data_offset(ts, j as int),
                ));
                assert(buf@ =~= h1 + infos_bytes(tj1));
            }
            current_offset = current_offset + t.3.len();
            j = j + 1;
        }
        proof {
            assert(ts.take(ts.len() as int) =~= ts);
            assert(buf@ =~= header_bytes(md, ts));
            assert(spec_build(md, ts).subrange(0, buf@.len() as int) =~= buf@);
        }
        let current_len = buf.len();
        let aligned_len = (current_len + 31) & !31usize;
        proof {
            lemma_align32(current_len);
        }
        let ghost h = buf@;
        while buf.len() < aligned_len
            invariant
                h.len() <= buf@.len() <= aligned_len,
                aligned_len == align32(h.len() as int),
                buf@ == h + Seq::new((buf@.len() - h.len()) as nat, |i: int| 0u8),
            decreases aligned_len - buf@.len(),
        {
            buf.push(0);
            proof {
                assert(buf@ =~= h + Seq::new((buf@.len() - h.len()) as nat, |i: int| 0u8));
            }
        }
        let ghost padded = buf@;
        let mut n: usize = 0;
        proof {
            assert(buf@ =~= padded + data_bytes(ts.take(0)));
        }
        while n < self.tensors.len()
            invariant
                ts == self.tensors_model(),
                n <= ts.len(),
                buf@ == padded + data_bytes(ts.take(n as int)),
            decreases ts.len() - n,
        {
            push_bytes(&mut buf, self.tensors[n].3.as_slice());
            proof {
                let tn1 = ts.take(n + 1);
                assert(tn1.drop_last() =~= ts.take(n as int));
                assert(buf@ =~= padded + data_bytes(tn1));
            }
            n = n + 1;
        }
        proof {
            assert(ts.take(ts.len() as int) =~= ts);
            assert(buf@ =~= spec_build(md, ts));
        }
        buf
    }
}

// ============================================================================
// Messages
// ============================================================================
/// The text of an I/O error (std's `Display` for `io::Error`). It is the
/// operating system's description, so nothing is stated about it.
#[verifier::external_body]
fn io_error_text(e: &std::io::Error) -> (r: String) {
    e.to_string()
}

/// The message shown for a GGUF error other than an I/O error.
pub open spec fn gguf_error_text(e: GgufError) -> Seq<char> {
    match e {
        GgufError::Io(_) => "GGUF I/O error: "@,
        GgufError::InvalidMagic(m) => "Invalid GGUF magic: 0x"@ + hex8(m),
        GgufError::UnsupportedVersion(v) => "Unsupported GGUF version: "@ + decimal(v as nat),
        GgufError::UnexpectedEof => "Unexpected end of file while parsing GGUF"@,
        GgufError::InvalidUtf8(s) => "Invalid UTF-8 in GGUF metadata: "@ + s@,
        GgufError::UnknownValueType(t) => "Unknown GGUF value type: "@ + decimal(t as nat),
        GgufError::UnknownGgmlType(t) => "Unknown GGML tensor type: "@ + decimal(t as nat),
        GgufError::TensorNotFound(name) => "Tensor '"@ + name@ + "' not found in GGUF file"@,
        GgufError::AlignmentError => "Tensor data offset is misaligned"@,
    }
}

impl GgufError {
    /// The message shown for this error; an I/O error's message is
    /// `gguf_error_text` followed by the system's description.
    pub fn message(&self) -> (r: String)
        ensures
            !(*self is Io) ==> r@ == gguf_error_text(*self),
            *self is Io ==> gguf_error_text(*self).is_prefix_of(r@),
    {
        let mut out: Vec<char> = Vec::new();
        match self {
            GgufError::Io(e) => {
                push_str(&mut out, "GGUF I/O error: ");
                let t = io_error_text(e);
                push_str(&mut out, t.as_str());
            },
            GgufError::InvalidMagic(m) => {
                push_str(&mut out, "Invalid GGUF magic: 0x");
                push_hex8(&mut out, *m);
            },
            GgufError::UnsupportedVersion(v) => {
                push_str(&mut out, "Unsupported GGUF version: ");
                push_decimal(&mut out, *v as usize);
            },
            GgufError::UnexpectedEof => {
                push_str(&mut out, "Unexpected end of file while parsing GGUF");
            },
            GgufError::InvalidUtf8(s) => {
                push_str(&mut out, "Invalid UTF-8 in GGUF metadata: ");
                push_str(&mut out, s.as_str());
            },
            GgufError::UnknownValueType(t) => {
                push_str(&mut out, "Unknown GGUF value type: ");
                push_decimal(&mut out, *t as usize);
            },
            GgufError::UnknownGgmlType(t) => {
                push_str(&mut out, "Unknown GGML tensor type: ");
                push_decimal(&mut out, *t as usize);
            },
            GgufError::TensorNotFound(name) => {
                push_str(&mut out, "Tensor '");
                push_str(&mut out, name.as_str());
                push_str(&mut out, "' not found in GGUF file");
            },
            GgufError::AlignmentError => {
                push_str(&mut out, "Tensor data offset is misaligned");
            },
        }
        proof {
            if !(*self is Io) {
                assert(out@ =~= gguf_error_text(*self));
            } else {
                assert(gguf_error_text(*self) =~= out@.subrange(0, gguf_error_text(*self).len() as int));
            }
        }
        string_from_chars(out.as_slice())
    }
}

} // verus!
