//! GGUF v2/v3 model-file parsing.
//!
//! A GGUF file is a header (magic, version, counts), metadata key/value
//! pairs, tensor descriptors, and an aligned data section. The decoder is
//! specified by `spec_parse_gguf`, a reading of the format over the raw
//! bytes; floating-point metadata is kept as its IEEE-754 bit pattern.

use vstd::prelude::*;

use crate::text::{bytes_eq, lit, lossy_text, to_vec, utf8_lossy};

verus! {

/// Why a GGUF file could not be read.
#[derive(Debug, Clone, Copy, PartialEq, Eq, Structural)]
pub enum GGUFError {
    InvalidMagic,
    UnsupportedVersion,
    Truncated,
    InvalidValueType,
    InvalidTensorType,
    TensorNotFound,
    BadAlignment,
}

/// GGML tensor element types.
#[derive(Debug, Clone, Copy, PartialEq, Eq, Structural)]
pub enum GGMLType {
    F32,
    F16,
    Q4_0,
    Q4_1,
    Q5_0,
    Q5_1,
    Q8_0,
    Q8_1,
    Q2K,
    Q3K,
    Q4K,
    Q5K,
    Q6K,
    Q8K,
    I8,
    I16,
    I32,
    I64,
    F64,
    BF16,
}

/// The type with a given on-disk tag.
pub open spec fn spec_ggml_type(v: u32) -> Option<GGMLType> {
    if v == 0 {
        Some(GGMLType::F32)
    } else if v == 1 {
        Some(GGMLType::F16)
    } else if v == 2 {
        Some(GGMLType::Q4_0)
    } else if v == 3 {
        Some(GGMLType::Q4_1)
    } else if v == 6 {
        Some(GGMLType::Q5_0)
    } else if v == 7 {
        Some(GGMLType::Q5_1)
    } else if v == 8 {
        Some(GGMLType::Q8_0)
    } else if v == 9 {
        Some(GGMLType::Q8_1)
    } else if v == 10 {
        Some(GGMLType::Q2K)
    } else if v == 11 {
        Some(GGMLType::Q3K)
    } else if v == 12 {
        Some(GGMLType::Q4K)
    } else if v == 13 {
        Some(GGMLType::Q5K)
    } else if v == 14 {
        Some(GGMLType::Q6K)
    } else if v == 15 {
        Some(GGMLType::Q8K)
    } else if v == 24 {
        Some(GGMLType::I8)
    } else if v == 25 {
        Some(GGMLType::I16)
    } else if v == 26 {
        Some(GGMLType::I32)
    } else if v == 27 {
        Some(GGMLType::I64)
    } else if v == 28 {
        Some(GGMLType::F64)
    } else if v == 30 {
        Some(GGMLType::BF16)
    } else {
        None
    }
}

/// Elements per block: 32 for the legacy quantisations, 256 for k-quants,
/// 1 for scalar types.
pub open spec fn spec_block_size(t: GGMLType) -> nat {
    match t {
        GGMLType::F32 | GGMLType::F16 | GGMLType::BF16 | GGMLType::F64 => 1,
        GGMLType::I8 | GGMLType::I16 | GGMLType::I32 | GGMLType::I64 => 1,
        GGMLType::Q4_0 | GGMLType::Q4_1 | GGMLType::Q5_0 | GGMLType::Q5_1 => 32,
        GGMLType::Q8_0 | GGMLType::Q8_1 => 32,
        _ => 256,
    }
}

/// Bytes per block (per element for scalar types).
pub open spec fn spec_block_bytes(t: GGMLType) -> nat {
    match t {
        GGMLType::F32 => 4,
        GGMLType::F16 | GGMLType::BF16 => 2,
        GGMLType::F64 => 8,
        GGMLType::I8 => 1,
        GGMLType::I16 => 2,
        GGMLType::I32 => 4,
        GGMLType::I64 => 8,
        GGMLType::Q4_0 => 18,
        GGMLType::Q4_1 => 20,
        GGMLType::Q5_0 => 22,
        GGMLType::Q5_1 => 24,
        GGMLType::Q8_0 => 34,
        GGMLType::Q8_1 => 40,
        GGMLType::Q2K => 84,
        GGMLType::Q3K => 110,
        GGMLType::Q4K => 144,
        GGMLType::Q5K => 176,
        GGMLType::Q6K => 210,
        GGMLType::Q8K => 292,
    }
}

/// Bytes of a tensor of `n` elements: whole blocks only.
pub open spec fn spec_tensor_bytes(t: GGMLType, n: nat) -> nat {
    (n / spec_block_size(t)) * spec_block_bytes(t)
}

/// The on-disk type tags of GGML tensors, each with the elements and bytes
/// of one block of its type; every other tag names no type.
pub proof fn lemma_ggml_type_tags()
    ensures
        spec_ggml_type(0) == Some(GGMLType::F32) && spec_block_size(GGMLType::F32) == 1 && spec_block_bytes(GGMLType::F32) == 4,
        spec_ggml_type(1) == Some(GGMLType::F16) && spec_block_size(GGMLType::F16) == 1 && spec_block_bytes(GGMLType::F16) == 2,
        spec_ggml_type(2) == Some(GGMLType::Q4_0) && spec_block_size(GGMLType::Q4_0) == 32 && spec_block_bytes(GGMLType::Q4_0) == 18,
        spec_ggml_type(3) == Some(GGMLType::Q4_1) && spec_block_size(GGMLType::Q4_1) == 32 && spec_block_bytes(GGMLType::Q4_1) == 20,
        spec_ggml_type(6) == Some(GGMLType::Q5_0) && spec_block_size(GGMLType::Q5_0) == 32 && spec_block_bytes(GGMLType::Q5_0) == 22,
        spec_ggml_type(7) == Some(GGMLType::Q5_1) && spec_block_size(GGMLType::Q5_1) == 32 && spec_block_bytes(GGMLType::Q5_1) == 24,
        spec_ggml_type(8) == Some(GGMLType::Q8_0) && spec_block_size(GGMLType::Q8_0) == 32 && spec_block_bytes(GGMLType::Q8_0) == 34,
        spec_ggml_type(9) == Some(GGMLType::Q8_1) && spec_block_size(GGMLType::Q8_1) == 32 && spec_block_bytes(GGMLType::Q8_1) == 40,
        spec_ggml_type(10) == Some(GGMLType::Q2K) && spec_block_size(GGMLType::Q2K) == 256 && spec_block_bytes(GGMLType::Q2K) == 84,
        spec_ggml_type(11) == Some(GGMLType::Q3K) && spec_block_size(GGMLType::Q3K) == 256 && spec_block_bytes(GGMLType::Q3K) == 110,
        spec_ggml_type(12) == Some(GGMLType::Q4K) && spec_block_size(GGMLType::Q4K) == 256 && spec_block_bytes(GGMLType::Q4K) == 144,
        spec_ggml_type(13) == Some(GGMLType::Q5K) && spec_block_size(GGMLType::Q5K) == 256 && spec_block_bytes(GGMLType::Q5K) == 176,
        spec_ggml_type(14) == Some(GGMLType::Q6K) && spec_block_size(GGMLType::Q6K) == 256 && spec_block_bytes(GGMLType::Q6K) == 210,
        spec_ggml_type(15) == Some(GGMLType::Q8K) && spec_block_size(GGMLType::Q8K) == 256 && spec_block_bytes(GGMLType::Q8K) == 292,
        spec_ggml_type(24) == Some(GGMLType::I8) && spec_block_size(GGMLType::I8) == 1 && spec_block_bytes(GGMLType::I8) == 1,
        spec_ggml_type(25) == Some(GGMLType::I16) && spec_block_size(GGMLType::I16) == 1 && spec_block_bytes(GGMLType::I16) == 2,
        spec_ggml_type(26) == Some(GGMLType::I32) && spec_block_size(GGMLType::I32) == 1 && spec_block_bytes(GGMLType::I32) == 4,
        spec_ggml_type(27) == Some(GGMLType::I64) && spec_block_size(GGMLType::I64) == 1 && spec_block_bytes(GGMLType::I64) == 8,
        spec_ggml_type(28) == Some(GGMLType::F64) && spec_block_size(GGMLType::F64) == 1 && spec_block_bytes(GGMLType::F64) == 8,
        spec_ggml_type(30) == Some(GGMLType::BF16) && spec_block_size(GGMLType::BF16) == 1 && spec_block_bytes(GGMLType::BF16) == 2,
        forall|v: u32| v != 0 && v != 1 && v != 2 && v != 3 && v != 6 && v != 7 && v != 8 && v != 9 && v != 10 && v != 11 && v != 12 && v != 13 && v != 14 && v != 15 && v != 24 && v != 25 && v != 26 && v != 27 && v != 28 && v != 30 ==> #[trigger] spec_ggml_type(v) is None,
{
}

impl GGMLType {
    /// The type with a given on-disk tag.
    pub fn from_u32(v: u32) -> (r: Result<Self, GGUFError>)
        ensures
            match spec_ggml_type(v) {
                Some(t) => r == Ok::<GGMLType, GGUFError>(t),
                None => r == Err::<GGMLType, GGUFError>(GGUFError::InvalidTensorType),
            },
    {
        match v {
            0 => Ok(GGMLType::F32),
            1 => Ok(GGMLType::F16),
            2 => Ok(GGMLType::Q4_0),
            3 => Ok(GGMLType::Q4_1),
            6 => Ok(GGMLType::Q5_0),
            7 => Ok(GGMLType::Q5_1),
            8 => Ok(GGMLType::Q8_0),
            9 => Ok(GGMLType::Q8_1),
            10 => Ok(GGMLType::Q2K),
            11 => Ok(GGMLType::Q3K),
            12 => Ok(GGMLType::Q4K),
            13 => Ok(GGMLType::Q5K),
            14 => Ok(GGMLType::Q6K),
            15 => Ok(GGMLType::Q8K),
            24 => Ok(GGMLType::I8),
            25 => Ok(GGMLType::I16),
            26 => Ok(GGMLType::I32),
            27 => Ok(GGMLType::I64),
            28 => Ok(GGMLType::F64),
            30 => Ok(GGMLType::BF16),
            _ => Err(GGUFError::InvalidTensorType),
        }
    }

    /// Block size for quantised types, 1 for scalar types.
    pub fn block_size(self) -> (r: usize)
        ensures
            r == spec_block_size(self),
    {
        match self {
            GGMLType::F32 | GGMLType::F16 | GGMLType::BF16 | GGMLType::F64 => 1,
            GGMLType::I8 | GGMLType::I16 | GGMLType::I32 | GGMLType::I64 => 1,
            GGMLType::Q4_0 | GGMLType::Q4_1 | GGMLType::Q5_0 | GGMLType::Q5_1 => 32,
            GGMLType::Q8_0 | GGMLType::Q8_1 => 32,
            GGMLType::Q2K | GGMLType::Q3K | GGMLType::Q4K | GGMLType::Q5K | GGMLType::Q6K
            | GGMLType::Q8K => 256,
        }
    }

    /// Bytes per block (or per element for scalar types).
    pub fn block_bytes(self) -> (r: usize)
        ensures
            r == spec_block_bytes(self),
    {
        match self {
            GGMLType::F32 => 4,
            GGMLType::F16 | GGMLType::BF16 => 2,
            GGMLType::F64 => 8,
            GGMLType::I8 => 1,
            GGMLType::I16 => 2,
            GGMLType::I32 => 4,
            GGMLType::I64 => 8,
            GGMLType::Q4_0 => 18,
            GGMLType::Q4_1 => 20,
            GGMLType::Q5_0 => 22,
            GGMLType::Q5_1 => 24,
            GGMLType::Q8_0 => 34,
            GGMLType::Q8_1 => 40,
            GGMLType::Q2K => 84,
            GGMLType::Q3K => 110,
            GGMLType::Q4K => 144,
            GGMLType::Q5K => 176,
            GGMLType::Q6K => 210,
            GGMLType::Q8K => 292,
        }
    }

    /// The byte size of a tensor with `n_elements` values.
    pub fn tensor_bytes(self, n_elements: u64) -> (r: u64)
        requires
            spec_tensor_bytes(self, n_elements as nat) <= u64::MAX,
        ensures
            r == spec_tensor_bytes(self, n_elements as nat),
    {
        let bs = self.block_size() as u64;
        let bb = self.block_bytes() as u64;
        (n_elements / bs) * bb
    }
}

/// A metadata value. Floating-point values hold their IEEE-754 bits.
#[derive(Debug)]
pub enum GGUFValue {
    U8(u8),
    I8(i8),
    U16(u16),
    I16(i16),
    U32(u32),
    I32(i32),
    F32(u32),
    Bool(bool),
    Str(Vec<u8>),
    Array(Vec<GGUFValue>),
    U64(u64),
    I64(i64),
    F64(u64),
}

/// Mathematical model of a [`GGUFValue`].
#[verifier::ext_equal]
pub enum GValue {
    U8(u8),
    I8(i8),
    U16(u16),
    I16(i16),
    U32(u32),
    I32(i32),
    F32(u32),
    Bool(bool),
    Str(Seq<u8>),
    Array(Seq<GValue>),
    U64(u64),
    I64(i64),
    F64(u64),
}

/// The model of a value.
pub open spec fn value_view(v: GGUFValue) -> GValue
    decreases v, 0nat,
{
    match v {
        GGUFValue::U8(x) => GValue::U8(x),
        GGUFValue::I8(x) => GValue::I8(x),
        GGUFValue::U16(x) => GValue::U16(x),
        GGUFValue::I16(x) => GValue::I16(x),
        GGUFValue::U32(x) => GValue::U32(x),
        GGUFValue::I32(x) => GValue::I32(x),
        GGUFValue::F32(x) => GValue::F32(x),
        GGUFValue::Bool(x) => GValue::Bool(x),
        GGUFValue::Str(s) => GValue::Str(s@),
        GGUFValue::Array(a) => GValue::Array(values_view(a@)),
        GGUFValue::U64(x) => GValue::U64(x),
        GGUFValue::I64(x) => GValue::I64(x),
        GGUFValue::F64(x) => GValue::F64(x),
    }
}

/// The models of a sequence of values.
pub open spec fn values_view(s: Seq<GGUFValue>) -> Seq<GValue>
    decreases s, 1nat,
{
    if s.len() == 0 {
        seq![]
    } else {
        values_view(s.drop_last()).push(value_view(s.last()))
    }
}


/// A value read as a `u32`: unsigned 32-bit, or a signed or 64-bit integer
/// converted with `as`.
pub open spec fn gvalue_as_u32(v: GValue) -> Option<u32> {
    match v {
        GValue::U32(x) => Some(x),
        GValue::I32(x) => Some(x as u32),
        GValue::U64(x) => Some(x as u32),
        _ => None,
    }
}

/// A value read as a `u64`.
pub open spec fn gvalue_as_u64(v: GValue) -> Option<u64> {
    match v {
        GValue::U64(x) => Some(x),
        GValue::U32(x) => Some(x as u64),
        GValue::I64(x) => Some(x as u64),
        _ => None,
    }
}

/// A value read as a string.
pub open spec fn gvalue_as_str(v: GValue) -> Option<Seq<u8>> {
    match v {
        GValue::Str(s) => Some(s),
        _ => None,
    }
}

/// A value read as a boolean.
pub open spec fn gvalue_as_bool(v: GValue) -> Option<bool> {
    match v {
        GValue::Bool(b) => Some(b),
        _ => None,
    }
}

impl GGUFValue {
    pub fn as_u32(&self) -> (r: Option<u32>)
        ensures
            r == gvalue_as_u32(value_view(*self)),
    {
        match self {
            GGUFValue::U32(v) => Some(*v),
            GGUFValue::I32(v) => Some(*v as u32),
            GGUFValue::U64(v) => Some(*v as u32),
            _ => None,
        }
    }

    pub fn as_u64(&self) -> (r: Option<u64>)
        ensures
            r == gvalue_as_u64(value_view(*self)),
    {
        match self {
            GGUFValue::U64(v) => Some(*v),
            GGUFValue::U32(v) => Some(*v as u64),
            GGUFValue::I64(v) => Some(*v as u64),
            _ => None,
        }
    }

    pub fn as_str(&self) -> (r: Option<&[u8]>)
        ensures
            match r {
                Some(s) => gvalue_as_str(value_view(*self)) == Some(s@),
                None => gvalue_as_str(value_view(*self)) is None,
            },
    {
        match self {
            GGUFValue::Str(s) => Some(s.as_slice()),
            _ => None,
        }
    }

    pub fn as_bool(&self) -> (r: Option<bool>)
        ensures
            r == gvalue_as_bool(value_view(*self)),
    {
        match self {
            GGUFValue::Bool(v) => Some(*v),
            _ => None,
        }
    }

    pub fn as_array(&self) -> (r: Option<&[GGUFValue]>)
        ensures
            match r {
                Some(a) => value_view(*self) == GValue::Array(values_view(a@)),
                None => !(value_view(*self) is Array),
            },
    {
        match self {
            GGUFValue::Array(v) => Some(v.as_slice()),
            _ => None,
        }
    }
}

/// Product of a list of dimensions.
pub open spec fn dims_product(d: Seq<u64>) -> nat
    decreases d.len(),
{
    if d.len() == 0 {
        1
    } else {
        dims_product(d.drop_last()) * (d.last() as nat)
    }
}

/// Every partial product of the dimensions fits in a `u64`, so computing
/// the element count does not overflow.
pub open spec fn product_fits(d: Seq<u64>) -> bool {
    forall|k: int| 0 <= k <= d.len() ==> #[trigger] dims_product(d.subrange(0, k)) <= u64::MAX
}

/// Element count of a shape: the product of its dimensions, at least 1.
pub open spec fn spec_n_elements(d: Seq<u64>) -> nat {
    if dims_product(d) == 0 {
        1
    } else {
        dims_product(d)
    }
}

/// Tensor metadata.
#[derive(Debug, Clone)]
pub struct TensorInfo {
    pub name: Vec<u8>,
    pub dims: Vec<u64>,
    pub dtype: GGMLType,
    /// Offset from the start of the data section (not from file start).
    pub offset: u64,
}

/// Mathematical model of a [`TensorInfo`].
#[verifier::ext_equal]
pub struct TensorModel {
    pub name: Seq<u8>,
    pub dims: Seq<u64>,
    pub dtype: GGMLType,
    pub offset: u64,
}

impl View for TensorInfo {
    type V = TensorModel;

    open spec fn view(&self) -> TensorModel {
        TensorModel { name: self.name@, dims: self.dims@, dtype: self.dtype, offset: self.offset }
    }
}

/// Byte size of a tensor.
pub open spec fn spec_byte_size(t: TensorModel) -> nat {
    spec_tensor_bytes(t.dtype, spec_n_elements(t.dims))
}

impl TensorInfo {
    /// Total number of elements in this tensor.
    pub fn n_elements(&self) -> (r: u64)
        requires
            product_fits(self.dims@),
        ensures
            r == spec_n_elements(self.dims@),
    {
        let mut acc: u64 = 1;
        let mut i: usize = 0;
        assert(self.dims@.subrange(0, 0) =~= seq![]);
        while i < self.dims.len()
            invariant
                0 <= i <= self.dims@.len(),
                product_fits(self.dims@),
                acc == dims_product(self.dims@.subrange(0, i as int)),
            decreases self.dims.len() - i,
        {
            assert(self.dims@.subrange(0, i + 1).drop_last() =~= self.dims@.subrange(0, i as int));
            assert(dims_product(self.dims@.subrange(0, i + 1)) <= u64::MAX);
            acc = acc * self.dims[i];
            i = i + 1;
        }
        assert(self.dims@.subrange(0, i as int) =~= self.dims@);
        if acc == 0 {
            1
        } else {
            acc
        }
    }

    /// Total bytes occupied by this tensor.
    pub fn byte_size(&self) -> (r: u64)
        requires
            product_fits(self.dims@),
            spec_byte_size(self@) <= u64::MAX,
        ensures
            r == spec_byte_size(self@),
    {
        self.dtype.tensor_bytes(self.n_elements())
    }
}


/// Little-endian value of the two bytes at `i`.
pub open spec fn le_u16(b: Seq<u8>, i: int) -> nat {
    b[i] as nat + 256 * (b[i + 1] as nat)
}

/// Little-endian value of the four bytes at `i`.
pub open spec fn le_u32(b: Seq<u8>, i: int) -> nat {
    le_u16(b, i) + 65536 * le_u16(b, i + 2)
}

/// Little-endian value of the eight bytes at `i`.
pub open spec fn le_u64(b: Seq<u8>, i: int) -> nat {
    le_u32(b, i) + 4294967296 * le_u32(b, i + 4)
}

/// A byte read as two's complement.
pub open spec fn to_i8(u: u8) -> i8 {
    if u >= 128 {
        (u - 256) as i8
    } else {
        u as i8
    }
}

/// Sixteen bits read as two's complement.
pub open spec fn to_i16(u: nat) -> i16 {
    if u >= 0x8000 {
        (u - 0x1_0000) as i16
    } else {
        u as i16
    }
}

/// Thirty-two bits read as two's complement.
pub open spec fn to_i32(u: nat) -> i32 {
    if u >= 0x8000_0000 {
        (u - 0x1_0000_0000) as i32
    } else {
        u as i32
    }
}

/// Sixty-four bits read as two's complement.
pub open spec fn to_i64(u: nat) -> i64 {
    if u >= 0x8000_0000_0000_0000 {
        (u - 0x1_0000_0000_0000_0000) as i64
    } else {
        u as i64
    }
}

/// A length-prefixed string at `pos`: a `u64` length, then the bytes.
pub open spec fn dec_string(b: Seq<u8>, pos: nat) -> Result<(Seq<u8>, nat), GGUFError> {
    if pos + 8 > b.len() {
        Err(GGUFError::Truncated)
    } else {
        let n = ((le_u64(b, pos as int) as u64) as usize) as nat;
        if pos + 8 + n > b.len() {
            Err(GGUFError::Truncated)
        } else {
            Ok((utf8_lossy(b.subrange(pos + 8int, pos + 8int + n)), pos + 8 + n))
        }
    }
}

/// A fixed-width scalar of `n` bytes at `pos`, or `Truncated`.
pub open spec fn fits(b: Seq<u8>, pos: nat, n: nat) -> bool {
    pos + n <= b.len()
}

/// The metadata value of type tag `vtype` at `pos`, and where it ends.
pub open spec fn dec_value(b: Seq<u8>, pos: nat, vtype: u32) -> Result<(GValue, nat), GGUFError>
    decreases b.len() - pos, 0nat, 0nat,
{
    if pos > b.len() {
        Err(GGUFError::Truncated)
    } else if vtype == 0 {
        if fits(b, pos, 1) { Ok((GValue::U8(b[pos as int]), pos + 1)) } else { Err(GGUFError::Truncated) }
    } else if vtype == 1 {
        if fits(b, pos, 1) { Ok((GValue::I8(to_i8(b[pos as int])), pos + 1)) } else { Err(GGUFError::Truncated) }
    } else if vtype == 2 {
        if fits(b, pos, 2) { Ok((GValue::U16(le_u16(b, pos as int) as u16), pos + 2)) } else { Err(GGUFError::Truncated) }
    } else if vtype == 3 {
        if fits(b, pos, 2) { Ok((GValue::I16(to_i16(le_u16(b, pos as int))), pos + 2)) } else { Err(GGUFError::Truncated) }
    } else if vtype == 4 {
        if fits(b, pos, 4) { Ok((GValue::U32(le_u32(b, pos as int) as u32), pos + 4)) } else { Err(GGUFError::Truncated) }
    } else if vtype == 5 {
        if fits(b, pos, 4) { Ok((GValue::I32(to_i32(le_u32(b, pos as int))), pos + 4)) } else { Err(GGUFError::Truncated) }
    } else if vtype == 6 {
        if fits(b, pos, 4) { Ok((GValue::F32(le_u32(b, pos as int) as u32), pos + 4)) } else { Err(GGUFError::Truncated) }
    } else if vtype == 7 {
        if fits(b, pos, 1) { Ok((GValue::Bool(b[pos as int] != 0), pos + 1)) } else { Err(GGUFError::Truncated) }
    } else if vtype == 8 {
        match dec_string(b, pos) {
            Ok((s, p)) => Ok((GValue::Str(s), p)),
            Err(e) => Err(e),
        }
    } else if vtype == 9 {
        if !fits(b, pos, 12) {
            Err(GGUFError::Truncated)
        } else {
            let et = le_u32(b, pos as int) as u32;
            let count = ((le_u64(b, pos + 4int) as u64) as usize) as nat;
            match dec_array(b, pos + 12, et, count) {
                Ok((vs, p)) => Ok((GValue::Array(vs), p)),
                Err(e) => Err(e),
            }
        }
    } else if vtype == 10 {
        if fits(b, pos, 8) { Ok((GValue::U64(le_u64(b, pos as int) as u64), pos + 8)) } else { Err(GGUFError::Truncated) }
    } else if vtype == 11 {
        if fits(b, pos, 8) { Ok((GValue::I64(to_i64(le_u64(b, pos as int))), pos + 8)) } else { Err(GGUFError::Truncated) }
    } else if vtype == 12 {
        if fits(b, pos, 8) { Ok((GValue::F64(le_u64(b, pos as int) as u64), pos + 8)) } else { Err(GGUFError::Truncated) }
    } else {
        Err(GGUFError::InvalidValueType)
    }
}

/// `count` values of type `et` from `pos`, and where they end.
pub open spec fn dec_array(b: Seq<u8>, pos: nat, et: u32, count: nat) -> Result<
    (Seq<GValue>, nat),
    GGUFError,
>
    decreases b.len() - pos, 1nat, count,
{
    if pos > b.len() {
        Err(GGUFError::Truncated)
    } else if count == 0 {
        Ok((seq![], pos))
    } else {
        match dec_value(b, pos, et) {
            Err(e) => Err(e),
            Ok((v, p)) => if p < pos || p > b.len() {
                Err(GGUFError::Truncated)
            } else {
                match dec_array(b, p, et, (count - 1) as nat) {
                    Ok((vs, q)) => Ok((seq![v] + vs, q)),
                    Err(e) => Err(e),
                }
            },
        }
    }
}

/// Decoding never moves backwards nor past the end.
pub proof fn lemma_dec_value_bounds(b: Seq<u8>, pos: nat, vtype: u32)
    ensures
        dec_value(b, pos, vtype) matches Ok((_, p)) ==> pos <= p <= b.len(),
    decreases b.len() - pos, 0nat, 0nat,
{
    if pos <= b.len() && vtype == 9 && fits(b, pos, 12) {
        let et = le_u32(b, pos as int) as u32;
        let count = ((le_u64(b, pos + 4int) as u64) as usize) as nat;
        lemma_dec_array_bounds(b, pos + 12, et, count);
    }
}

pub proof fn lemma_dec_array_bounds(b: Seq<u8>, pos: nat, et: u32, count: nat)
    ensures
        dec_array(b, pos, et, count) matches Ok((_, p)) ==> pos <= p <= b.len(),
    decreases b.len() - pos, 1nat, count,
{
    if pos <= b.len() && count > 0 {
        lemma_dec_value_bounds(b, pos, et);
        if let Ok((v, p)) = dec_value(b, pos, et) {
            lemma_dec_array_bounds(b, p, et, (count - 1) as nat);
        }
    }
}


/// Little-endian `u16` at `i` of a slice.
fn read_le16(b: &[u8], i: usize) -> (r: u16)
    requires
        i + 2 <= b@.len(),
    ensures
        r as nat == le_u16(b@, i as int),
{
    (b[i] as u16) + (b[i + 1] as u16) * 256
}

/// Little-endian `u32` at `i` of a slice.
fn read_le32(b: &[u8], i: usize) -> (r: u32)
    requires
        i + 4 <= b@.len(),
    ensures
        r as nat == le_u32(b@, i as int),
{
    let _n = b.len();
    (read_le16(b, i) as u32) + (read_le16(b, i + 2) as u32) * 65536
}

/// Little-endian `u64` at `i` of a slice.
fn read_le64(b: &[u8], i: usize) -> (r: u64)
    requires
        i + 8 <= b@.len(),
    ensures
        r as nat == le_u64(b@, i as int),
{
    let _n = b.len();
    (read_le32(b, i) as u64) + (read_le32(b, i + 4) as u64) * 4294967296
}

/// A cursor over the bytes of a model file.
pub struct Reader<'a> {
    pub buf: &'a [u8],
    pub pos: usize,
}

impl<'a> Reader<'a> {
    pub fn new(buf: &'a [u8]) -> (r: Self)
        ensures
            r.buf@ == buf@,
            r.pos == 0,
    {
        Reader { buf, pos: 0 }
    }

    /// Bytes left to read.
    pub fn remaining(&self) -> (r: usize)
        ensures
            r == (if self.pos <= self.buf@.len() {
                self.buf@.len() - self.pos
            } else {
                0
            }),
    {
        if self.pos <= self.buf.len() {
            self.buf.len() - self.pos
        } else {
            0
        }
    }

    /// The next `n` bytes.
    pub fn read_bytes(&mut self, n: usize) -> (r: Result<&'a [u8], GGUFError>)
        requires
            old(self).pos <= old(self).buf@.len(),
        ensures
            final(self).buf@ == old(self).buf@,
            final(self).pos <= final(self).buf@.len(),
            match r {
                Ok(s) => old(self).pos + n <= old(self).buf@.len() && final(self).pos == old(
                    self,
                ).pos + n && s@ == old(self).buf@.subrange(
                    old(self).pos as int,
                    old(self).pos + n,
                ),
                Err(e) => e == GGUFError::Truncated && old(self).pos + n > old(self).buf@.len()
                    && final(self).pos == old(self).pos,
            },
    {
        let _len = self.buf.len();
        if self.remaining() < n {
            return Err(GGUFError::Truncated);
        }
        let start = self.pos;
        self.pos = self.pos + n;
        Ok(vstd::slice::slice_subrange(self.buf, start, start + n))
    }

    fn u8(&mut self) -> (r: Result<u8, GGUFError>)
        requires
            old(self).pos <= old(self).buf@.len(),
        ensures
            final(self).buf@ == old(self).buf@,
            final(self).pos <= final(self).buf@.len(),
            match r {
                Ok(v) => fits(old(self).buf@, old(self).pos as nat, 1) && final(self).pos == old(self).pos + 1
                    && v == old(self).buf@[old(self).pos as int],
                Err(e) => e == GGUFError::Truncated && !fits(old(self).buf@, old(self).pos as nat, 1)
                    && final(self).pos == old(self).pos,
            },
    {
        let b = match self.read_bytes(1) {
            Ok(b) => b,
            Err(e) => return Err(e),
        };
        Ok(b[0])
    }

    fn i8(&mut self) -> (r: Result<i8, GGUFError>)
        requires
            old(self).pos <= old(self).buf@.len(),
        ensures
            final(self).buf@ == old(self).buf@,
            final(self).pos <= final(self).buf@.len(),
            match r {
                Ok(v) => fits(old(self).buf@, old(self).pos as nat, 1) && final(self).pos == old(self).pos + 1
                    && v == to_i8(old(self).buf@[old(self).pos as int]),
                Err(e) => e == GGUFError::Truncated && !fits(old(self).buf@, old(self).pos as nat, 1)
                    && final(self).pos == old(self).pos,
            },
    {
        let b = match self.read_bytes(1) {
            Ok(b) => b,
            Err(e) => return Err(e),
        };
        let u = b[0];
        if u >= 128 {
            Ok((u as i16 - 256) as i8)
        } else {
            Ok(u as i8)
        }
    }

    fn u16(&mut self) -> (r: Result<u16, GGUFError>)
        requires
            old(self).pos <= old(self).buf@.len(),
        ensures
            final(self).buf@ == old(self).buf@,
            final(self).pos <= final(self).buf@.len(),
            match r {
                Ok(v) => fits(old(self).buf@, old(self).pos as nat, 2) && final(self).pos == old(self).pos + 2
                    && v as nat == le_u16(old(self).buf@, old(self).pos as int),
                Err(e) => e == GGUFError::Truncated && !fits(old(self).buf@, old(self).pos as nat, 2)
                    && final(self).pos == old(self).pos,
            },
    {
        let b = match self.read_bytes(2) {
            Ok(b) => b,
            Err(e) => return Err(e),
        };
        Ok(read_le16(b, 0))
    }

    fn i16(&mut self) -> (r: Result<i16, GGUFError>)
        requires
            old(self).pos <= old(self).buf@.len(),
        ensures
            final(self).buf@ == old(self).buf@,
            final(self).pos <= final(self).buf@.len(),
            match r {
                Ok(v) => fits(old(self).buf@, old(self).pos as nat, 2) && final(self).pos == old(self).pos + 2
                    && v == to_i16(le_u16(old(self).buf@, old(self).pos as int)),
                Err(e) => e == GGUFError::Truncated && !fits(old(self).buf@, old(self).pos as nat, 2)
                    && final(self).pos == old(self).pos,
            },
    {
        let b = match self.read_bytes(2) {
            Ok(b) => b,
            Err(e) => return Err(e),
        };
        let u = read_le16(b, 0);
        if u >= 0x8000 {
            Ok((u as i32 - 0x1_0000) as i16)
        } else {
            Ok(u as i16)
        }
    }

    fn u32(&mut self) -> (r: Result<u32, GGUFError>)
        requires
            old(self).pos <= old(self).buf@.len(),
        ensures
            final(self).buf@ == old(self).buf@,
            final(self).pos <= final(self).buf@.len(),
            match r {
                Ok(v) => fits(old(self).buf@, old(self).pos as nat, 4) && final(self).pos == old(self).pos + 4
                    && v as nat == le_u32(old(self).buf@, old(self).pos as int),
                Err(e) => e == GGUFError::Truncated && !fits(old(self).buf@, old(self).pos as nat, 4)
                    && final(self).pos == old(self).pos,
            },
    {
        let b = match self.read_bytes(4) {
            Ok(b) => b,
            Err(e) => return Err(e),
        };
        Ok(read_le32(b, 0))
    }

    fn i32(&mut self) -> (r: Result<i32, GGUFError>)
        requires
            old(self).pos <= old(self).buf@.len(),
        ensures
            final(self).buf@ == old(self).buf@,
            final(self).pos <= final(self).buf@.len(),
            match r {
                Ok(v) => fits(old(self).buf@, old(self).pos as nat, 4) && final(self).pos == old(self).pos + 4
                    && v == to_i32(le_u32(old(self).buf@, old(self).pos as int)),
                Err(e) => e == GGUFError::Truncated && !fits(old(self).buf@, old(self).pos as nat, 4)
                    && final(self).pos == old(self).pos,
            },
    {
        let b = match self.read_bytes(4) {
            Ok(b) => b,
            Err(e) => return Err(e),
        };
        let u = read_le32(b, 0);
        if u >= 0x8000_0000 {
            Ok((u as i64 - 0x1_0000_0000) as i32)
        } else {
            Ok(u as i32)
        }
    }

    fn u64(&mut self) -> (r: Result<u64, GGUFError>)
        requires
            old(self).pos <= old(self).buf@.len(),
        ensures
            final(self).buf@ == old(self).buf@,
            final(self).pos <= final(self).buf@.len(),
            match r {
                Ok(v) => fits(old(self).buf@, old(self).pos as nat, 8) && final(self).pos == old(self).pos + 8
                    && v as nat == le_u64(old(self).buf@, old(self).pos as int),
                Err(e) => e == GGUFError::Truncated && !fits(old(self).buf@, old(self).pos as nat, 8)
                    && final(self).pos == old(self).pos,
            },
    {
        let b = match self.read_bytes(8) {
            Ok(b) => b,
            Err(e) => return Err(e),
        };
        Ok(read_le64(b, 0))
    }

    fn i64(&mut self) -> (r: Result<i64, GGUFError>)
        requires
            old(self).pos <= old(self).buf@.len(),
        ensures
            final(self).buf@ == old(self).buf@,
            final(self).pos <= final(self).buf@.len(),
            match r {
                Ok(v) => fits(old(self).buf@, old(self).pos as nat, 8) && final(self).pos == old(self).pos + 8
                    && v == to_i64(le_u64(old(self).buf@, old(self).pos as int)),
                Err(e) => e == GGUFError::Truncated && !fits(old(self).buf@, old(self).pos as nat, 8)
                    && final(self).pos == old(self).pos,
            },
    {
        let b = match self.read_bytes(8) {
            Ok(b) => b,
            Err(e) => return Err(e),
        };
        let u = read_le64(b, 0);
        if u >= 0x8000_0000_0000_0000 {
            Ok((u as i128 - 0x1_0000_0000_0000_0000) as i64)
        } else {
            Ok(u as i64)
        }
    }

    fn f32_bits(&mut self) -> (r: Result<u32, GGUFError>)
        requires
            old(self).pos <= old(self).buf@.len(),
        ensures
            final(self).buf@ == old(self).buf@,
            final(self).pos <= final(self).buf@.len(),
            match r {
                Ok(v) => fits(old(self).buf@, old(self).pos as nat, 4) && final(self).pos == old(self).pos + 4
                    && v as nat == le_u32(old(self).buf@, old(self).pos as int),
                Err(e) => e == GGUFError::Truncated && !fits(old(self).buf@, old(self).pos as nat, 4)
                    && final(self).pos == old(self).pos,
            },
    {
        let b = match self.read_bytes(4) {
            Ok(b) => b,
            Err(e) => return Err(e),
        };
        Ok(read_le32(b, 0))
    }

    fn f64_bits(&mut self) -> (r: Result<u64, GGUFError>)
        requires
            old(self).pos <= old(self).buf@.len(),
        ensures
            final(self).buf@ == old(self).buf@,
            final(self).pos <= final(self).buf@.len(),
            match r {
                Ok(v) => fits(old(self).buf@, old(self).pos as nat, 8) && final(self).pos == old(self).pos + 8
                    && v as nat == le_u64(old(self).buf@, old(self).pos as int),
                Err(e) => e == GGUFError::Truncated && !fits(old(self).buf@, old(self).pos as nat, 8)
                    && final(self).pos == old(self).pos,
            },
    {
        let b = match self.read_bytes(8) {
            Ok(b) => b,
            Err(e) => return Err(e),
        };
        Ok(read_le64(b, 0))
    }

    /// A length-prefixed string.
    fn gguf_string(&mut self) -> (r: Result<Vec<u8>, GGUFError>)
        requires
            old(self).pos <= old(self).buf@.len(),
        ensures
            final(self).buf@ == old(self).buf@,
            final(self).pos <= final(self).buf@.len(),
            match r {
                Ok(s) => dec_string(old(self).buf@, old(self).pos as nat) == Ok::<
                    (Seq<u8>, nat),
                    GGUFError,
                >((s@, final(self).pos as nat)),
                Err(e) => dec_string(old(self).buf@, old(self).pos as nat) == Err::<
                    (Seq<u8>, nat),
                    GGUFError,
                >(e),
            },
    {
        let len = match self.u64() {
            Ok(v) => v as usize,
            Err(e) => return Err(e),
        };
        let bytes = match self.read_bytes(len) {
            Ok(b) => b,
            Err(e) => return Err(e),
        };
        Ok(lossy_text(bytes))
    }

    /// A metadata value of the given type tag.
    fn gguf_value(&mut self, vtype: u32) -> (r: Result<GGUFValue, GGUFError>)
        requires
            old(self).pos <= old(self).buf@.len(),
        ensures
            final(self).buf@ == old(self).buf@,
            final(self).pos <= final(self).buf@.len(),
            match r {
                Ok(v) => dec_value(old(self).buf@, old(self).pos as nat, vtype) == Ok::<
                    (GValue, nat),
                    GGUFError,
                >((value_view(v), final(self).pos as nat)),
                Err(e) => dec_value(old(self).buf@, old(self).pos as nat, vtype) == Err::<
                    (GValue, nat),
                    GGUFError,
                >(e),
            },
        decreases old(self).buf@.len() - old(self).pos, 0nat,
    {
        match vtype {
            0 => match self.u8() {
                Ok(v) => Ok(GGUFValue::U8(v)),
                Err(e) => Err(e),
            },
            1 => match self.i8() {
                Ok(v) => Ok(GGUFValue::I8(v)),
                Err(e) => Err(e),
            },
            2 => match self.u16() {
                Ok(v) => Ok(GGUFValue::U16(v)),
                Err(e) => Err(e),
            },
            3 => match self.i16() {
                Ok(v) => Ok(GGUFValue::I16(v)),
                Err(e) => Err(e),
            },
            4 => match self.u32() {
                Ok(v) => Ok(GGUFValue::U32(v)),
                Err(e) => Err(e),
            },
            5 => match self.i32() {
                Ok(v) => Ok(GGUFValue::I32(v)),
                Err(e) => Err(e),
            },
            6 => match self.f32_bits() {
                Ok(v) => Ok(GGUFValue::F32(v)),
                Err(e) => Err(e),
            },
            7 => match self.u8() {
                Ok(b) => Ok(GGUFValue::Bool(b != 0)),
                Err(e) => Err(e),
            },
            8 => match self.gguf_string() {
                Ok(s) => Ok(GGUFValue::Str(s)),
                Err(e) => Err(e),
            },
            9 => {
                let ghost b = self.buf@;
                let ghost p0 = self.pos as nat;
                let elem_type = match self.u32() {
                    Ok(v) => v,
                    Err(e) => return Err(e),
                };
                let count = match self.u64() {
                    Ok(v) => v as usize,
                    Err(e) => {
                        assert(!fits(b, p0, 12));
                        return Err(e);
                    },
                };
                match self.gguf_array(elem_type, count) {
                    Ok(arr) => Ok(GGUFValue::Array(arr)),
                    Err(e) => Err(e),
                }
            },
            10 => match self.u64() {
                Ok(v) => Ok(GGUFValue::U64(v)),
                Err(e) => Err(e),
            },
            11 => match self.i64() {
                Ok(v) => Ok(GGUFValue::I64(v)),
                Err(e) => Err(e),
            },
            12 => match self.f64_bits() {
                Ok(v) => Ok(GGUFValue::F64(v)),
                Err(e) => Err(e),
            },
            _ => Err(GGUFError::InvalidValueType),
        }
    }

    /// `count` metadata values of type `elem_type`.
    fn gguf_array(&mut self, elem_type: u32, count: usize) -> (r: Result<Vec<GGUFValue>, GGUFError>)
        requires
            old(self).pos <= old(self).buf@.len(),
        ensures
            final(self).buf@ == old(self).buf@,
            final(self).pos <= final(self).buf@.len(),
            match r {
                Ok(a) => dec_array(old(self).buf@, old(self).pos as nat, elem_type, count as nat)
                    == Ok::<(Seq<GValue>, nat), GGUFError>(
                    (values_view(a@), final(self).pos as nat),
                ),
                Err(e) => dec_array(old(self).buf@, old(self).pos as nat, elem_type, count as nat)
                    == Err::<(Seq<GValue>, nat), GGUFError>(e),
            },
        decreases old(self).buf@.len() - old(self).pos, 1nat,
    {
        let ghost b = self.buf@;
        let ghost start = self.pos as nat;
        let mut arr: Vec<GGUFValue> = Vec::new();
        let mut i: usize = 0;
        assert(values_view(arr@) =~= seq![]);
        assert(prepend_values(seq![], dec_array(b, start, elem_type, count as nat)) == dec_array(
            b,
            start,
            elem_type,
            count as nat,
        )) by {
            if let Ok((vs, q)) = dec_array(b, start, elem_type, count as nat) {
                assert(seq![] + vs =~= vs);
            }
        }
        while i < count
            invariant
                self.buf@ == b,
                b == old(self).buf@,
                start == old(self).pos,
                self.pos <= b.len(),
                start <= self.pos,
                i <= count,
                dec_array(b, start, elem_type, count as nat) == prepend_values(
                    values_view(arr@),
                    dec_array(b, self.pos as nat, elem_type, (count - i) as nat),
                ),
            decreases count - i,
        {
            let ghost before = self.pos as nat;
            let ghost a0 = arr@;
            let ghost n_old = (count - i) as nat;
            match self.gguf_value(elem_type) {
                Ok(v) => {
                    proof {
                        lemma_dec_value_bounds(b, before, elem_type);
                        assert(dec_array(b, before, elem_type, n_old) == prepend_values(
                            seq![value_view(v)],
                            dec_array(b, self.pos as nat, elem_type, (n_old - 1) as nat),
                        ));
                    }
                    arr.push(v);
                    proof {
                        assert(arr@.drop_last() =~= a0);
                        assert(values_view(arr@) =~= values_view(a0).push(value_view(v)));
                        let rest = dec_array(b, self.pos as nat, elem_type, (n_old - 1) as nat);
                        if let Ok((vs, q)) = rest {
                            assert(values_view(a0) + (seq![value_view(v)] + vs) =~= values_view(
                                arr@,
                            ) + vs);
                        }
                    }
                },
                Err(e) => return Err(e),
            }
            i = i + 1;
        }
        assert(values_view(arr@) + seq![] =~= values_view(arr@));
        Ok(arr)
    }
}

/// `done` followed by what a decoder read next, or its error.
pub open spec fn prepend_values(done: Seq<GValue>, r: Result<(Seq<GValue>, nat), GGUFError>) -> Result<
    (Seq<GValue>, nat),
    GGUFError,
> {
    match r {
        Ok((vs, p)) => Ok((done + vs, p)),
        Err(e) => Err(e),
    }
}


/// One metadata pair at `pos`: a string key, a `u32` type tag, the value.
pub open spec fn dec_kv(b: Seq<u8>, pos: nat) -> Result<((Seq<u8>, GValue), nat), GGUFError> {
    match dec_string(b, pos) {
        Err(e) => Err(e),
        Ok((key, p)) => if !fits(b, p, 4) {
            Err(GGUFError::Truncated)
        } else {
            match dec_value(b, p + 4, le_u32(b, p as int) as u32) {
                Ok((v, q)) => Ok(((key, v), q)),
                Err(e) => Err(e),
            }
        },
    }
}

/// `count` metadata pairs from `pos`.
pub open spec fn dec_kvs(b: Seq<u8>, pos: nat, count: nat) -> Result<
    (Seq<(Seq<u8>, GValue)>, nat),
    GGUFError,
>
    decreases count,
{
    if count == 0 {
        Ok((seq![], pos))
    } else {
        match dec_kv(b, pos) {
            Err(e) => Err(e),
            Ok((kv, p)) => match dec_kvs(b, p, (count - 1) as nat) {
                Ok((rest, q)) => Ok((seq![kv] + rest, q)),
                Err(e) => Err(e),
            },
        }
    }
}

/// `n` dimensions (`u64` each) from `pos`.
pub open spec fn dec_dims(b: Seq<u8>, pos: nat, n: nat) -> Result<(Seq<u64>, nat), GGUFError>
    decreases n,
{
    if n == 0 {
        Ok((seq![], pos))
    } else if !fits(b, pos, 8) {
        Err(GGUFError::Truncated)
    } else {
        match dec_dims(b, pos + 8, (n - 1) as nat) {
            Ok((rest, q)) => Ok((seq![le_u64(b, pos as int) as u64] + rest, q)),
            Err(e) => Err(e),
        }
    }
}

/// A tensor descriptor at `pos`: name, dimension count (`u32`), dimensions,
/// type tag (`u32`) and data offset (`u64`).
pub open spec fn dec_tensor(b: Seq<u8>, pos: nat) -> Result<(TensorModel, nat), GGUFError> {
    match dec_string(b, pos) {
        Err(e) => Err(e),
        Ok((name, p)) => if !fits(b, p, 4) {
            Err(GGUFError::Truncated)
        } else {
            match dec_dims(b, p + 4, ((le_u32(b, p as int) as u32) as usize) as nat) {
                Err(e) => Err(e),
                Ok((dims, q)) => if !fits(b, q, 4) {
                    Err(GGUFError::Truncated)
                } else {
                    match spec_ggml_type(le_u32(b, q as int) as u32) {
                        None => Err(GGUFError::InvalidTensorType),
                        Some(t) => if !fits(b, q + 4, 8) {
                            Err(GGUFError::Truncated)
                        } else {
                            Ok(
                                (
                                    TensorModel {
                                        name,
                                        dims,
                                        dtype: t,
                                        offset: le_u64(b, q + 4int) as u64,
                                    },
                                    q + 12,
                                ),
                            )
                        },
                    }
                },
            }
        },
    }
}

/// `count` tensor descriptors from `pos`.
pub open spec fn dec_tensors(b: Seq<u8>, pos: nat, count: nat) -> Result<
    (Seq<TensorModel>, nat),
    GGUFError,
>
    decreases count,
{
    if count == 0 {
        Ok((seq![], pos))
    } else {
        match dec_tensor(b, pos) {
            Err(e) => Err(e),
            Ok((t, p)) => match dec_tensors(b, p, (count - 1) as nat) {
                Ok((rest, q)) => Ok((seq![t] + rest, q)),
                Err(e) => Err(e),
            },
        }
    }
}

/// The data-section alignment: the first `general.alignment` entry that
/// reads as a positive `u32`, else 32.
pub open spec fn spec_alignment(md: Seq<(Seq<u8>, GValue)>) -> nat
    decreases md.len(),
{
    if md.len() == 0 {
        32
    } else if md[0].0 == lit("general.alignment") && gvalue_as_u32(md[0].1) is Some
        && gvalue_as_u32(md[0].1).unwrap() > 0 {
        gvalue_as_u32(md[0].1).unwrap() as nat
    } else {
        spec_alignment(md.drop_first())
    }
}

/// `offset` rounded by the mask of `alignment`, as the file format's
/// reference implementation computes it.
pub open spec fn spec_align_up(offset: usize, alignment: usize) -> usize {
    ((offset + alignment - 1) as usize) & !((alignment - 1) as usize)
}

/// Rounds `offset` up to a multiple of a power-of-two `alignment`.
pub fn align_up(offset: usize, alignment: usize) -> (r: usize)
    requires
        alignment > 0,
        offset + alignment <= usize::MAX,
    ensures
        r == spec_align_up(offset, alignment),
{
    (offset + alignment - 1) & !(alignment - 1)
}

/// Mathematical model of a parsed file.
#[verifier::ext_equal]
pub struct GFileModel {
    pub version: u32,
    pub metadata: Seq<(Seq<u8>, GValue)>,
    pub tensors: Seq<TensorModel>,
    pub data_offset: nat,
}

/// The header counts and where the metadata starts.
pub open spec fn dec_header(b: Seq<u8>) -> Result<(u32, nat, nat, nat), GGUFError> {
    if !fits(b, 0, 4) {
        Err(GGUFError::Truncated)
    } else if le_u32(b, 0) != 0x46554747 {
        Err(GGUFError::InvalidMagic)
    } else if !fits(b, 4, 4) {
        Err(GGUFError::Truncated)
    } else {
        let version = le_u32(b, 4) as u32;
        if version < 2 || version > 3 {
            Err(GGUFError::UnsupportedVersion)
        } else if version >= 3 {
            if !fits(b, 8, 16) {
                Err(GGUFError::Truncated)
            } else {
                Ok((version, le_u64(b, 8), le_u64(b, 16), 24))
            }
        } else {
            if !fits(b, 8, 8) {
                Err(GGUFError::Truncated)
            } else {
                Ok((version, le_u32(b, 8), le_u32(b, 12), 16))
            }
        }
    }
}

/// What a GGUF file holds: its version, metadata, tensor descriptors and
/// the offset of its aligned data section.
pub open spec fn spec_parse_gguf(b: Seq<u8>) -> Result<GFileModel, GGUFError> {
    match dec_header(b) {
        Err(e) => Err(e),
        Ok((version, tensor_count, kv_count, pos)) => match dec_kvs(b, pos, kv_count) {
            Err(e) => Err(e),
            Ok((metadata, p)) => match dec_tensors(b, p, tensor_count) {
                Err(e) => Err(e),
                Ok((tensors, q)) => Ok(
                    GFileModel {
                        version,
                        metadata,
                        tensors,
                        data_offset: spec_align_up(q as usize, spec_alignment(metadata) as usize)
                            as nat,
                    },
                ),
            },
        },
    }
}


/// Where the tensor table of a decodable file ends, plus the alignment
/// its metadata names, fits in a `usize`: the data offset can then be
/// rounded up without overflow.
pub open spec fn offsets_fit(b: Seq<u8>) -> bool {
    match dec_header(b) {
        Ok((_, tensor_count, kv_count, pos)) => match dec_kvs(b, pos, kv_count) {
            Ok((metadata, p)) => match dec_tensors(b, p, tensor_count) {
                Ok((_, q)) => q + spec_alignment(metadata) <= usize::MAX,
                Err(_) => true,
            },
            Err(_) => true,
        },
        Err(_) => true,
    }
}

/// `done` followed by what a decoder read next, or its error.
pub open spec fn prepend_seq<T>(done: Seq<T>, r: Result<(Seq<T>, nat), GGUFError>) -> Result<
    (Seq<T>, nat),
    GGUFError,
> {
    match r {
        Ok((vs, p)) => Ok((done + vs, p)),
        Err(e) => Err(e),
    }
}

/// The models of metadata pairs.
pub open spec fn kvs_view(s: Seq<(Vec<u8>, GGUFValue)>) -> Seq<(Seq<u8>, GValue)> {
    s.map_values(|kv: (Vec<u8>, GGUFValue)| (kv.0@, value_view(kv.1)))
}

/// The models of tensor descriptors.
pub open spec fn tensors_view(s: Seq<TensorInfo>) -> Seq<TensorModel> {
    s.map_values(|t: TensorInfo| t@)
}

/// Reads one metadata pair.
fn read_kv(r: &mut Reader) -> (res: Result<(Vec<u8>, GGUFValue), GGUFError>)
    requires
        old(r).pos <= old(r).buf@.len(),
    ensures
        final(r).buf@ == old(r).buf@,
        final(r).pos <= final(r).buf@.len(),
        match res {
            Ok(kv) => dec_kv(old(r).buf@, old(r).pos as nat) == Ok::<
                ((Seq<u8>, GValue), nat),
                GGUFError,
            >(((kv.0@, value_view(kv.1)), final(r).pos as nat)),
            Err(e) => dec_kv(old(r).buf@, old(r).pos as nat) == Err::<
                ((Seq<u8>, GValue), nat),
                GGUFError,
            >(e),
        },
{
    let key = match r.gguf_string() {
        Ok(k) => k,
        Err(e) => return Err(e),
    };
    let vtype = match r.u32() {
        Ok(v) => v,
        Err(e) => return Err(e),
    };
    match r.gguf_value(vtype) {
        Ok(v) => Ok((key, v)),
        Err(e) => Err(e),
    }
}

/// Reads `n` dimensions.
fn read_dims(r: &mut Reader, n: usize) -> (res: Result<Vec<u64>, GGUFError>)
    requires
        old(r).pos <= old(r).buf@.len(),
    ensures
        final(r).buf@ == old(r).buf@,
        final(r).pos <= final(r).buf@.len(),
        match res {
            Ok(d) => dec_dims(old(r).buf@, old(r).pos as nat, n as nat) == Ok::<
                (Seq<u64>, nat),
                GGUFError,
            >((d@, final(r).pos as nat)),
            Err(e) => dec_dims(old(r).buf@, old(r).pos as nat, n as nat) == Err::<
                (Seq<u64>, nat),
                GGUFError,
            >(e),
        },
{
    let ghost b = r.buf@;
    let ghost start = r.pos as nat;
    let mut dims: Vec<u64> = Vec::new();
    let mut j: usize = 0;
    assert(prepend_seq(seq![], dec_dims(b, start, n as nat)) == dec_dims(b, start, n as nat)) by {
        if let Ok((vs, q)) = dec_dims(b, start, n as nat) {
            assert(seq![] + vs =~= vs);
        }
    }
    while j < n
        invariant
            r.buf@ == b,
            b == old(r).buf@,
            start == old(r).pos,
            r.pos <= b.len(),
            j <= n,
            dec_dims(b, start, n as nat) == prepend_seq(
                dims@,
                dec_dims(b, r.pos as nat, (n - j) as nat),
            ),
        decreases n - j,
    {
        let ghost d0 = dims@;
        let ghost before = r.pos as nat;
        match r.u64() {
            Ok(v) => {
                dims.push(v);
                proof {
                    let rest = dec_dims(b, r.pos as nat, (n - j - 1) as nat);
                    if let Ok((vs, q)) = rest {
                        assert(d0 + (seq![v] + vs) =~= dims@ + vs);
                    }
                }
            },
            Err(e) => return Err(e),
        }
        j = j + 1;
    }
    assert(dims@ + seq![] =~= dims@);
    Ok(dims)
}

/// Reads one tensor descriptor.
fn read_tensor(r: &mut Reader) -> (res: Result<TensorInfo, GGUFError>)
    requires
        old(r).pos <= old(r).buf@.len(),
    ensures
        final(r).buf@ == old(r).buf@,
        final(r).pos <= final(r).buf@.len(),
        match res {
            Ok(t) => dec_tensor(old(r).buf@, old(r).pos as nat) == Ok::<(TensorModel, nat), GGUFError>(
                (t@, final(r).pos as nat),
            ),
            Err(e) => dec_tensor(old(r).buf@, old(r).pos as nat) == Err::<
                (TensorModel, nat),
                GGUFError,
            >(e),
        },
{
    let name = match r.gguf_string() {
        Ok(s) => s,
        Err(e) => return Err(e),
    };
    let n_dims = match r.u32() {
        Ok(v) => v as usize,
        Err(e) => return Err(e),
    };
    let dims = match read_dims(r, n_dims) {
        Ok(d) => d,
        Err(e) => return Err(e),
    };
    let tag = match r.u32() {
        Ok(v) => v,
        Err(e) => return Err(e),
    };
    let dtype = match GGMLType::from_u32(tag) {
        Ok(t) => t,
        Err(e) => return Err(e),
    };
    let offset = match r.u64() {
        Ok(v) => v,
        Err(e) => return Err(e),
    };
    Ok(TensorInfo { name, dims, dtype, offset })
}

/// A parsed GGUF file, borrowing the file's bytes for tensor access.
#[derive(Debug)]
pub struct GGUFFile<'a> {
    pub version: u32,
    pub metadata: Vec<(Vec<u8>, GGUFValue)>,
    pub tensors: Vec<TensorInfo>,
    /// Offset in the file where tensor data begins.
    pub data_offset: usize,
    data: &'a [u8],
}

impl<'a> View for GGUFFile<'a> {
    type V = GFileModel;

    closed spec fn view(&self) -> GFileModel {
        GFileModel {
            version: self.version,
            metadata: kvs_view(self.metadata@),
            tensors: tensors_view(self.tensors@),
            data_offset: self.data_offset as nat,
        }
    }
}


impl<'a> GGUFFile<'a> {
    /// The bytes of the whole file.
    pub closed spec fn bytes(&self) -> Seq<u8> {
        self.data@
    }

    /// Whether the model of the file is made of its public fields.
    pub closed spec fn fields_match(&self) -> bool {
        &&& self@.version == self.version
        &&& self@.metadata == kvs_view(self.metadata@)
        &&& self@.tensors == tensors_view(self.tensors@)
        &&& self@.data_offset == self.data_offset
    }

    pub proof fn lemma_fields_match(&self)
        ensures
            self.fields_match(),
    {
    }

    /// Parses a GGUF file from a raw byte buffer.
    pub fn parse(data: &'a [u8]) -> (r: Result<Self, GGUFError>)
        requires
            offsets_fit(data@),
        ensures
            match r {
                Ok(f) => spec_parse_gguf(data@) == Ok::<GFileModel, GGUFError>(f@) && f.bytes()
                    == data@ && f.fields_match(),
                Err(e) => spec_parse_gguf(data@) == Err::<GFileModel, GGUFError>(e),
            },
    {
        let mut r = Reader::new(data);
        let magic = match r.u32() {
            Ok(v) => v,
            Err(e) => return Err(e),
        };
        if magic != 0x46554747 {
            return Err(GGUFError::InvalidMagic);
        }
        let version = match r.u32() {
            Ok(v) => v,
            Err(e) => return Err(e),
        };
        if version < 2 || version > 3 {
            return Err(GGUFError::UnsupportedVersion);
        }
        let tensor_count: u64;
        let kv_count: u64;
        if version >= 3 {
            tensor_count = match r.u64() {
                Ok(v) => v,
                Err(e) => return Err(e),
            };
            kv_count = match r.u64() {
                Ok(v) => v,
                Err(e) => return Err(e),
            };
        } else {
            tensor_count = match r.u32() {
                Ok(v) => v as u64,
                Err(e) => return Err(e),
            };
            kv_count = match r.u32() {
                Ok(v) => v as u64,
                Err(e) => return Err(e),
            };
        }
        let ghost b = data@;
        let ghost md_start = r.pos as nat;
        assert(dec_header(b) == Ok::<(u32, nat, nat, nat), GGUFError>(
            (version, tensor_count as nat, kv_count as nat, md_start),
        ));
        let mut metadata: Vec<(Vec<u8>, GGUFValue)> = Vec::new();
        let mut i: u64 = 0;
        assert(prepend_seq(seq![], dec_kvs(b, md_start, kv_count as nat)) == dec_kvs(
            b,
            md_start,
            kv_count as nat,
        )) by {
            if let Ok((vs, q)) = dec_kvs(b, md_start, kv_count as nat) {
                assert(seq![] + vs =~= vs);
            }
        }
        assert(kvs_view(metadata@) =~= seq![]);
        while i < kv_count
            invariant
                b == data@,
                dec_header(b) == Ok::<(u32, nat, nat, nat), GGUFError>(
                    (version, tensor_count as nat, kv_count as nat, md_start),
                ),
                r.buf@ == b,
                r.pos <= b.len(),
                i <= kv_count,
                dec_kvs(b, md_start, kv_count as nat) == prepend_seq(
                    kvs_view(metadata@),
                    dec_kvs(b, r.pos as nat, (kv_count - i) as nat),
                ),
            decreases kv_count - i,
        {
            let ghost m0 = metadata@;
            match read_kv(&mut r) {
                Ok(kv) => {
                    let ghost kvv = (kv.0@, value_view(kv.1));
                    metadata.push(kv);
                    proof {
                        assert(kvs_view(metadata@) =~= kvs_view(m0).push(kvv));
                        let rest = dec_kvs(b, r.pos as nat, (kv_count - i - 1) as nat);
                        if let Ok((vs, q)) = rest {
                            assert(kvs_view(m0) + (seq![kvv] + vs) =~= kvs_view(metadata@) + vs);
                        }
                    }
                },
                Err(e) => return Err(e),
            }
            i = i + 1;
        }
        assert(kvs_view(metadata@) + seq![] =~= kvs_view(metadata@));
        let ghost t_start = r.pos as nat;
        let mut tensors: Vec<TensorInfo> = Vec::new();
        let mut k: u64 = 0;
        assert(prepend_seq(seq![], dec_tensors(b, t_start, tensor_count as nat)) == dec_tensors(
            b,
            t_start,
            tensor_count as nat,
        )) by {
            if let Ok((vs, q)) = dec_tensors(b, t_start, tensor_count as nat) {
                assert(seq![] + vs =~= vs);
            }
        }
        assert(tensors_view(tensors@) =~= seq![]);
        while k < tensor_count
            invariant
                b == data@,
                dec_header(b) == Ok::<(u32, nat, nat, nat), GGUFError>(
                    (version, tensor_count as nat, kv_count as nat, md_start),
                ),
                dec_kvs(b, md_start, kv_count as nat) == Ok::<
                    (Seq<(Seq<u8>, GValue)>, nat),
                    GGUFError,
                >((kvs_view(metadata@), t_start)),
                r.buf@ == b,
                r.pos <= b.len(),
                k <= tensor_count,
                dec_tensors(b, t_start, tensor_count as nat) == prepend_seq(
                    tensors_view(tensors@),
                    dec_tensors(b, r.pos as nat, (tensor_count - k) as nat),
                ),
            decreases tensor_count - k,
        {
            let ghost t0 = tensors@;
            match read_tensor(&mut r) {
                Ok(t) => {
                    let ghost tv = t@;
                    tensors.push(t);
                    proof {
                        assert(tensors_view(tensors@) =~= tensors_view(t0).push(tv));
                        let rest = dec_tensors(b, r.pos as nat, (tensor_count - k - 1) as nat);
                        if let Ok((vs, q)) = rest {
                            assert(tensors_view(t0) + (seq![tv] + vs) =~= tensors_view(tensors@)
                                + vs);
                        }
                    }
                },
                Err(e) => return Err(e),
            }
            k = k + 1;
        }
        assert(tensors_view(tensors@) + seq![] =~= tensors_view(tensors@));
        let alignment = find_alignment(metadata.as_slice());
        let data_offset = align_up(r.pos, alignment);
        Ok(GGUFFile { version, metadata, tensors, data_offset, data })
    }
}

/// The alignment named by the metadata.
fn find_alignment(metadata: &[(Vec<u8>, GGUFValue)]) -> (r: usize)
    ensures
        r == spec_alignment(kvs_view(metadata@)),
        0 < r <= 0xFFFF_FFFF,
{
    proof {
        reveal_strlit("general.alignment");
    }
    let key = crate::text::ascii_bytes("general.alignment");
    let mut i: usize = 0;
    assert(kvs_view(metadata@).subrange(0, metadata@.len() as int) =~= kvs_view(metadata@));
    while i < metadata.len()
        invariant
            0 <= i <= metadata@.len(),
            key@ == lit("general.alignment"),
            spec_alignment(kvs_view(metadata@)) == spec_alignment(
                kvs_view(metadata@).subrange(i as int, metadata@.len() as int),
            ),
        decreases metadata.len() - i,
    {
        let ghost rest = kvs_view(metadata@).subrange(i as int, metadata@.len() as int);
        assert(rest[0] == (metadata@[i as int].0@, value_view(metadata@[i as int].1)));
        assert(rest.drop_first() =~= kvs_view(metadata@).subrange(i + 1, metadata@.len() as int));
        let (k, v) = &metadata[i];
        if bytes_eq(k.as_slice(), key.as_slice()) {
            match v.as_u32() {
                Some(a) => {
                    if a > 0 {
                        return a as usize;
                    }
                },
                None => {},
            }
        }
        i = i + 1;
    }
    32
}


/// The value of the first metadata pair with this key.
pub open spec fn lookup(md: Seq<(Seq<u8>, GValue)>, key: Seq<u8>) -> Option<GValue>
    decreases md.len(),
{
    if md.len() == 0 {
        None
    } else if md[0].0 == key {
        Some(md[0].1)
    } else {
        lookup(md.drop_first(), key)
    }
}

/// The first tensor with this name.
pub open spec fn first_tensor(ts: Seq<TensorModel>, name: Seq<u8>) -> Option<TensorModel>
    decreases ts.len(),
{
    if ts.len() == 0 {
        None
    } else if ts[0].name == name {
        Some(ts[0])
    } else {
        first_tensor(ts.drop_first(), name)
    }
}

/// The size and offset of a tensor can be computed without overflow.
pub open spec fn tensor_extent_ok(data_offset: nat, t: TensorModel) -> bool {
    &&& product_fits(t.dims)
    &&& spec_byte_size(t) <= u64::MAX
    &&& data_offset + (t.offset as usize) + ((spec_byte_size(t) as u64) as usize) <= usize::MAX
}

/// Start of a tensor's bytes in the file.
pub open spec fn tensor_start(data_offset: nat, t: TensorModel) -> nat {
    data_offset + ((t.offset as usize) as nat)
}

/// End of a tensor's bytes in the file.
pub open spec fn tensor_end(data_offset: nat, t: TensorModel) -> nat {
    tensor_start(data_offset, t) + (((spec_byte_size(t) as u64) as usize) as nat)
}

impl<'a> GGUFFile<'a> {
    /// Looks up a metadata value by key.
    pub fn get_metadata(&self, key: &[u8]) -> (r: Option<&GGUFValue>)
        ensures
            match r {
                Some(v) => lookup(self@.metadata, key@) == Some(value_view(*v)),
                None => lookup(self@.metadata, key@) is None,
            },
    {
        let ghost md = kvs_view(self.metadata@);
        let mut i: usize = 0;
        assert(md.subrange(0, md.len() as int) =~= md);
        while i < self.metadata.len()
            invariant
                0 <= i <= self.metadata@.len(),
                md == kvs_view(self.metadata@),
                md == self@.metadata,
                lookup(md, key@) == lookup(md.subrange(i as int, md.len() as int), key@),
            decreases self.metadata.len() - i,
        {
            let ghost rest = md.subrange(i as int, md.len() as int);
            assert(rest[0] == (self.metadata@[i as int].0@, value_view(self.metadata@[i as int].1)));
            assert(rest.drop_first() =~= md.subrange(i + 1, md.len() as int));
            if bytes_eq(self.metadata[i].0.as_slice(), key) {
                return Some(&self.metadata[i].1);
            }
            i = i + 1;
        }
        None
    }

    pub fn get_str(&self, key: &[u8]) -> (r: Option<&[u8]>)
        ensures
            match r {
                Some(s) => lookup(self@.metadata, key@) == Some(GValue::Str(s@)),
                None => !(lookup(self@.metadata, key@) matches Some(GValue::Str(_))),
            },
    {
        match self.get_metadata(key) {
            Some(v) => v.as_str(),
            None => None,
        }
    }

    pub fn get_u32(&self, key: &[u8]) -> (r: Option<u32>)
        ensures
            r == (match lookup(self@.metadata, key@) {
                Some(v) => gvalue_as_u32(v),
                None => None,
            }),
    {
        match self.get_metadata(key) {
            Some(v) => v.as_u32(),
            None => None,
        }
    }

    pub fn get_u64(&self, key: &[u8]) -> (r: Option<u64>)
        ensures
            r == (match lookup(self@.metadata, key@) {
                Some(v) => gvalue_as_u64(v),
                None => None,
            }),
    {
        match self.get_metadata(key) {
            Some(v) => v.as_u64(),
            None => None,
        }
    }

    pub fn get_bool(&self, key: &[u8]) -> (r: Option<bool>)
        ensures
            r == (match lookup(self@.metadata, key@) {
                Some(v) => gvalue_as_bool(v),
                None => None,
            }),
    {
        match self.get_metadata(key) {
            Some(v) => v.as_bool(),
            None => None,
        }
    }

    /// Finds a tensor descriptor by name.
    pub fn find_tensor(&self, name: &[u8]) -> (r: Option<&TensorInfo>)
        ensures
            match r {
                Some(t) => first_tensor(self@.tensors, name@) == Some(t@),
                None => first_tensor(self@.tensors, name@) is None,
            },
    {
        let ghost ts = tensors_view(self.tensors@);
        let mut i: usize = 0;
        assert(ts.subrange(0, ts.len() as int) =~= ts);
        while i < self.tensors.len()
            invariant
                0 <= i <= self.tensors@.len(),
                ts == tensors_view(self.tensors@),
                ts == self@.tensors,
                first_tensor(ts, name@) == first_tensor(ts.subrange(i as int, ts.len() as int), name@),
            decreases self.tensors.len() - i,
        {
            let ghost rest = ts.subrange(i as int, ts.len() as int);
            assert(rest[0] == self.tensors@[i as int]@);
            assert(rest.drop_first() =~= ts.subrange(i + 1, ts.len() as int));
            if bytes_eq(self.tensors[i].name.as_slice(), name) {
                return Some(&self.tensors[i]);
            }
            i = i + 1;
        }
        None
    }

    /// The raw bytes of a tensor, a slice of the file.
    pub fn tensor_data(&self, info: &TensorInfo) -> (r: Result<&'a [u8], GGUFError>)
        requires
            tensor_extent_ok(self@.data_offset, info@),
        ensures
            match r {
                Ok(d) => tensor_end(self@.data_offset, info@) <= self.bytes().len() && d@
                    == self.bytes().subrange(
                    tensor_start(self@.data_offset, info@) as int,
                    tensor_end(self@.data_offset, info@) as int,
                ),
                Err(e) => e == GGUFError::Truncated && tensor_end(self@.data_offset, info@)
                    > self.bytes().len(),
            },
    {
        let start = self.data_offset + info.offset as usize;
        let end = start + info.byte_size() as usize;
        if end > self.data.len() {
            return Err(GGUFError::Truncated);
        }
        Ok(vstd::slice::slice_subrange(self.data, start, end))
    }

    /// Finds a tensor and returns it with its data.
    pub fn get_tensor_data(&self, name: &[u8]) -> (r: Result<(&TensorInfo, &'a [u8]), GGUFError>)
        requires
            first_tensor(self@.tensors, name@) matches Some(t) ==> tensor_extent_ok(
                self@.data_offset,
                t,
            ),
        ensures
            match first_tensor(self@.tensors, name@) {
                None => r == Err::<(&TensorInfo, &[u8]), GGUFError>(GGUFError::TensorNotFound),
                Some(t) => match r {
                    Ok((info, d)) => info@ == t && tensor_end(self@.data_offset, t)
                        <= self.bytes().len() && d@ == self.bytes().subrange(
                        tensor_start(self@.data_offset, t) as int,
                        tensor_end(self@.data_offset, t) as int,
                    ),
                    Err(e) => e == GGUFError::Truncated && tensor_end(self@.data_offset, t)
                        > self.bytes().len(),
                },
            },
    {
        let info = match self.find_tensor(name) {
            Some(i) => i,
            None => return Err(GGUFError::TensorNotFound),
        };
        match self.tensor_data(info) {
            Ok(d) => Ok((info, d)),
            Err(e) => Err(e),
        }
    }
}

} // verus!
