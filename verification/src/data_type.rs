//! The column types, and the values that a decoder delivers for each of them.
use bytes::Bytes;
use vstd::prelude::*;
use vstd::slice::{slice_subrange, slice_to_vec};

use crate::basic::Type;
use crate::buffer::bytes_from_vec;
use crate::byte_order::read_native;

verus! {

/// A value that can be set from the bytes that a page holds for it.
pub trait ParquetValueType: Sized {
    /// A value of this type can be made of `len` bytes.
    spec fn accepts(len: nat) -> bool;

    /// The bytes of the value; those of a number are the bytes that it takes up in memory, in
    /// the machine's byte order.
    spec fn raw(&self) -> Seq<u8>;

    /// Sets the value from a copy of its bytes.
    fn set_from_slice(&mut self, raw: &[u8])
        requires
            Self::accepts(raw@.len()),
        ensures
            final(self).raw() == raw@,
    ;

    /// Sets the value from a buffer that holds its bytes.
    fn set_from_bytes(&mut self, data: Bytes)
        requires
            Self::accepts(crate::buffer::contents(data).len()),
        ensures
            final(self).raw() == crate::buffer::contents(data),
    ;
}

/// A column type.
pub trait DataType {
    /// The values of the column.
    type T: ParquetValueType;

    /// How the values are stored.
    spec fn physical_type() -> Type;

    /// The number of bytes that a value takes up in memory.
    spec fn type_size() -> nat;

    /// How the values are stored.
    fn get_physical_type() -> (physical_type: Type)
        ensures
            physical_type == Self::physical_type(),
    ;

    /// The number of bytes that a value takes up in memory.
    fn get_type_size() -> (type_size: usize)
        ensures
            type_size == Self::type_size(),
    ;

    /// A value can be made of as many bytes as it takes up.
    proof fn lemma_accepts_type_size()
        ensures
            Self::T::accepts(Self::type_size()),
    ;

    /// A fixed-length byte array can have any length.
    proof fn lemma_byte_array_accepts(len: nat)
        ensures
            Self::physical_type() == Type::FIXED_LEN_BYTE_ARRAY ==> Self::T::accepts(len),
    ;
}

/// The 32 bits of a signed number, read as an unsigned one.
pub open spec fn bits_of_i32(v: i32) -> nat {
    if v >= 0 {
        v as nat
    } else {
        (v + 0x1_0000_0000) as nat
    }
}

/// The 64 bits of a signed number, read as an unsigned one.
pub open spec fn bits_of_i64(v: i64) -> nat {
    if v >= 0 {
        v as nat
    } else {
        (v + 0x1_0000_0000_0000_0000) as nat
    }
}

/// Reads four bytes as one number.
fn read_u32(raw: &[u8]) -> (x: u32)
    requires
        raw@.len() == 4,
    ensures
        crate::byte_order::native_bytes(x as nat, 4) == raw@,
{
    let x: u64 = read_native(raw);
    proof {
        reveal_with_fuel(crate::byte_order::byte_range, 5);
    }
    x as u32
}

impl ParquetValueType for i32 {
    open spec fn accepts(len: nat) -> bool {
        len == 4
    }

    open spec fn raw(&self) -> Seq<u8> {
        crate::byte_order::native_bytes(bits_of_i32(*self), 4)
    }

    fn set_from_slice(&mut self, raw: &[u8]) {
        let x: u32 = read_u32(raw);
        *self = if x <= 0x7fff_ffff {
            x as i32
        } else {
            (x as i64 - 0x1_0000_0000) as i32
        };
    }

    fn set_from_bytes(&mut self, data: Bytes) {
        self.set_from_slice(&data);
    }
}

impl ParquetValueType for i64 {
    open spec fn accepts(len: nat) -> bool {
        len == 8
    }

    open spec fn raw(&self) -> Seq<u8> {
        crate::byte_order::native_bytes(bits_of_i64(*self), 8)
    }

    fn set_from_slice(&mut self, raw: &[u8]) {
        let x: u64 = read_native(raw);
        *self = if x <= 0x7fff_ffff_ffff_ffff {
            x as i64
        } else {
            (x as i128 - 0x1_0000_0000_0000_0000) as i64
        };
    }

    fn set_from_bytes(&mut self, data: Bytes) {
        self.set_from_slice(&data);
    }
}

/// A 96-bit number in three parts, the lowest first.
#[derive(Debug, Clone, Copy, PartialEq, Eq)]
pub struct Int96 {
    /// The lowest 32 bits.
    pub low: u32,
    /// The middle 32 bits.
    pub mid: u32,
    /// The highest 32 bits.
    pub high: u32,
}

impl ParquetValueType for Int96 {
    open spec fn accepts(len: nat) -> bool {
        len == 12
    }

    open spec fn raw(&self) -> Seq<u8> {
        crate::byte_order::native_bytes(self.low as nat, 4) + crate::byte_order::native_bytes(
            self.mid as nat,
            4,
        ) + crate::byte_order::native_bytes(self.high as nat, 4)
    }

    fn set_from_slice(&mut self, raw: &[u8]) {
        self.low = read_u32(slice_subrange(raw, 0, 4));
        self.mid = read_u32(slice_subrange(raw, 4, 8));
        self.high = read_u32(slice_subrange(raw, 8, 12));
        assert(self.raw() =~= raw@);
    }

    fn set_from_bytes(&mut self, data: Bytes) {
        self.set_from_slice(&data);
    }
}

/// A single-precision floating-point number, as its bit pattern.
#[derive(Debug, Clone, Copy, PartialEq, Eq)]
pub struct F32Bits(pub u32);

impl ParquetValueType for F32Bits {
    open spec fn accepts(len: nat) -> bool {
        len == 4
    }

    open spec fn raw(&self) -> Seq<u8> {
        crate::byte_order::native_bytes(self.0 as nat, 4)
    }

    fn set_from_slice(&mut self, raw: &[u8]) {
        self.0 = read_u32(raw);
    }

    fn set_from_bytes(&mut self, data: Bytes) {
        self.set_from_slice(&data);
    }
}

/// A double-precision floating-point number, as its bit pattern.
#[derive(Debug, Clone, Copy, PartialEq, Eq)]
pub struct F64Bits(pub u64);

impl ParquetValueType for F64Bits {
    open spec fn accepts(len: nat) -> bool {
        len == 8
    }

    open spec fn raw(&self) -> Seq<u8> {
        crate::byte_order::native_bytes(self.0 as nat, 8)
    }

    fn set_from_slice(&mut self, raw: &[u8]) {
        self.0 = read_native(raw);
    }

    fn set_from_bytes(&mut self, data: Bytes) {
        self.set_from_slice(&data);
    }
}

/// A byte array whose length is that of its column, or a slot for one.
#[derive(Debug, Clone)]
pub struct FixedLenByteArray {
    data: Option<Bytes>,
}

impl View for FixedLenByteArray {
    type V = Option<Seq<u8>>;

    closed spec fn view(&self) -> Option<Seq<u8>> {
        match self.data {
            Some(data) => Some(crate::buffer::contents(data)),
            None => None,
        }
    }
}

impl FixedLenByteArray {
    /// A slot that has not been set yet.
    pub fn new() -> (slot: Self)
        ensures
            slot@ is None,
    {
        FixedLenByteArray { data: None }
    }

    /// The bytes of the array, or `None` for a slot that has not been set.
    pub fn data(&self) -> (data: Option<&[u8]>)
        ensures
            data is Some <==> self@ is Some,
            data matches Some(slice) ==> self@ == Some(slice@),
    {
        match &self.data {
            Some(data) => Some(data),
            None => None,
        }
    }
}

impl ParquetValueType for FixedLenByteArray {
    open spec fn accepts(len: nat) -> bool {
        true
    }

    open spec fn raw(&self) -> Seq<u8> {
        match self@ {
            Some(bytes) => bytes,
            None => Seq::empty(),
        }
    }

    fn set_from_slice(&mut self, raw: &[u8])
        ensures
            final(self)@ == Some(raw@),
    {
        self.data = Some(bytes_from_vec(slice_to_vec(raw)));
    }

    fn set_from_bytes(&mut self, data: Bytes)
        ensures
            final(self)@ == Some(crate::buffer::contents(data)),
    {
        self.data = Some(data);
    }
}

/// Columns of 32-bit signed numbers.
pub struct Int32Type;

impl DataType for Int32Type {
    type T = i32;

    open spec fn physical_type() -> Type {
        Type::INT32
    }

    open spec fn type_size() -> nat {
        4
    }

    fn get_physical_type() -> Type {
        Type::INT32
    }

    fn get_type_size() -> usize {
        4
    }

    proof fn lemma_accepts_type_size() {
    }

    proof fn lemma_byte_array_accepts(len: nat) {
    }
}

/// Columns of 64-bit signed numbers.
pub struct Int64Type;

impl DataType for Int64Type {
    type T = i64;

    open spec fn physical_type() -> Type {
        Type::INT64
    }

    open spec fn type_size() -> nat {
        8
    }

    fn get_physical_type() -> Type {
        Type::INT64
    }

    fn get_type_size() -> usize {
        8
    }

    proof fn lemma_accepts_type_size() {
    }

    proof fn lemma_byte_array_accepts(len: nat) {
    }
}

/// Columns of 96-bit numbers.
pub struct Int96Type;

impl DataType for Int96Type {
    type T = Int96;

    open spec fn physical_type() -> Type {
        Type::INT96
    }

    open spec fn type_size() -> nat {
        12
    }

    fn get_physical_type() -> Type {
        Type::INT96
    }

    fn get_type_size() -> usize {
        12
    }

    proof fn lemma_accepts_type_size() {
    }

    proof fn lemma_byte_array_accepts(len: nat) {
    }
}

/// Columns of single-precision floating-point numbers.
pub struct FloatType;

impl DataType for FloatType {
    type T = F32Bits;

    open spec fn physical_type() -> Type {
        Type::FLOAT
    }

    open spec fn type_size() -> nat {
        4
    }

    fn get_physical_type() -> Type {
        Type::FLOAT
    }

    fn get_type_size() -> usize {
        4
    }

    proof fn lemma_accepts_type_size() {
    }

    proof fn lemma_byte_array_accepts(len: nat) {
    }
}

/// Columns of double-precision floating-point numbers.
pub struct DoubleType;

impl DataType for DoubleType {
    type T = F64Bits;

    open spec fn physical_type() -> Type {
        Type::DOUBLE
    }

    open spec fn type_size() -> nat {
        8
    }

    fn get_physical_type() -> Type {
        Type::DOUBLE
    }

    fn get_type_size() -> usize {
        8
    }

    proof fn lemma_accepts_type_size() {
    }

    proof fn lemma_byte_array_accepts(len: nat) {
    }
}

/// Columns of byte arrays that all have the same length. The type size is that of a slot, not
/// that of the bytes it refers to.
pub struct FixedLenByteArrayType;

impl DataType for FixedLenByteArrayType {
    type T = FixedLenByteArray;

    open spec fn physical_type() -> Type {
        Type::FIXED_LEN_BYTE_ARRAY
    }

    open spec fn type_size() -> nat {
        vstd::layout::size_of::<FixedLenByteArray>()
    }

    fn get_physical_type() -> Type {
        Type::FIXED_LEN_BYTE_ARRAY
    }

    fn get_type_size() -> usize {
        core::mem::size_of::<FixedLenByteArray>()
    }

    proof fn lemma_accepts_type_size() {
    }

    proof fn lemma_byte_array_accepts(len: nat) {
    }
}

} // verus!
