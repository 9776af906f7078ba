//! The two decoders for `BYTE_STREAM_SPLIT` pages.
use bytes::Bytes;
use core::marker::PhantomData;
use vstd::arithmetic::div_mod::{lemma_div_by_multiple, lemma_fundamental_div_mod_converse};
use vstd::arithmetic::mul::{
    lemma_mul_inequality, lemma_mul_is_distributive_add_other_way, lemma_mul_nonnegative,
};
use vstd::prelude::*;
use vstd::slice::slice_subrange;

use crate::basic::{Encoding, Type};
use crate::buffer::{bytes_from_vec, bytes_slice};
use crate::data_type::{DataType, ParquetValueType};
use crate::decoder::Decoder;
use crate::errors::{
    byte_arrays_only_error, length_mismatch_error, not_a_multiple_error, size_overflow_error,
    too_few_elements_error, unsupported_size_error, ParquetError,
};
use crate::join::{join_streams_const, join_streams_variable};
use crate::page::SplitPage;

verus! {

/// The smaller of two numbers.
fn smaller(a: usize, b: usize) -> (m: usize)
    ensures
        m == if a <= b { a } else { b },
{
    if a <= b {
        a
    } else {
        b
    }
}

/// Sets the first `count` values from their bytes, which stand in `raw` one value after the other.
fn set_from_joined_slice<V: ParquetValueType>(
    values: &mut [V],
    raw: &[u8],
    width: usize,
    count: usize,
)
    requires
        V::accepts(width as nat),
        raw@.len() == count * width,
        count <= old(values)@.len(),
    ensures
        final(values)@.len() == old(values)@.len(),
        forall|i: int| #![trigger final(values)@[i]]
            0 <= i < count ==> final(values)@[i].raw() == raw@.subrange(
                i * width,
                i * width + width,
            ),
        forall|i: int| #![trigger final(values)@[i]]
            count <= i < old(values)@.len() ==> final(values)@[i] == old(values)@[i],
{
    let ghost before = values@;
    let raw_len: usize = raw.len();
    let mut i: usize = 0;
    while i < count
        invariant
            i <= count <= before.len(),
            V::accepts(width as nat),
            raw@.len() == count * width,
            raw@.len() == raw_len,
            values@.len() == before.len(),
            forall|k: int| #![trigger values@[k]]
                0 <= k < i ==> values@[k].raw() == raw@.subrange(k * width, k * width + width),
            forall|k: int| #![trigger values@[k]]
                i <= k < before.len() ==> values@[k] == before[k],
        decreases count - i,
    {
        proof {
            lemma_mul_is_distributive_add_other_way(width as int, i as int, 1);
            lemma_mul_inequality(i + 1, count as int, width as int);
            lemma_mul_nonnegative(i as int, width as int);
        }
        values[i].set_from_slice(slice_subrange(raw, i * width, i * width + width));
        i = i + 1;
    }
}

/// Decodes pages of values that are as wide in the page as in memory.
pub struct ByteStreamSplitDecoder<T: DataType> {
    _phantom: PhantomData<T>,
    encoded_bytes: Bytes,
    total_num_values: usize,
    values_decoded: usize,
}

impl<T: DataType> ByteStreamSplitDecoder<T> {
    /// A decoder without a page.
    pub fn new() -> (decoder: Self)
        ensures
            decoder.inv(),
            decoder.page() == SplitPage::unread(Seq::empty(), T::type_size(), 0),
            decoder.page().width == T::type_size(),
            decoder.page().total == 0,
            decoder.page().decoded == 0,
    {
        ByteStreamSplitDecoder {
            _phantom: PhantomData,
            encoded_bytes: Bytes::new(),
            total_num_values: 0,
            values_decoded: 0,
        }
    }
}

impl<T: DataType> ByteStreamSplitDecoder<T> {
    /// The page of a decoder always has the width of the column's values, and exactly the bytes
    /// of those it announces.
    pub proof fn law_page_is_exact(&self)
        requires
            self.inv(),
        ensures
            self.page().width == T::type_size(),
            self.page().data.len() == self.page().total * T::type_size(),
    {
    }
}

/// Why a page is refused whose values are `type_size` bytes wide: its length must be exactly that
/// of the values.
pub open spec fn exact_page_refusal(
    type_size: nat,
    data: Seq<u8>,
    num_values: nat,
) -> Option<Seq<char>> {
    if num_values * type_size > usize::MAX {
        Some(crate::errors::size_overflow_text(num_values, type_size))
    } else if data.len() != num_values * type_size {
        Some(
            crate::errors::length_mismatch_text(
                data.len(),
                num_values * type_size,
                num_values,
                type_size,
            ),
        )
    } else {
        None
    }
}

impl<T: DataType> Decoder<T> for ByteStreamSplitDecoder<T> {
    closed spec fn page(&self) -> SplitPage {
        SplitPage {
            data: crate::buffer::contents(self.encoded_bytes),
            width: T::type_size(),
            total: self.total_num_values as nat,
            decoded: self.values_decoded as nat,
        }
    }

    closed spec fn inv(&self) -> bool {
        &&& self.values_decoded <= self.total_num_values
        &&& self.page().data.len() == self.total_num_values * T::type_size()
    }

    open spec fn can_judge(&self, data: Seq<u8>) -> bool {
        true
    }

    open spec fn page_refusal(&self, data: Seq<u8>, num_values: nat) -> Option<Seq<char>> {
        exact_page_refusal(T::type_size(), data, num_values)
    }

    open spec fn get_refusal(&self) -> Option<Seq<char>> {
        if T::type_size() == 4 || T::type_size() == 8 {
            None
        } else {
            Some(crate::errors::unsupported_size_text(T::type_size()))
        }
    }

    proof fn lemma_page_wf(&self) {
        let width = T::type_size() as int;
        if width > 0 {
            lemma_fundamental_div_mod_converse(
                self.page().data.len() as int,
                width,
                self.total_num_values as int,
                0,
            );
        }
    }

    fn set_data(&mut self, data: Bytes, num_values: usize) -> (result: Result<(), ParquetError>)
        ensures
            result is Ok <==> crate::buffer::contents(data).len() == num_values * T::type_size(),
            result is Ok ==> final(self).page().total == num_values,
            result is Ok ==> final(self).page().decoded == 0,
    {
        let type_size: usize = T::get_type_size();
        let data_len: usize = data.len();
        let expected_len: usize = match num_values.checked_mul(type_size) {
            Some(expected_len) => expected_len,
            None => {
                return Err(size_overflow_error(num_values, type_size));
            },
        };
        if data_len != expected_len {
            return Err(length_mismatch_error(data_len, expected_len, num_values, type_size));
        }
        self.encoded_bytes = data;
        self.total_num_values = num_values;
        self.values_decoded = 0;
        Ok(())
    }

    fn get(&mut self, buffer: &mut [T::T]) -> (result: Result<usize, ParquetError>)
        ensures
            result is Ok <==> T::type_size() == 4 || T::type_size() == 8,
    {
        let num_values: usize = smaller(buffer.len(), self.values_left());
        let type_size: usize = T::get_type_size();
        let stride: usize = self.encoded_bytes.len() / type_size;
        let ghost page = self.page();
        if type_size != 4 && type_size != 8 {
            return Err(unsupported_size_error(type_size));
        }
        proof {
            self.lemma_page_wf();
            page.lemma_source_covers(num_values as nat);
            lemma_div_by_multiple(num_values as int, type_size as int);
            T::lemma_accepts_type_size();
        }
        let mut raw_out: Vec<u8> = vec![0u8; num_values * type_size];
        if type_size == 4 {
            join_streams_const::<4>(
                &self.encoded_bytes,
                raw_out.as_mut_slice(),
                stride,
                self.values_decoded,
            );
        } else {
            join_streams_const::<8>(
                &self.encoded_bytes,
                raw_out.as_mut_slice(),
                stride,
                self.values_decoded,
            );
        }
        set_from_joined_slice(buffer, raw_out.as_slice(), type_size, num_values);
        proof {
            assert forall|i: int| #![trigger buffer@[i]]
                0 <= i < num_values implies buffer@[i].raw() == page.next_values(
                num_values as nat,
            )[i] by {
                page.lemma_joined_value(num_values as nat, i);
            }
        }
        self.values_decoded = self.values_decoded + num_values;
        Ok(num_values)
    }

    fn values_left(&self) -> usize {
        self.total_num_values - self.values_decoded
    }

    fn encoding(&self) -> Encoding {
        Encoding::BYTE_STREAM_SPLIT
    }

    fn skip(&mut self, num_values: usize) -> Result<usize, ParquetError> {
        let to_skip: usize = smaller(self.values_left(), num_values);
        self.values_decoded = self.values_decoded + to_skip;
        Ok(to_skip)
    }
}

/// Sets the first `count` values from their bytes, which stand in `joined` one value after the
/// other. Each value shares the buffer instead of copying from it.
fn set_from_joined_bytes<V: ParquetValueType>(
    values: &mut [V],
    joined: &Bytes,
    width: usize,
    count: usize,
)
    requires
        count > 0 ==> V::accepts(width as nat),
        crate::buffer::contents(*joined).len() == count * width,
        count <= old(values)@.len(),
    ensures
        final(values)@.len() == old(values)@.len(),
        forall|i: int| #![trigger final(values)@[i]]
            0 <= i < count ==> final(values)@[i].raw() == crate::buffer::contents(
                *joined,
            ).subrange(i * width, i * width + width),
        forall|i: int| #![trigger final(values)@[i]]
            count <= i < old(values)@.len() ==> final(values)@[i] == old(values)@[i],
{
    let ghost before = values@;
    let ghost raw = crate::buffer::contents(*joined);
    let joined_len: usize = joined.len();
    let mut i: usize = 0;
    while i < count
        invariant
            i <= count <= before.len(),
            count > 0 ==> V::accepts(width as nat),
            raw == crate::buffer::contents(*joined),
            raw.len() == count * width,
            raw.len() == joined_len,
            values@.len() == before.len(),
            forall|k: int| #![trigger values@[k]]
                0 <= k < i ==> values@[k].raw() == raw.subrange(k * width, k * width + width),
            forall|k: int| #![trigger values@[k]]
                i <= k < before.len() ==> values@[k] == before[k],
        decreases count - i,
    {
        proof {
            lemma_mul_is_distributive_add_other_way(width as int, i as int, 1);
            lemma_mul_inequality(i + 1, count as int, width as int);
            lemma_mul_nonnegative(i as int, width as int);
        }
        let data = bytes_slice(joined, i * width, (i + 1) * width);
        values[i].set_from_bytes(data);
        i = i + 1;
    }
}

/// Decodes pages of fixed-length byte arrays, whose width is known only when the decoder is made.
pub struct VariableWidthByteStreamSplitDecoder<T: DataType> {
    _phantom: PhantomData<T>,
    encoded_bytes: Bytes,
    total_num_values: usize,
    values_decoded: usize,
    type_width: usize,
}

/// The width that a type length stands for: a negative one wraps round to a width that no page
/// can fill.
pub open spec fn width_of_length(type_length: i32) -> nat {
    if type_length >= 0 {
        type_length as nat
    } else {
        (usize::MAX + 1 + type_length) as nat
    }
}

impl<T: DataType> VariableWidthByteStreamSplitDecoder<T> {
    /// A decoder without a page, for values of `type_length` bytes.
    pub fn new(type_length: i32) -> (decoder: Self)
        ensures
            decoder.inv(),
            decoder.page() == SplitPage::unread(Seq::empty(), width_of_length(type_length), 0),
            type_length >= 0 ==> decoder.page().width == type_length,
            type_length < 0 ==> decoder.page().width == usize::MAX + 1 + type_length,
            decoder.page().total == 0,
            decoder.page().decoded == 0,
    {
        let type_width: usize = type_length as usize;
        assert(type_length >= 0 ==> type_length as usize == type_length) by (bit_vector);
        assert(type_length < 0 && usize::BITS == 32 ==> type_length as usize == 0x1_0000_0000
            + type_length) by (bit_vector);
        assert(type_length < 0 && usize::BITS == 64 ==> type_length as usize
            == 0x1_0000_0000_0000_0000 + type_length) by (bit_vector);
        proof {
            if type_width > 0 {
                lemma_fundamental_div_mod_converse(0, type_width as int, 0, 0);
            }
        }
        VariableWidthByteStreamSplitDecoder {
            _phantom: PhantomData,
            encoded_bytes: Bytes::new(),
            total_num_values: 0,
            values_decoded: 0,
            type_width,
        }
    }
}

impl<T: DataType> VariableWidthByteStreamSplitDecoder<T> {
    /// A decoder of anything but fixed-length byte arrays never has a value to deliver.
    pub proof fn law_only_byte_arrays(&self)
        requires
            self.inv(),
        ensures
            T::physical_type() != Type::FIXED_LEN_BYTE_ARRAY ==> self.page().total == 0,
    {
    }

    /// A decoder of values without bytes never has a value to deliver.
    pub proof fn law_zero_width_has_no_values(&self)
        requires
            self.inv(),
        ensures
            self.page().width == 0 ==> self.page().total == 0,
            self.page().width == 0 ==> self.page().values_left() == 0,
    {
    }
}

/// Why a page is refused whose values are `type_width` bytes wide: it must consist of whole
/// values, at least as many as announced, and they must be fixed-length byte arrays.
pub open spec fn whole_page_refusal(
    physical_type: Type,
    type_width: nat,
    data: Seq<u8>,
    num_values: nat,
) -> Option<Seq<char>> {
    if type_width == 0 || data.len() % type_width != 0 {
        Some(crate::errors::not_a_multiple_text(type_width))
    } else if data.len() / type_width < num_values {
        Some(
            crate::errors::too_few_elements_text(data.len() / type_width, type_width, num_values),
        )
    } else if physical_type != Type::FIXED_LEN_BYTE_ARRAY {
        Some(crate::errors::byte_arrays_only_text())
    } else {
        None
    }
}

impl<T: DataType> Decoder<T> for VariableWidthByteStreamSplitDecoder<T> {
    closed spec fn page(&self) -> SplitPage {
        SplitPage {
            data: crate::buffer::contents(self.encoded_bytes),
            width: self.type_width as nat,
            total: self.total_num_values as nat,
            decoded: self.values_decoded as nat,
        }
    }

    closed spec fn inv(&self) -> bool {
        &&& self.page().wf()
        &&& self.type_width == 0 ==> self.total_num_values == 0
        &&& T::physical_type() != Type::FIXED_LEN_BYTE_ARRAY ==> self.total_num_values == 0
    }

    open spec fn can_judge(&self, data: Seq<u8>) -> bool {
        self.page().width > 0 || data.len() > 0
    }

    open spec fn page_refusal(&self, data: Seq<u8>, num_values: nat) -> Option<Seq<char>> {
        whole_page_refusal(T::physical_type(), self.page().width, data, num_values)
    }

    open spec fn get_refusal(&self) -> Option<Seq<char>> {
        None
    }

    proof fn lemma_page_wf(&self) {
    }

    fn set_data(&mut self, data: Bytes, num_values: usize) -> (result: Result<(), ParquetError>)
        ensures
            result is Ok <==> {
                &&& T::physical_type() == Type::FIXED_LEN_BYTE_ARRAY
                &&& old(self).page().width > 0
                &&& crate::buffer::contents(data).len() % old(self).page().width == 0
                &&& num_values <= crate::buffer::contents(data).len() / old(self).page().width
            },
            result is Ok ==> final(self).page().total == num_values,
            result is Ok ==> final(self).page().decoded == 0,
    {
        if !data.len().is_multiple_of(self.type_width) {
            return Err(not_a_multiple_error(self.type_width));
        }
        if data.len() / self.type_width < num_values {
            return Err(
                too_few_elements_error(data.len() / self.type_width, self.type_width, num_values),
            );
        }
        match T::get_physical_type() {
            Type::FIXED_LEN_BYTE_ARRAY => {
                self.encoded_bytes = data;
                self.total_num_values = num_values;
                self.values_decoded = 0;
                Ok(())
            },
            _ => Err(byte_arrays_only_error()),
        }
    }

    fn get(&mut self, buffer: &mut [T::T]) -> (result: Result<usize, ParquetError>)
        ensures
            result is Ok,
    {
        let num_values: usize = smaller(buffer.len(), self.values_left());
        let type_size: usize = self.type_width;
        let stride: usize = self.encoded_bytes.len() / type_size;
        let ghost page = self.page();
        proof {
            page.lemma_source_covers(num_values as nat);
            lemma_div_by_multiple(num_values as int, type_size as int);
            T::lemma_byte_array_accepts(type_size as nat);
        }
        let mut raw_out: Vec<u8> = vec![0u8; num_values * type_size];
        match type_size {
            2 => join_streams_const::<2>(
                &self.encoded_bytes,
                raw_out.as_mut_slice(),
                stride,
                self.values_decoded,
            ),
            4 => join_streams_const::<4>(
                &self.encoded_bytes,
                raw_out.as_mut_slice(),
                stride,
                self.values_decoded,
            ),
            8 => join_streams_const::<8>(
                &self.encoded_bytes,
                raw_out.as_mut_slice(),
                stride,
                self.values_decoded,
            ),
            16 => join_streams_const::<16>(
                &self.encoded_bytes,
                raw_out.as_mut_slice(),
                stride,
                self.values_decoded,
            ),
            _ => join_streams_variable(
                &self.encoded_bytes,
                raw_out.as_mut_slice(),
                stride,
                type_size,
                self.values_decoded,
            ),
        }
        self.values_decoded = self.values_decoded + num_values;
        let joined = bytes_from_vec(raw_out);
        set_from_joined_bytes(buffer, &joined, type_size, num_values);
        proof {
            assert forall|i: int| #![trigger buffer@[i]]
                0 <= i < num_values implies buffer@[i].raw() == page.next_values(
                num_values as nat,
            )[i] by {
                page.lemma_joined_value(num_values as nat, i);
            }
        }
        Ok(num_values)
    }

    fn values_left(&self) -> usize {
        self.total_num_values - self.values_decoded
    }

    fn encoding(&self) -> Encoding {
        Encoding::BYTE_STREAM_SPLIT
    }

    fn skip(&mut self, num_values: usize) -> Result<usize, ParquetError> {
        let to_skip: usize = smaller(self.values_left(), num_values);
        self.values_decoded = self.values_decoded + to_skip;
        Ok(to_skip)
    }
}

} // verus!
