//! What holds of pages and of the requests to them, beyond any single call.
use vstd::arithmetic::div_mod::{
    lemma_div_by_multiple, lemma_fundamental_div_mod, lemma_fundamental_div_mod_converse,
    lemma_mod_bound, lemma_mod_multiples_basic, lemma_multiply_divide_lt,
};
use vstd::arithmetic::mul::{
    lemma_mul_inequality, lemma_mul_is_commutative, lemma_mul_is_distributive_sub_other_way,
    lemma_mul_nonnegative,
};
use vstd::arithmetic::power::pow;
use vstd::prelude::*;

use crate::basic::Type;
use crate::byte_stream_split_decoder::{
    ByteStreamSplitDecoder, VariableWidthByteStreamSplitDecoder,
};
use crate::data_type::{
    DataType, DoubleType, F32Bits, F64Bits, FixedLenByteArray, FixedLenByteArrayType, FloatType,
    Int32Type, Int64Type, Int96, Int96Type, ParquetValueType,
};
use crate::decoder::Decoder;
use crate::page::SplitPage;

verus! {

/// The `BYTE_STREAM_SPLIT` encoding of values that are each `width` bytes wide: stream `j` holds
/// byte `j` of every value in turn.
pub open spec fn split(values: Seq<Seq<u8>>, width: nat) -> Seq<u8> {
    Seq::new(
        values.len() * width,
        |k: int| values[k % values.len() as int][k / values.len() as int],
    )
}

/// Every byte of every announced value is found inside the page.
pub proof fn law_values_inside_page(page: SplitPage, i: int, j: int)
    requires
        page.wf(),
        0 <= i < page.total,
        0 <= j < page.width,
    ensures
        0 <= i + j * page.stride() < page.data.len(),
{
    let width = page.width as int;
    let stride = page.stride() as int;
    lemma_fundamental_div_mod(page.data.len() as int, width);
    lemma_mul_nonnegative(j, stride);
    lemma_mul_inequality(j, width - 1, stride);
    lemma_mul_is_distributive_sub_other_way(stride, width, 1);
}

/// A fixed-width page is taken if and only if its length is exactly that of its values.
pub proof fn law_exact_page_taken(type_size: nat, data: Seq<u8>, num_values: nat)
    requires
        data.len() <= usize::MAX,
    ensures
        crate::byte_stream_split_decoder::exact_page_refusal(type_size, data, num_values) is None
            <==> data.len() == num_values * type_size,
{
}

/// A page of byte arrays is taken if and only if it consists of whole values and holds at least
/// as many as it announces.
pub proof fn law_whole_page_taken(type_width: nat, data: Seq<u8>, num_values: nat)
    requires
        type_width > 0,
    ensures
        crate::byte_stream_split_decoder::whole_page_refusal(
            Type::FIXED_LEN_BYTE_ARRAY,
            type_width,
            data,
            num_values,
        ) is None <==> data.len() % type_width == 0 && num_values * type_width <= data.len(),
{
    let len = data.len() as int;
    let width = type_width as int;
    let stride = len / width;
    lemma_fundamental_div_mod(len, width);
    lemma_mul_is_commutative(stride, width);
    if num_values <= stride {
        lemma_mul_inequality(num_values as int, stride, width);
    } else {
        lemma_mul_inequality(stride + 1, num_values as int, width);
        lemma_mul_is_distributive_sub_other_way(width, stride + 1, 1);
        lemma_mod_bound(len, width);
    }
}

/// The width that a negative length stands for is more than any buffer holds, so only the empty
/// page of no values is taken.
pub proof fn law_negative_length_takes_nothing(type_length: i32, data: Seq<u8>, num_values: nat)
    requires
        type_length < 0,
        data.len() <= isize::MAX,
    ensures
        crate::byte_stream_split_decoder::whole_page_refusal(
            Type::FIXED_LEN_BYTE_ARRAY,
            crate::byte_stream_split_decoder::width_of_length(type_length),
            data,
            num_values,
        ) is None <==> data.len() == 0 && num_values == 0,
{
    let width = crate::byte_stream_split_decoder::width_of_length(type_length) as int;
    lemma_fundamental_div_mod_converse(data.len() as int, width, 0, data.len() as int);
}

/// A page that the fixed-width decoder takes, the decoder of byte arrays of that width takes too.
pub proof fn law_exact_page_is_whole(width: nat, data: Seq<u8>, num_values: nat)
    requires
        width > 0,
        crate::byte_stream_split_decoder::exact_page_refusal(width, data, num_values) is None,
    ensures
        crate::byte_stream_split_decoder::whole_page_refusal(
            Type::FIXED_LEN_BYTE_ARRAY,
            width,
            data,
            num_values,
        ) is None,
{
    lemma_mod_multiples_basic(num_values as int, width as int);
    lemma_div_by_multiple(num_values as int, width as int);
}

/// Two requests get the same values, and leave the page in the same place, as a single request
/// for all of them.
pub proof fn law_requests_add_up(page: SplitPage, m: nat, n: nat)
    requires
        page.wf(),
    ensures
        page.after(m).wf(),
        page.after(m).after(n) == page.after(m + n),
        page.served(m) + page.after(m).served(n) == page.served(m + n),
        page.next_values(page.served(m)) + page.after(m).next_values(page.after(m).served(n))
            == page.next_values(page.served(m + n)),
{
    let first = page.next_values(page.served(m));
    let second = page.after(m).next_values(page.after(m).served(n));
    let all = page.next_values(page.served(m + n));
    assert forall|i: int| 0 <= i < all.len() implies #[trigger] all[i] == (first + second)[i] by {
        if i >= first.len() {
            let k = i - first.len();
            assert(second[k] == page.after(m).value(page.decoded + i));
            assert(page.after(m).value(page.decoded + i) =~= page.value(page.decoded + i));
        }
    }
    assert(first + second =~= all);
}

/// Passing over values changes nothing about those behind them.
pub proof fn law_skipped_values_are_dropped(page: SplitPage, m: nat, n: nat)
    requires
        page.wf(),
    ensures
        page.after(m).next_values(n) == page.next_values(page.served(m) + n).skip(
            page.served(m) as int,
        ),
{
    let skipped = page.after(m).next_values(n);
    let rest = page.next_values(page.served(m) + n).skip(page.served(m) as int);
    assert forall|i: int| 0 <= i < n implies #[trigger] skipped[i] == rest[i] by {
        let number = page.decoded + page.served(m) + i;
        assert(page.after(m).value(number) =~= page.value(number));
    }
    assert(skipped =~= rest);
}

/// A request uses up as many values as it gets; once a page is used up, requests get nothing and
/// change nothing.
pub proof fn law_pages_run_out(page: SplitPage, n: nat)
    requires
        page.wf(),
    ensures
        page.after(n).values_left() == page.values_left() - page.served(n),
        page.after(n).values_left() == 0 <==> n >= page.values_left(),
        page.values_left() == 0 ==> page.served(n) == 0 && page.after(n) == page,
{
}

/// Decoding gives back the values that were encoded.
pub proof fn law_decoding_inverts_split(values: Seq<Seq<u8>>, width: nat)
    requires
        width > 0,
        forall|i: int| 0 <= i < values.len() ==> (#[trigger] values[i]).len() == width,
    ensures
        SplitPage::unread(split(values, width), width, values.len()).wf(),
        SplitPage::unread(split(values, width), width, values.len()).next_values(values.len())
            == values,
{
    let n = values.len() as int;
    let w = width as int;
    let page = SplitPage::unread(split(values, width), width, values.len());
    lemma_div_by_multiple(n, w);
    lemma_mod_multiples_basic(n, w);
    assert forall|i: int| 0 <= i < n implies page.value(i) == #[trigger] values[i] by {
        assert forall|j: int| 0 <= j < w implies #[trigger] page.value(i)[j] == values[i][j] by {
            law_values_inside_page(page, i, j);
            lemma_mul_is_commutative(j, n);
            lemma_fundamental_div_mod_converse(i + j * n, n, j, i);
        }
        assert(page.value(i) =~= values[i]);
    }
    assert(page.next_values(values.len()) =~= values);
}

/// Encoding the values of a page that holds nothing else gives back the page.
pub proof fn law_split_inverts_decoding(data: Seq<u8>, width: nat, total: nat)
    requires
        width > 0,
        data.len() == total * width,
    ensures
        split(SplitPage::unread(data, width, total).next_values(total), width) == data,
{
    let n = total as int;
    let w = width as int;
    let page = SplitPage::unread(data, width, total);
    let values = page.next_values(total);
    let again = split(values, width);
    lemma_div_by_multiple(n, w);
    assert forall|k: int| 0 <= k < data.len() implies #[trigger] again[k] == data[k] by {
        if n > 0 {
            lemma_fundamental_div_mod(k, n);
            lemma_mod_bound(k, n);
            lemma_mul_is_commutative(n, w);
            lemma_mul_is_commutative(n, k / n);
            lemma_multiply_divide_lt(k, n, w);
            assert(values[k % n] == page.value(k % n));
        }
    }
    assert(again =~= data);
}

/// The bytes of a 32-bit number determine it.
pub proof fn law_i32_determined_by_bytes(a: i32, b: i32)
    requires
        a.raw() == b.raw(),
    ensures
        a == b,
{
    reveal_with_fuel(crate::byte_order::byte_range, 5);
    crate::byte_order::law_native_bytes_exact(crate::data_type::bits_of_i32(a), 4);
    crate::byte_order::law_native_bytes_exact(crate::data_type::bits_of_i32(b), 4);
}

/// The bytes of a 64-bit number determine it.
pub proof fn law_i64_determined_by_bytes(a: i64, b: i64)
    requires
        a.raw() == b.raw(),
    ensures
        a == b,
{
    reveal_with_fuel(crate::byte_order::byte_range, 9);
    crate::byte_order::law_native_bytes_exact(crate::data_type::bits_of_i64(a), 8);
    crate::byte_order::law_native_bytes_exact(crate::data_type::bits_of_i64(b), 8);
}

/// The bytes of a 96-bit number determine it.
pub proof fn law_int96_determined_by_bytes(a: Int96, b: Int96)
    requires
        a.raw() == b.raw(),
    ensures
        a == b,
{
    reveal_with_fuel(crate::byte_order::byte_range, 5);
    crate::byte_order::law_native_bytes_exact(a.low as nat, 4);
    crate::byte_order::law_native_bytes_exact(a.mid as nat, 4);
    crate::byte_order::law_native_bytes_exact(a.high as nat, 4);
    crate::byte_order::law_native_bytes_exact(b.low as nat, 4);
    crate::byte_order::law_native_bytes_exact(b.mid as nat, 4);
    crate::byte_order::law_native_bytes_exact(b.high as nat, 4);
    let raw = a.raw();
    assert(raw.subrange(0, 4) =~= crate::byte_order::native_bytes(a.low as nat, 4));
    assert(raw.subrange(4, 8) =~= crate::byte_order::native_bytes(a.mid as nat, 4));
    assert(raw.subrange(8, 12) =~= crate::byte_order::native_bytes(a.high as nat, 4));
    assert(raw.subrange(0, 4) =~= crate::byte_order::native_bytes(b.low as nat, 4));
    assert(raw.subrange(4, 8) =~= crate::byte_order::native_bytes(b.mid as nat, 4));
    assert(raw.subrange(8, 12) =~= crate::byte_order::native_bytes(b.high as nat, 4));
}

/// The bytes of a single-precision number determine its bit pattern.
pub proof fn law_f32_bits_determined_by_bytes(a: F32Bits, b: F32Bits)
    requires
        a.raw() == b.raw(),
    ensures
        a == b,
{
    reveal_with_fuel(crate::byte_order::byte_range, 5);
    crate::byte_order::law_native_bytes_exact(a.0 as nat, 4);
    crate::byte_order::law_native_bytes_exact(b.0 as nat, 4);
}

/// The bytes of a double-precision number determine its bit pattern.
pub proof fn law_f64_bits_determined_by_bytes(a: F64Bits, b: F64Bits)
    requires
        a.raw() == b.raw(),
    ensures
        a == b,
{
    reveal_with_fuel(crate::byte_order::byte_range, 9);
    crate::byte_order::law_native_bytes_exact(a.0 as nat, 8);
    crate::byte_order::law_native_bytes_exact(b.0 as nat, 8);
}

/// A 32-bit number has its bits modulo `2^32` as its bytes, in the machine's order.
pub proof fn law_i32_bytes(v: i32, k: int)
    requires
        0 <= k < 4,
    ensures
        v.raw().len() == 4,
        vstd::endian::endianness() is Little ==> v.raw()[k] == ((v as int % 0x1_0000_0000) / pow(
            256,
            k as nat,
        )) % 256,
        vstd::endian::endianness() is Big ==> v.raw()[k] == ((v as int % 0x1_0000_0000) / pow(
            256,
            (3 - k) as nat,
        )) % 256,
{
    crate::byte_order::law_native_bytes_are_digits((v as int % 0x1_0000_0000) as nat, 4, k);
}

/// A 64-bit number has its bits modulo `2^64` as its bytes, in the machine's order.
pub proof fn law_i64_bytes(v: i64, k: int)
    requires
        0 <= k < 8,
    ensures
        v.raw().len() == 8,
        vstd::endian::endianness() is Little ==> v.raw()[k] == ((v as int
            % 0x1_0000_0000_0000_0000) / pow(256, k as nat)) % 256,
        vstd::endian::endianness() is Big ==> v.raw()[k] == ((v as int
            % 0x1_0000_0000_0000_0000) / pow(256, (7 - k) as nat)) % 256,
{
    let bits = (v as int % 0x1_0000_0000_0000_0000) as nat;
    crate::byte_order::law_native_bytes_are_digits(bits, 8, k);
}

/// A single-precision bit pattern has the digits of that pattern, to the base 256, as its bytes,
/// in the machine's order.
pub proof fn law_f32_bits_bytes(v: F32Bits, k: int)
    requires
        0 <= k < 4,
    ensures
        v.raw().len() == 4,
        vstd::endian::endianness() is Little ==> v.raw()[k] == (v.0 as int / pow(
            256,
            k as nat,
        )) % 256,
        vstd::endian::endianness() is Big ==> v.raw()[k] == (v.0 as int / pow(
            256,
            (3 - k) as nat,
        )) % 256,
{
    crate::byte_order::law_native_bytes_are_digits(v.0 as nat, 4, k);
}

/// A double-precision bit pattern has the digits of that pattern, to the base 256, as its bytes,
/// in the machine's order.
pub proof fn law_f64_bits_bytes(v: F64Bits, k: int)
    requires
        0 <= k < 8,
    ensures
        v.raw().len() == 8,
        vstd::endian::endianness() is Little ==> v.raw()[k] == (v.0 as int / pow(
            256,
            k as nat,
        )) % 256,
        vstd::endian::endianness() is Big ==> v.raw()[k] == (v.0 as int / pow(
            256,
            (7 - k) as nat,
        )) % 256,
{
    crate::byte_order::law_native_bytes_are_digits(v.0 as nat, 8, k);
}

/// A 96-bit number has the bytes of its three parts, the lowest part first and each in the
/// machine's order.
pub proof fn law_int96_bytes(v: Int96, part: int, k: int)
    requires
        0 <= part < 3,
        0 <= k < 4,
    ensures
        v.raw().len() == 12,
        ({
            let x = if part == 0 {
                v.low as int
            } else if part == 1 {
                v.mid as int
            } else {
                v.high as int
            };
            &&& vstd::endian::endianness() is Little ==> v.raw()[4 * part + k] == (x / pow(
                256,
                k as nat,
            )) % 256
            &&& vstd::endian::endianness() is Big ==> v.raw()[4 * part + k] == (x / pow(
                256,
                (3 - k) as nat,
            )) % 256
        }),
{
    crate::byte_order::law_native_bytes_are_digits(v.low as nat, 4, k);
    crate::byte_order::law_native_bytes_are_digits(v.mid as nat, 4, k);
    crate::byte_order::law_native_bytes_are_digits(v.high as nat, 4, k);
}

/// A byte array has the bytes that it was set to, a slot that was not set has none, and an array
/// that has bytes was set to them.
pub proof fn law_byte_array_bytes(slot: FixedLenByteArray)
    ensures
        slot@ is None ==> slot.raw() == Seq::<u8>::empty(),
        slot@ matches Some(bytes) ==> slot.raw() == bytes,
        slot.raw().len() > 0 ==> slot@ == Some(slot.raw()),
{
}

/// A number can be made of as many bytes as it takes up, and of no other number of bytes; a byte
/// array can be made of any number of bytes.
pub proof fn law_accepted_lengths(len: nat)
    ensures
        <i32 as ParquetValueType>::accepts(len) <==> len == 4,
        <i64 as ParquetValueType>::accepts(len) <==> len == 8,
        <Int96 as ParquetValueType>::accepts(len) <==> len == 12,
        <F32Bits as ParquetValueType>::accepts(len) <==> len == 4,
        <F64Bits as ParquetValueType>::accepts(len) <==> len == 8,
        <FixedLenByteArray as ParquetValueType>::accepts(len),
{
}

/// Each column type takes up the bytes of its values, and only the column of fixed-length byte
/// arrays has their physical type.
pub proof fn law_column_types()
    ensures
        Int32Type::type_size() == 4,
        Int64Type::type_size() == 8,
        Int96Type::type_size() == 12,
        FloatType::type_size() == 4,
        DoubleType::type_size() == 8,
        FixedLenByteArrayType::type_size() == vstd::layout::size_of::<FixedLenByteArray>(),
        Int32Type::physical_type() == Type::INT32,
        Int64Type::physical_type() == Type::INT64,
        Int96Type::physical_type() == Type::INT96,
        FloatType::physical_type() == Type::FLOAT,
        DoubleType::physical_type() == Type::DOUBLE,
        FixedLenByteArrayType::physical_type() == Type::FIXED_LEN_BYTE_ARRAY,
{
}

/// A page just taken has the bytes and the values that were announced, and all of these are still
/// to come: a request for all of them is served in full.
pub proof fn law_unread_page(data: Seq<u8>, width: nat, total: nat)
    ensures
        SplitPage::unread(data, width, total).data == data,
        SplitPage::unread(data, width, total).width == width,
        SplitPage::unread(data, width, total).total == total,
        SplitPage::unread(data, width, total).decoded == 0,
        SplitPage::unread(data, width, total).values_left() == total,
        SplitPage::unread(data, width, total).served(total) == total,
{
}

/// A request gets what it asks for or, if that is more than what is left of the announced values,
/// all of that. It moves the page on by as many values and changes nothing else.
pub proof fn law_request(page: SplitPage, n: nat)
    requires
        page.decoded <= page.total,
    ensures
        page.values_left() + page.decoded == page.total,
        page.decoded + n <= page.total ==> page.served(n) == n,
        page.decoded + n > page.total ==> page.served(n) + page.decoded == page.total,
        page.after(n).decoded == page.decoded + page.served(n),
        page.after(n).total == page.total,
        page.after(n).width == page.width,
        page.after(n).data == page.data,
{
}

/// The next values come from the streams: byte `j` of a value stands in stream `j`, at the place
/// that the value has among all values of the page.
pub proof fn law_next_values_come_from_streams(page: SplitPage, n: nat, i: int, j: int)
    requires
        0 <= i < n,
        0 <= j < page.width,
    ensures
        page.next_values(n).len() == n,
        page.next_values(n)[i].len() == page.width,
        page.next_values(n)[i][j] == page.data[page.decoded + i + j * (page.data.len() as int
            / page.width as int)],
{
}

/// A page is well-formed if and only if no more values were read than announced, its length is a
/// multiple of their width, and the announced values fit in it.
pub proof fn law_well_formed_page(page: SplitPage)
    ensures
        page.width == 0 ==> (page.wf() <==> page.decoded <= page.total),
        page.width > 0 ==> (page.wf() <==> {
            &&& page.decoded <= page.total
            &&& page.data.len() % page.width == 0
            &&& page.total * page.width <= page.data.len()
        }),
        page.width > 0 && page.wf() ==> page.stride() * page.width == page.data.len(),
{
    if page.width > 0 {
        let len = page.data.len() as int;
        let width = page.width as int;
        let stride = len / width;
        let total = page.total as int;
        lemma_fundamental_div_mod(len, width);
        lemma_mul_is_commutative(stride, width);
        if total <= stride {
            lemma_mul_inequality(total, stride, width);
        } else {
            lemma_mul_inequality(stride + 1, total, width);
            lemma_mul_is_distributive_sub_other_way(width, stride + 1, 1);
            lemma_mod_bound(len, width);
        }
    }
}

/// What every decoder keeps: it has not read more values than announced, and the announced values
/// fit in the page, whose length is a multiple of their width.
pub proof fn law_decoders_keep_pages_whole<T: DataType, D: Decoder<T>>(decoder: D)
    requires
        decoder.inv(),
    ensures
        decoder.page().decoded <= decoder.page().total,
        decoder.page().width > 0 ==> decoder.page().data.len() % decoder.page().width == 0,
        decoder.page().width > 0 ==> decoder.page().total * decoder.page().width
            <= decoder.page().data.len(),
{
    decoder.lemma_page_wf();
    law_well_formed_page(decoder.page());
}

/// Joined values stand one after the other, and byte `j` of value `i` comes from `first + i` in
/// stream `j`.
pub proof fn law_joined_bytes(
    src: Seq<u8>,
    width: int,
    stride: int,
    first: int,
    count: int,
    i: int,
    j: int,
)
    requires
        0 <= i < count,
        0 <= j < width,
    ensures
        crate::join::joined(src, width, stride, first, count).len() == count * width,
        0 <= i * width + j < count * width,
        crate::join::joined(src, width, stride, first, count)[i * width + j] == src[first + i + j
            * stride],
{
    lemma_mul_nonnegative(i, width);
    crate::join::lemma_slot(width, count, i, j);
}

/// Joining no values gives no bytes.
pub proof fn law_joined_nothing(src: Seq<u8>, width: int, stride: int, first: int)
    ensures
        crate::join::joined(src, width, stride, first, 0).len() == 0,
{
}

/// Values can be joined if and only if the first is not behind the source and, where there is
/// one, the last byte of the last value is inside it; then all their bytes are.
pub proof fn law_joins_stay_inside(
    len: int,
    width: int,
    stride: int,
    first: int,
    count: int,
    i: int,
    j: int,
)
    requires
        stride >= 0,
        0 <= i < count,
        0 <= j < width,
    ensures
        crate::join::source_covers(len, width, stride, first, 0) <==> first <= len,
        crate::join::source_covers(len, width, stride, first, count) <==> first <= len && first
            + (count - 1) + (width - 1) * stride < len,
        crate::join::source_covers(len, width, stride, first, count) ==> first + i + j * stride
            < len,
{
    lemma_mul_inequality(j, width - 1, stride);
}

/// The width of a decoder is the type length it was made for; a negative one is taken modulo the
/// range of the machine's sizes.
pub proof fn law_width_of_length(type_length: i32)
    ensures
        type_length >= 0 ==> crate::byte_stream_split_decoder::width_of_length(type_length)
            == type_length,
        type_length < 0 ==> crate::byte_stream_split_decoder::width_of_length(type_length)
            == usize::MAX + 1 + type_length,
{
}

/// A decoder of numbers judges every page. It takes those whose length is exactly that of the
/// announced values, and tells of the others whether their size cannot be counted or differs.
pub proof fn law_pages_of_numbers<T: DataType>(
    decoder: ByteStreamSplitDecoder<T>,
    data: Seq<u8>,
    num_values: nat,
)
    requires
        data.len() <= usize::MAX,
    ensures
        decoder.can_judge(data),
        decoder.page_refusal(data, num_values) is None <==> data.len() == num_values
            * T::type_size(),
        num_values * T::type_size() > usize::MAX ==> decoder.page_refusal(data, num_values)
            == Some(
            "byte stream split num_values "@ + crate::errors::decimal(num_values)
                + " overflows when multiplied by type size "@ + crate::errors::decimal(
                T::type_size(),
            ),
        ),
        num_values * T::type_size() <= usize::MAX && data.len() != num_values * T::type_size()
            ==> decoder.page_refusal(data, num_values) == Some(
            "byte stream split data length "@ + crate::errors::decimal(data.len())
                + " does not match expected length "@ + crate::errors::decimal(
                num_values * T::type_size(),
            ) + " for "@ + crate::errors::decimal(num_values) + " values of size "@
                + crate::errors::decimal(T::type_size()),
        ),
{
}

/// A decoder of numbers delivers if and only if these are four or eight bytes wide; otherwise it
/// tells their width.
pub proof fn law_numbers_delivered<T: DataType>(decoder: ByteStreamSplitDecoder<T>)
    ensures
        decoder.get_refusal() is None <==> T::type_size() == 4 || T::type_size() == 8,
        T::type_size() != 4 && T::type_size() != 8 ==> decoder.get_refusal() == Some(
            "byte stream split unsupported for data types of size "@ + crate::errors::decimal(
                T::type_size(),
            ) + " bytes"@,
        ),
{
}

/// A decoder of byte arrays judges every page that has a byte or whose values have one. It takes
/// those that consist of whole values, at least as many as announced, of a column of fixed-length
/// byte arrays; of the others it tells the first of these conditions that fails.
pub proof fn law_pages_of_byte_arrays<T: DataType>(
    decoder: VariableWidthByteStreamSplitDecoder<T>,
    data: Seq<u8>,
    num_values: nat,
)
    ensures
        decoder.can_judge(data) <==> decoder.page().width > 0 || data.len() > 0,
        decoder.page().width == 0 ==> decoder.page_refusal(data, num_values) == Some(
            "Input data length is not a multiple of type width "@ + crate::errors::decimal(0),
        ),
        decoder.page().width > 0 ==> {
            let width = decoder.page().width;
            let whole = data.len() % width == 0;
            let enough = num_values * width <= data.len();
            let byte_arrays = T::physical_type() == Type::FIXED_LEN_BYTE_ARRAY;
            &&& decoder.page_refusal(data, num_values) is None <==> whole && enough && byte_arrays
            &&& !whole ==> decoder.page_refusal(data, num_values) == Some(
                "Input data length is not a multiple of type width "@ + crate::errors::decimal(
                    width,
                ),
            )
            &&& whole && !enough ==> decoder.page_refusal(data, num_values) == Some(
                "byte stream split data holds "@ + crate::errors::decimal(data.len() / width)
                    + " elements of width "@ + crate::errors::decimal(width) + " but "@
                    + crate::errors::decimal(num_values) + " values were requested"@,
            )
            &&& whole && enough && !byte_arrays ==> decoder.page_refusal(data, num_values) == Some(
                "VariableWidthByteStreamSplitDecoder only supports FixedLenByteArrayType"@,
            )
        },
{
    if decoder.page().width > 0 {
        law_whole_page_taken(decoder.page().width, data, num_values);
    }
}

/// A decoder of byte arrays delivers whatever their width.
pub proof fn law_byte_arrays_delivered<T: DataType>(
    decoder: VariableWidthByteStreamSplitDecoder<T>,
)
    ensures
        decoder.get_refusal() is None,
{
}

} // verus!
