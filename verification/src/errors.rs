//! The library's error, and the texts that it carries.
use vstd::arithmetic::div_mod::lemma_div_denominator;
use vstd::arithmetic::power::{lemma_pow0, lemma_pow1, lemma_pow_positive, pow};
use vstd::prelude::*;

verus! {

/// Why a decoder refused a page or a request.
#[derive(Debug, Clone, PartialEq, Eq)]
pub enum ParquetError {
    /// An error that is described by its text alone.
    General(String),
}

impl ParquetError {
    /// The text that describes the error.
    pub open spec fn message(self) -> Seq<char> {
        match self {
            ParquetError::General(text) => text@,
        }
    }
}

/// The decimal digit for a number below ten.
pub open spec fn digit(d: nat) -> char {
    ('0' as int + d) as char
}

/// A number in decimal notation, without leading zeros.
pub open spec fn decimal(n: nat) -> Seq<char>
    decreases n,
{
    if n < 10 {
        seq![digit(n)]
    } else {
        decimal(n / 10).push(digit(n % 10))
    }
}

/// Decimal notation has as many digits as the number needs, one for zero. The digit `k` places
/// from the end counts the powers `10^k`.
pub proof fn law_decimal_digits(n: nat, k: int)
    requires
        0 <= k < decimal(n).len(),
    ensures
        n < 10 ==> decimal(n).len() == 1,
        n >= 10 ==> pow(10, (decimal(n).len() - 1) as nat) <= n,
        n < pow(10, decimal(n).len()),
        decimal(n)[decimal(n).len() - 1 - k] as int == '0' as int + (n as int / pow(10, k as nat))
            % 10,
    decreases n,
{
    lemma_pow0(10);
    lemma_pow1(10);
    if n >= 10 {
        let rest = decimal(n / 10);
        law_decimal_not_empty(n / 10);
        if k == 0 {
            law_decimal_digits(n / 10, 0);
        } else {
            law_decimal_digits(n / 10, k - 1);
            lemma_pow_positive(10, (k - 1) as nat);
            lemma_div_denominator(n as int, 10, pow(10, (k - 1) as nat));
        }
        reveal(pow);
        assert(pow(10, decimal(n).len()) == 10 * pow(10, rest.len()));
        assert(pow(10, rest.len()) == 10 * pow(10, (rest.len() - 1) as nat));
    }
}

/// Every number has a digit.
pub proof fn law_decimal_not_empty(n: nat)
    ensures
        decimal(n).len() >= 1,
{
}

/// An error's message is the text that it carries.
pub proof fn law_message_is_the_text(text: String)
    ensures
        ParquetError::General(text).message() == text@,
{
}

/// The text for a page whose size in bytes exceeds what the machine can count.
pub open spec fn size_overflow_text(num_values: nat, type_size: nat) -> Seq<char> {
    "byte stream split num_values "@ + decimal(num_values)
        + " overflows when multiplied by type size "@ + decimal(type_size)
}

/// The text for a page whose length is not that of the values it announces.
pub open spec fn length_mismatch_text(
    len: nat,
    expected: nat,
    num_values: nat,
    type_size: nat,
) -> Seq<char> {
    "byte stream split data length "@ + decimal(len) + " does not match expected length "@
        + decimal(expected) + " for "@ + decimal(num_values) + " values of size "@ + decimal(
        type_size,
    )
}

/// The text for values that are neither four nor eight bytes wide.
pub open spec fn unsupported_size_text(type_size: nat) -> Seq<char> {
    "byte stream split unsupported for data types of size "@ + decimal(type_size) + " bytes"@
}

/// The text for a page that ends inside a value.
pub open spec fn not_a_multiple_text(type_width: nat) -> Seq<char> {
    "Input data length is not a multiple of type width "@ + decimal(type_width)
}

/// The text for a page that holds fewer values than it announces.
pub open spec fn too_few_elements_text(
    elements: nat,
    type_width: nat,
    num_values: nat,
) -> Seq<char> {
    "byte stream split data holds "@ + decimal(elements) + " elements of width "@ + decimal(
        type_width,
    ) + " but "@ + decimal(num_values) + " values were requested"@
}

/// The text for a variable-width decoder of anything but fixed-length byte arrays.
pub open spec fn byte_arrays_only_text() -> Seq<char> {
    "VariableWidthByteStreamSplitDecoder only supports FixedLenByteArrayType"@
}

/// The decimal digit for a number below ten, as text.
fn digit_text(d: usize) -> (text: &'static str)
    requires
        d < 10,
    ensures
        text@ == seq![digit(d as nat)],
{
    proof {
        reveal_strlit("0");
        reveal_strlit("1");
        reveal_strlit("2");
        reveal_strlit("3");
        reveal_strlit("4");
        reveal_strlit("5");
        reveal_strlit("6");
        reveal_strlit("7");
        reveal_strlit("8");
        reveal_strlit("9");
    }
    match d {
        0 => "0",
        1 => "1",
        2 => "2",
        3 => "3",
        4 => "4",
        5 => "5",
        6 => "6",
        7 => "7",
        8 => "8",
        _ => "9",
    }
}

/// Appends `n` in decimal notation.
fn append_decimal(text: &mut String, n: usize)
    ensures
        final(text)@ == old(text)@ + decimal(n as nat),
    decreases n,
{
    if n >= 10 {
        append_decimal(text, n / 10);
    }
    text.append(digit_text(n % 10));
}

pub(crate) fn size_overflow_error(num_values: usize, type_size: usize) -> (error: ParquetError)
    ensures
        error.message() == size_overflow_text(num_values as nat, type_size as nat),
{
    let mut text = "byte stream split num_values ".to_owned();
    append_decimal(&mut text, num_values);
    text.append(" overflows when multiplied by type size ");
    append_decimal(&mut text, type_size);
    ParquetError::General(text)
}

pub(crate) fn length_mismatch_error(
    len: usize,
    expected: usize,
    num_values: usize,
    type_size: usize,
) -> (error: ParquetError)
    ensures
        error.message() == length_mismatch_text(
            len as nat,
            expected as nat,
            num_values as nat,
            type_size as nat,
        ),
{
    let mut text = "byte stream split data length ".to_owned();
    append_decimal(&mut text, len);
    text.append(" does not match expected length ");
    append_decimal(&mut text, expected);
    text.append(" for ");
    append_decimal(&mut text, num_values);
    text.append(" values of size ");
    append_decimal(&mut text, type_size);
    ParquetError::General(text)
}

pub(crate) fn unsupported_size_error(type_size: usize) -> (error: ParquetError)
    ensures
        error.message() == unsupported_size_text(type_size as nat),
{
    let mut text = "byte stream split unsupported for data types of size ".to_owned();
    append_decimal(&mut text, type_size);
    text.append(" bytes");
    ParquetError::General(text)
}

pub(crate) fn not_a_multiple_error(type_width: usize) -> (error: ParquetError)
    ensures
        error.message() == not_a_multiple_text(type_width as nat),
{
    let mut text = "Input data length is not a multiple of type width ".to_owned();
    append_decimal(&mut text, type_width);
    ParquetError::General(text)
}

pub(crate) fn too_few_elements_error(
    elements: usize,
    type_width: usize,
    num_values: usize,
) -> (error: ParquetError)
    ensures
        error.message() == too_few_elements_text(
            elements as nat,
            type_width as nat,
            num_values as nat,
        ),
{
    let mut text = "byte stream split data holds ".to_owned();
    append_decimal(&mut text, elements);
    text.append(" elements of width ");
    append_decimal(&mut text, type_width);
    text.append(" but ");
    append_decimal(&mut text, num_values);
    text.append(" values were requested");
    ParquetError::General(text)
}

pub(crate) fn byte_arrays_only_error() -> (error: ParquetError)
    ensures
        error.message() == byte_arrays_only_text(),
{
    ParquetError::General(
        "VariableWidthByteStreamSplitDecoder only supports FixedLenByteArrayType".to_owned(),
    )
}

} // verus!
