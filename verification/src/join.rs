//! Gathering the bytes of consecutive values from the streams that they are split over.
use vstd::arithmetic::div_mod::{lemma_fundamental_div_mod, lemma_fundamental_div_mod_converse};
use vstd::arithmetic::mul::{lemma_mul_inequality, lemma_mul_is_distributive_add_other_way};
use vstd::prelude::*;
use vstd::slice::slice_subrange;

verus! {

/// `count` values of `width` bytes each, one after the other: byte `j` of value `i` stands in
/// `src` at `first + i + j * stride`.
pub open spec fn joined(src: Seq<u8>, width: int, stride: int, first: int, count: int) -> Seq<u8> {
    Seq::new(
        (count * width) as nat,
        |k: int| src[first + k / width + (k % width) * stride],
    )
}

/// Every byte of `count` values from number `first` on stands inside a source of `len` bytes.
pub open spec fn source_covers(len: int, width: int, stride: int, first: int, count: int) -> bool {
    &&& first <= len
    &&& count > 0 ==> first + (count - 1) + (width - 1) * stride < len
}

/// Byte `j` of value `i` is found inside the source.
proof fn lemma_in_source(len: int, width: int, stride: int, first: int, count: int, i: int, j: int)
    requires
        stride >= 0,
        source_covers(len, width, stride, first, count),
        0 <= i < count,
        0 <= j < width,
    ensures
        j * stride <= (width - 1) * stride,
        first + i + j * stride < len,
{
    lemma_mul_inequality(j, width - 1, stride);
}

/// Byte `j` of value `i` goes to place `i * width + j` of the output, which is inside it.
pub proof fn lemma_slot(width: int, count: int, i: int, j: int)
    requires
        0 <= i < count,
        0 <= j < width,
    ensures
        i * width + j < count * width,
        (i * width + j) / width == i,
        (i * width + j) % width == j,
        (i + 1) * width == i * width + width,
{
    lemma_mul_is_distributive_add_other_way(width, i, 1);
    lemma_mul_inequality(i + 1, count, width);
    lemma_fundamental_div_mod_converse(i * width + j, width, i, j);
}

/// Fills `dst` with whole values of `TYPE_SIZE` bytes, the first of them value number
/// `values_decoded` of `src`. `src` holds all the streams, each `stride` bytes long; what is left
/// of `dst` behind the last whole value stays as it is.
pub fn join_streams_const<const TYPE_SIZE: usize>(
    src: &[u8],
    dst: &mut [u8],
    stride: usize,
    values_decoded: usize,
)
    requires
        TYPE_SIZE > 0,
        source_covers(
            src@.len() as int,
            TYPE_SIZE as int,
            stride as int,
            values_decoded as int,
            old(dst)@.len() as int / TYPE_SIZE as int,
        ),
    ensures
        final(dst)@.len() == old(dst)@.len(),
        final(dst)@ == joined(
            src@,
            TYPE_SIZE as int,
            stride as int,
            values_decoded as int,
            old(dst)@.len() as int / TYPE_SIZE as int,
        ) + old(dst)@.skip((old(dst)@.len() as int / TYPE_SIZE as int) * TYPE_SIZE),
{
    let sub_src = slice_subrange(src, values_decoded, src.len());
    let count: usize = dst.len() / TYPE_SIZE;
    let ghost before = dst@;
    let ghost target = joined(
        src@,
        TYPE_SIZE as int,
        stride as int,
        values_decoded as int,
        count as int,
    );
    proof {
        lemma_fundamental_div_mod(before.len() as int, TYPE_SIZE as int);
    }
    let mut i: usize = 0;
    while i < count
        invariant
            i <= count,
            TYPE_SIZE > 0,
            count * TYPE_SIZE <= before.len(),
            dst@.len() == before.len(),
            before.len() <= usize::MAX,
            sub_src@ == src@.skip(values_decoded as int),
            src@.len() <= usize::MAX,
            source_covers(
                src@.len() as int,
                TYPE_SIZE as int,
                stride as int,
                values_decoded as int,
                count as int,
            ),
            target == joined(
                src@,
                TYPE_SIZE as int,
                stride as int,
                values_decoded as int,
                count as int,
            ),
            forall|k: int| 0 <= k < i * TYPE_SIZE ==> dst@[k] == target[k],
            forall|k: int| i * TYPE_SIZE <= k < before.len() ==> dst@[k] == before[k],
        decreases count - i,
    {
        let mut j: usize = 0;
        while j < TYPE_SIZE
            invariant
                i < count,
                j <= TYPE_SIZE,
                count * TYPE_SIZE <= before.len(),
                dst@.len() == before.len(),
                before.len() <= usize::MAX,
                sub_src@ == src@.skip(values_decoded as int),
                src@.len() <= usize::MAX,
                source_covers(
                    src@.len() as int,
                    TYPE_SIZE as int,
                    stride as int,
                    values_decoded as int,
                    count as int,
                ),
                target == joined(
                    src@,
                    TYPE_SIZE as int,
                    stride as int,
                    values_decoded as int,
                    count as int,
                ),
                forall|k: int| 0 <= k < i * TYPE_SIZE + j ==> dst@[k] == target[k],
                forall|k: int| i * TYPE_SIZE + j <= k < before.len() ==> dst@[k] == before[k],
            decreases TYPE_SIZE - j,
        {
            proof {
                lemma_slot(TYPE_SIZE as int, count as int, i as int, j as int);
                lemma_in_source(
                    src@.len() as int,
                    TYPE_SIZE as int,
                    stride as int,
                    values_decoded as int,
                    count as int,
                    i as int,
                    j as int,
                );
            }
            dst[i * TYPE_SIZE + j] = sub_src[i + j * stride];
            j = j + 1;
        }
        proof {
            lemma_mul_is_distributive_add_other_way(TYPE_SIZE as int, i as int, 1);
        }
        i = i + 1;
    }
    assert(dst@ =~= target + before.skip(count * TYPE_SIZE));
}

/// Like [`join_streams_const`], for a value size that is not known at compile time.
pub fn join_streams_variable(
    src: &[u8],
    dst: &mut [u8],
    stride: usize,
    type_size: usize,
    values_decoded: usize,
)
    requires
        type_size > 0,
        source_covers(
            src@.len() as int,
            type_size as int,
            stride as int,
            values_decoded as int,
            old(dst)@.len() as int / type_size as int,
        ),
    ensures
        final(dst)@.len() == old(dst)@.len(),
        final(dst)@ == joined(
            src@,
            type_size as int,
            stride as int,
            values_decoded as int,
            old(dst)@.len() as int / type_size as int,
        ) + old(dst)@.skip((old(dst)@.len() as int / type_size as int) * type_size),
{
    let sub_src = slice_subrange(src, values_decoded, src.len());
    let count: usize = dst.len() / type_size;
    let ghost before = dst@;
    let ghost target = joined(
        src@,
        type_size as int,
        stride as int,
        values_decoded as int,
        count as int,
    );
    proof {
        lemma_fundamental_div_mod(before.len() as int, type_size as int);
    }
    let mut i: usize = 0;
    while i < count
        invariant
            i <= count,
            type_size > 0,
            count * type_size <= before.len(),
            dst@.len() == before.len(),
            before.len() <= usize::MAX,
            sub_src@ == src@.skip(values_decoded as int),
            src@.len() <= usize::MAX,
            source_covers(
                src@.len() as int,
                type_size as int,
                stride as int,
                values_decoded as int,
                count as int,
            ),
            target == joined(
                src@,
                type_size as int,
                stride as int,
                values_decoded as int,
                count as int,
            ),
            forall|k: int| 0 <= k < i * type_size ==> dst@[k] == target[k],
            forall|k: int| i * type_size <= k < before.len() ==> dst@[k] == before[k],
        decreases count - i,
    {
        let mut j: usize = 0;
        while j < type_size
            invariant
                i < count,
                j <= type_size,
                count * type_size <= before.len(),
                dst@.len() == before.len(),
                before.len() <= usize::MAX,
                sub_src@ == src@.skip(values_decoded as int),
                src@.len() <= usize::MAX,
                source_covers(
                    src@.len() as int,
                    type_size as int,
                    stride as int,
                    values_decoded as int,
                    count as int,
                ),
                target == joined(
                    src@,
                    type_size as int,
                    stride as int,
                    values_decoded as int,
                    count as int,
                ),
                forall|k: int| 0 <= k < i * type_size + j ==> dst@[k] == target[k],
                forall|k: int| i * type_size + j <= k < before.len() ==> dst@[k] == before[k],
            decreases type_size - j,
        {
            proof {
                lemma_slot(type_size as int, count as int, i as int, j as int);
                lemma_in_source(
                    src@.len() as int,
                    type_size as int,
                    stride as int,
                    values_decoded as int,
                    count as int,
                    i as int,
                    j as int,
                );
            }
            dst[i * type_size + j] = sub_src[i + j * stride];
            j = j + 1;
        }
        proof {
            lemma_mul_is_distributive_add_other_way(type_size as int, i as int, 1);
        }
        i = i + 1;
    }
    assert(dst@ =~= target + before.skip(count * type_size));
}

} // verus!
