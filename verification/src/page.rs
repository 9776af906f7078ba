//! The model of a page in the `BYTE_STREAM_SPLIT` layout.
use vstd::arithmetic::div_mod::lemma_fundamental_div_mod;
use vstd::arithmetic::mul::{
    lemma_mul_inequality, lemma_mul_is_commutative, lemma_mul_is_distributive_add_other_way,
    lemma_mul_is_distributive_sub_other_way, lemma_mul_nonnegative,
};
use vstd::prelude::*;

verus! {

/// A page of values that are each `width` bytes wide, and how far it has been read.
pub struct SplitPage {
    /// All the bytes of the page, stream after stream.
    pub data: Seq<u8>,
    /// The number of bytes of a value, which is the number of streams.
    pub width: nat,
    /// The number of values that the page announces.
    pub total: nat,
    /// The number of those that have been delivered or skipped.
    pub decoded: nat,
}

impl SplitPage {
    /// A page that has not been read yet.
    pub open spec fn unread(data: Seq<u8>, width: nat, total: nat) -> Self {
        SplitPage { data, width, total, decoded: 0 }
    }

    /// The number of bytes of a stream: one for each value that the page has room for.
    pub open spec fn stride(self) -> nat {
        self.data.len() / self.width
    }

    /// The page consists of whole streams that hold every value it announces.
    pub open spec fn wf(self) -> bool {
        &&& self.decoded <= self.total
        &&& self.width > 0 ==> self.data.len() % self.width == 0 && self.total <= self.stride()
    }

    /// The bytes of value `i`: byte `j` is byte `i` of stream `j`.
    pub open spec fn value(self, i: int) -> Seq<u8> {
        Seq::new(self.width, |j: int| self.data[i + j * self.stride()])
    }

    /// The number of values that are still to come.
    pub open spec fn values_left(self) -> int {
        self.total - self.decoded
    }

    /// How many values a request for `n` values gets.
    pub open spec fn served(self, n: nat) -> nat {
        if n <= self.values_left() {
            n
        } else {
            self.values_left() as nat
        }
    }

    /// The next `n` values, each as its bytes.
    pub open spec fn next_values(self, n: nat) -> Seq<Seq<u8>> {
        Seq::new(n, |i: int| self.value(self.decoded + i))
    }

    /// The page after a request for `n` values.
    pub open spec fn after(self, n: nat) -> Self {
        SplitPage { decoded: self.decoded + self.served(n), ..self }
    }

    /// The bytes of the next `n` values, joined one after the other, are those of each value in
    /// turn.
    pub proof fn lemma_joined_value(self, n: nat, i: int)
        requires
            0 <= i < n,
        ensures
            0 <= i * self.width <= i * self.width + self.width <= n * self.width,
            crate::join::joined(
                self.data,
                self.width as int,
                self.stride() as int,
                self.decoded as int,
                n as int,
            ).subrange(i * self.width, i * self.width + self.width) == self.next_values(n)[i],
    {
        let width = self.width as int;
        let all = crate::join::joined(
            self.data,
            width,
            self.stride() as int,
            self.decoded as int,
            n as int,
        );
        lemma_mul_is_distributive_add_other_way(width, i, 1);
        lemma_mul_inequality(i + 1, n as int, width);
        lemma_mul_nonnegative(i, width);
        let part = all.subrange(i * width, i * width + width);
        let value = self.value(self.decoded + i);
        assert forall|j: int| 0 <= j < width implies #[trigger] part[j] == value[j] by {
            crate::join::lemma_slot(width, n as int, i, j);
        }
        assert(part =~= value);
    }

    /// The source of every value of the page lies inside it.
    pub proof fn lemma_source_covers(self, n: nat)
        requires
            self.wf(),
            self.width > 0,
            n <= self.values_left(),
        ensures
            self.data.len() == self.width * self.stride(),
            n * self.width <= self.data.len(),
            crate::join::source_covers(
                self.data.len() as int,
                self.width as int,
                self.stride() as int,
                self.decoded as int,
                n as int,
            ),
    {
        let width = self.width as int;
        let stride = self.stride() as int;
        lemma_fundamental_div_mod(self.data.len() as int, width);
        lemma_mul_is_distributive_sub_other_way(stride, width, 1);
        lemma_mul_inequality(1, width, stride);
        lemma_mul_inequality(n as int, stride, width);
        lemma_mul_is_commutative(stride, width);
    }
}

} // verus!
