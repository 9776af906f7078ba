//! What all decoders have in common.
use bytes::Bytes;
use vstd::prelude::*;

use crate::basic::Encoding;
use crate::data_type::{DataType, ParquetValueType};
use crate::errors::ParquetError;
use crate::page::SplitPage;

verus! {

/// A decoder takes a page and then delivers its values, in order and in pieces of any size.
pub trait Decoder<T: DataType>: Sized {
    /// The page that is being read.
    spec fn page(&self) -> SplitPage;

    /// What holds of every decoder between calls.
    spec fn inv(&self) -> bool;

    /// The decoder can judge a page of these bytes.
    spec fn can_judge(&self, data: Seq<u8>) -> bool;

    /// The text with which a page is refused, or `None` for a page that is taken.
    spec fn page_refusal(&self, data: Seq<u8>, num_values: nat) -> Option<Seq<char>>;

    /// The text with which values are refused, or `None` for a decoder that delivers.
    spec fn get_refusal(&self) -> Option<Seq<char>>;

    /// The page of a decoder is well-formed.
    proof fn lemma_page_wf(&self)
        requires
            self.inv(),
        ensures
            self.page().wf(),
    ;

    /// Takes a page of `num_values` values. A page that is refused leaves the decoder as it was.
    fn set_data(&mut self, data: Bytes, num_values: usize) -> (result: Result<(), ParquetError>)
        requires
            old(self).inv(),
            old(self).can_judge(crate::buffer::contents(data)),
        ensures
            final(self).inv(),
            match old(self).page_refusal(crate::buffer::contents(data), num_values as nat) {
                None => {
                    &&& result is Ok
                    &&& final(self).page() == SplitPage::unread(
                        crate::buffer::contents(data),
                        old(self).page().width,
                        num_values as nat,
                    )
                },
                Some(text) => {
                    &&& result matches Err(error) && error.message() == text
                    &&& *final(self) == *old(self)
                },
            },
    ;

    /// Delivers the next values into the front of `buffer`, as many as it has room for and the
    /// page has left, and returns how many they were. The rest of `buffer` stays as it was.
    fn get(&mut self, buffer: &mut [T::T]) -> (result: Result<usize, ParquetError>)
        requires
            old(self).inv(),
            old(self).page().width > 0,
        ensures
            final(self).inv(),
            final(buffer)@.len() == old(buffer)@.len(),
            match old(self).get_refusal() {
                None => {
                    let n = old(self).page().served(old(buffer)@.len());
                    &&& result matches Ok(count) && count == n
                    &&& n <= old(buffer)@.len()
                    &&& n < old(buffer)@.len() ==> final(self).page().decoded == old(
                        self,
                    ).page().total
                    &&& final(self).page().decoded == old(self).page().decoded + n
                    &&& final(self).page() == old(self).page().after(old(buffer)@.len())
                    &&& forall|i: int| #![trigger final(buffer)@[i]]
                        0 <= i < n ==> final(buffer)@[i].raw() == old(self).page().next_values(n)[i]
                    &&& forall|i: int| #![trigger final(buffer)@[i]]
                        n <= i < old(buffer)@.len() ==> final(buffer)@[i] == old(buffer)@[i]
                },
                Some(text) => {
                    &&& result matches Err(error) && error.message() == text
                    &&& *final(self) == *old(self)
                    &&& final(buffer)@ == old(buffer)@
                },
            },
    ;

    /// The number of values that are still to come.
    fn values_left(&self) -> (left: usize)
        requires
            self.inv(),
        ensures
            left == self.page().values_left(),
            left + self.page().decoded == self.page().total,
    ;

    /// The encoding of the pages.
    fn encoding(&self) -> (encoding: Encoding)
        ensures
            encoding == Encoding::BYTE_STREAM_SPLIT,
    ;

    /// Passes over the next `num_values` values, or as many as are left, and returns how many
    /// they were.
    fn skip(&mut self, num_values: usize) -> (result: Result<usize, ParquetError>)
        requires
            old(self).inv(),
        ensures
            final(self).inv(),
            result matches Ok(count) && count == old(self).page().served(num_values as nat),
            final(self).page() == old(self).page().after(num_values as nat),
            result matches Ok(count) && {
                &&& count <= num_values
                &&& count < num_values ==> final(self).page().decoded == old(self).page().total
                &&& final(self).page().decoded == old(self).page().decoded + count
            },
    ;
}

} // verus!
