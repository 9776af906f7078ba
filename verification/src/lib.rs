//! Decoders for Parquet's `BYTE_STREAM_SPLIT` encoding.
//!
//! A page in this encoding holds fixed-width values with their bytes transposed: first byte 0 of
//! every value, then byte 1 of every value, and so on. Each such run is a *stream*.
//! [`ByteStreamSplitDecoder`] reads pages of numbers, [`VariableWidthByteStreamSplitDecoder`]
//! pages of fixed-length byte arrays; both are [`Decoder`]s.
//!
//! Contracts speak of a [`SplitPage`], the model of a page and of how far it has been read.
pub mod basic;
pub mod buffer;
pub mod byte_order;
pub mod byte_stream_split_decoder;
pub mod data_type;
pub mod decoder;
pub mod errors;
pub mod join;
pub mod laws;
pub mod page;

pub use basic::{Encoding, Type};
pub use byte_stream_split_decoder::{ByteStreamSplitDecoder, VariableWidthByteStreamSplitDecoder};
pub use data_type::{
    DataType, DoubleType, F32Bits, F64Bits, FixedLenByteArray, FixedLenByteArrayType, FloatType,
    Int32Type, Int64Type, Int96, Int96Type, ParquetValueType,
};
pub use decoder::Decoder;
pub use errors::ParquetError;
pub use join::{join_streams_const, join_streams_variable};
pub use page::SplitPage;
