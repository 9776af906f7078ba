use byte_stream_split::{
    DataType, DoubleType, F32Bits, F64Bits, FixedLenByteArray, FixedLenByteArrayType, FloatType,
    Int32Type, Int64Type, Int96, Int96Type, ParquetValueType, Type,
};
use bytes::Bytes;

#[test]
fn column_types_state_their_storage() {
    assert_eq!(Int32Type::get_physical_type(), Type::INT32);
    assert_eq!(Int64Type::get_physical_type(), Type::INT64);
    assert_eq!(Int96Type::get_physical_type(), Type::INT96);
    assert_eq!(FloatType::get_physical_type(), Type::FLOAT);
    assert_eq!(DoubleType::get_physical_type(), Type::DOUBLE);
    assert_eq!(FixedLenByteArrayType::get_physical_type(), Type::FIXED_LEN_BYTE_ARRAY);
    assert_eq!(Int32Type::get_type_size(), 4);
    assert_eq!(Int64Type::get_type_size(), 8);
    assert_eq!(Int96Type::get_type_size(), 12);
    assert_eq!(FloatType::get_type_size(), 4);
    assert_eq!(DoubleType::get_type_size(), 8);
    assert_eq!(
        FixedLenByteArrayType::get_type_size(),
        std::mem::size_of::<FixedLenByteArray>()
    );
}

#[test]
fn numbers_are_in_the_order_of_memory() {
    let mut a = 0i32;
    a.set_from_slice(&(-2i32).to_ne_bytes());
    assert_eq!(a, -2);
    a.set_from_bytes(Bytes::from(vec![1u8, 2, 3, 4]));
    assert_eq!(a, i32::from_ne_bytes([1, 2, 3, 4]));
    if 1u32.to_ne_bytes()[0] == 1 {
        assert_eq!(a, 0x0403_0201);
    } else {
        assert_eq!(a, 0x0102_0304);
    }
    let mut b = 0i64;
    b.set_from_bytes(Bytes::from(vec![1u8, 2, 3, 4, 5, 6, 7, 0x88]));
    assert_eq!(b, i64::from_ne_bytes([1, 2, 3, 4, 5, 6, 7, 0x88]));
    let mut c = F32Bits(0);
    c.set_from_bytes(Bytes::from(1.0f32.to_ne_bytes().to_vec()));
    assert_eq!(f32::from_bits(c.0), 1.0);
    let mut d = F64Bits(0);
    d.set_from_bytes(Bytes::from((-8.5f64).to_ne_bytes().to_vec()));
    assert_eq!(f64::from_bits(d.0), -8.5);
    let mut e = Int96 { low: 0, mid: 0, high: 0 };
    e.set_from_bytes(Bytes::from(vec![1u8, 0, 0, 0, 2, 0, 0, 0, 0, 0, 0, 3]));
    assert_eq!(
        e,
        Int96 {
            low: u32::from_ne_bytes([1, 0, 0, 0]),
            mid: u32::from_ne_bytes([2, 0, 0, 0]),
            high: u32::from_ne_bytes([0, 0, 0, 3]),
        }
    );
}

#[test]
fn byte_arrays_keep_their_bytes() {
    let mut slot = FixedLenByteArray::new();
    assert_eq!(slot.data(), None);
    slot.set_from_slice(&[4, 5, 6]);
    assert_eq!(slot.data(), Some(&[4u8, 5, 6][..]));
    slot.set_from_bytes(Bytes::from(vec![7u8]));
    assert_eq!(slot.data(), Some(&[7u8][..]));
}
