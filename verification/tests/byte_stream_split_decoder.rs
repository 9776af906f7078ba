use byte_stream_split::{
    ByteStreamSplitDecoder, Decoder, DoubleType, Encoding, F32Bits, F64Bits, FixedLenByteArray,
    FixedLenByteArrayType, FloatType, Int32Type, Int64Type, Int96, Int96Type, ParquetError,
    VariableWidthByteStreamSplitDecoder,
};
use bytes::Bytes;

/// The page of the given values, each as its bytes.
fn encode(values: &[Vec<u8>], width: usize) -> Bytes {
    let mut page = Vec::new();
    for j in 0..width {
        for value in values {
            page.push(value[j]);
        }
    }
    Bytes::from(page)
}

fn i32_page(values: &[i32]) -> Bytes {
    let raw: Vec<Vec<u8>> = values.iter().map(|v| v.to_ne_bytes().to_vec()).collect();
    encode(&raw, 4)
}

fn text_of<V>(result: Result<V, ParquetError>) -> String {
    match result {
        Ok(_) => panic!("an error was expected"),
        Err(ParquetError::General(text)) => text,
    }
}

fn arrays(slots: &[FixedLenByteArray]) -> Vec<Option<Vec<u8>>> {
    slots.iter().map(|slot| slot.data().map(|d| d.to_vec())).collect()
}

#[test]
fn test_set_data_rejects_truncated_page() {
    // 20 bytes of data, but the page claims 10 f32 (4-byte) values, which would
    // require 40 bytes.
    let mut decoder = ByteStreamSplitDecoder::<FloatType>::new();
    let data = Bytes::from(vec![0u8; 20]);
    assert!(decoder.set_data(data, 10).is_err());
}

#[test]
fn test_set_data_accepts_exact_length() {
    // 40 bytes for 10 f32 values is exactly right and must succeed.
    let mut decoder = ByteStreamSplitDecoder::<FloatType>::new();
    let data = Bytes::from(vec![0u8; 40]);
    assert!(decoder.set_data(data, 10).is_ok());
}

#[test]
fn test_variable_width_set_data_rejects_truncated_page() {
    // type_width = 4, so 20 bytes holds 5 elements, but the page claims 10 values.
    let mut decoder = VariableWidthByteStreamSplitDecoder::<FixedLenByteArrayType>::new(4);
    let data = Bytes::from(vec![0u8; 20]);
    assert!(decoder.set_data(data, 10).is_err());
}

#[test]
fn test_variable_width_set_data_accepts_sufficient_length() {
    // 40 bytes with type_width 4 holds 10 elements, matching the claimed value count.
    let mut decoder = VariableWidthByteStreamSplitDecoder::<FixedLenByteArrayType>::new(4);
    let data = Bytes::from(vec![0u8; 40]);
    assert!(decoder.set_data(data, 10).is_ok());
}

#[test]
fn new_decoder_has_nothing_to_deliver() {
    let mut decoder = ByteStreamSplitDecoder::<Int32Type>::new();
    assert_eq!(decoder.values_left(), 0);
    let mut buffer = [7i32; 2];
    assert_eq!(decoder.get(&mut buffer), Ok(0));
    assert_eq!(buffer, [7, 7]);
    assert_eq!(decoder.skip(5), Ok(0));
}

#[test]
fn both_decoders_name_their_encoding() {
    let fixed = ByteStreamSplitDecoder::<Int64Type>::new();
    let variable = VariableWidthByteStreamSplitDecoder::<FixedLenByteArrayType>::new(3);
    assert_eq!(fixed.encoding(), Encoding::BYTE_STREAM_SPLIT);
    assert_eq!(variable.encoding(), Encoding::BYTE_STREAM_SPLIT);
}

#[test]
fn i32_values_come_back() {
    let values = [0, 1, -1, i32::MAX, i32::MIN, 0x0102_0304];
    let mut decoder = ByteStreamSplitDecoder::<Int32Type>::new();
    decoder.set_data(i32_page(&values), 6).unwrap();
    let mut buffer = [0i32; 6];
    assert_eq!(decoder.get(&mut buffer), Ok(6));
    assert_eq!(buffer, values);
}

#[test]
fn i64_values_come_back() {
    let values = [5i64, -5, i64::MAX, i64::MIN, 0x0102_0304_0506_0708];
    let raw: Vec<Vec<u8>> = values.iter().map(|v| v.to_ne_bytes().to_vec()).collect();
    let mut decoder = ByteStreamSplitDecoder::<Int64Type>::new();
    decoder.set_data(encode(&raw, 8), 5).unwrap();
    let mut buffer = [0i64; 5];
    assert_eq!(decoder.get(&mut buffer), Ok(5));
    assert_eq!(buffer, values);
}

#[test]
fn float_values_come_back() {
    let values = [1.5f32, -0.0, f32::INFINITY, 3.25e-20];
    let raw: Vec<Vec<u8>> = values.iter().map(|v| v.to_ne_bytes().to_vec()).collect();
    let mut decoder = ByteStreamSplitDecoder::<FloatType>::new();
    decoder.set_data(encode(&raw, 4), 4).unwrap();
    let mut buffer = [F32Bits(0); 4];
    assert_eq!(decoder.get(&mut buffer), Ok(4));
    for i in 0..4 {
        assert_eq!(buffer[i].0, values[i].to_bits());
    }
}

#[test]
fn double_values_come_back() {
    let values = [2.5f64, -1.0e300, f64::NEG_INFINITY];
    let raw: Vec<Vec<u8>> = values.iter().map(|v| v.to_ne_bytes().to_vec()).collect();
    let mut decoder = ByteStreamSplitDecoder::<DoubleType>::new();
    decoder.set_data(encode(&raw, 8), 3).unwrap();
    let mut buffer = [F64Bits(0); 3];
    assert_eq!(decoder.get(&mut buffer), Ok(3));
    for i in 0..3 {
        assert_eq!(buffer[i].0, values[i].to_bits());
    }
}

#[test]
fn streams_are_joined_as_laid_out() {
    let page = Bytes::from(vec![1u8, 2, 3, 4, 5, 6, 7, 8]);
    let mut decoder = ByteStreamSplitDecoder::<Int32Type>::new();
    decoder.set_data(page, 2).unwrap();
    let mut buffer = [0i32; 2];
    assert_eq!(decoder.get(&mut buffer), Ok(2));
    assert_eq!(buffer, [i32::from_ne_bytes([1, 3, 5, 7]), i32::from_ne_bytes([2, 4, 6, 8])]);
}

#[test]
fn requests_add_up() {
    let values = [10, 20, 30, 40, 50];
    let mut decoder = ByteStreamSplitDecoder::<Int32Type>::new();
    decoder.set_data(i32_page(&values), 5).unwrap();
    let mut first = [0i32; 2];
    let mut second = [0i32; 3];
    assert_eq!(decoder.get(&mut first), Ok(2));
    assert_eq!(decoder.values_left(), 3);
    assert_eq!(decoder.get(&mut second), Ok(3));
    assert_eq!(decoder.values_left(), 0);
    assert_eq!(first, [10, 20]);
    assert_eq!(second, [30, 40, 50]);
}

#[test]
fn skipped_values_are_dropped() {
    let values = [10, 20, 30, 40, 50];
    let mut decoder = ByteStreamSplitDecoder::<Int32Type>::new();
    decoder.set_data(i32_page(&values), 5).unwrap();
    assert_eq!(decoder.skip(3), Ok(3));
    let mut buffer = [0i32; 1];
    assert_eq!(decoder.get(&mut buffer), Ok(1));
    assert_eq!(buffer, [40]);
    assert_eq!(decoder.skip(9), Ok(1));
    assert_eq!(decoder.values_left(), 0);
}

#[test]
fn pages_run_out() {
    let mut decoder = ByteStreamSplitDecoder::<Int32Type>::new();
    decoder.set_data(i32_page(&[8, 9]), 2).unwrap();
    let mut buffer = [-1i32; 4];
    assert_eq!(decoder.get(&mut buffer), Ok(2));
    assert_eq!(buffer, [8, 9, -1, -1]);
    assert_eq!(decoder.get(&mut buffer), Ok(0));
    assert_eq!(buffer, [8, 9, -1, -1]);
    assert_eq!(decoder.skip(1), Ok(0));
}

#[test]
fn a_new_page_starts_from_its_first_value() {
    let mut decoder = ByteStreamSplitDecoder::<Int32Type>::new();
    decoder.set_data(i32_page(&[1, 2, 3]), 3).unwrap();
    assert_eq!(decoder.skip(2), Ok(2));
    decoder.set_data(i32_page(&[4, 5]), 2).unwrap();
    assert_eq!(decoder.values_left(), 2);
    let mut buffer = [0i32; 2];
    assert_eq!(decoder.get(&mut buffer), Ok(2));
    assert_eq!(buffer, [4, 5]);
}

#[test]
fn length_mismatch_is_described() {
    let mut decoder = ByteStreamSplitDecoder::<FloatType>::new();
    let short = text_of(decoder.set_data(Bytes::from(vec![0u8; 20]), 10));
    assert_eq!(
        short,
        "byte stream split data length 20 does not match expected length 40 for 10 values of size 4"
    );
    let long = text_of(decoder.set_data(Bytes::from(vec![0u8; 41]), 10));
    assert_eq!(
        long,
        "byte stream split data length 41 does not match expected length 40 for 10 values of size 4"
    );
}

#[test]
fn size_overflow_is_described() {
    let mut decoder = ByteStreamSplitDecoder::<DoubleType>::new();
    let text = text_of(decoder.set_data(Bytes::new(), usize::MAX));
    assert_eq!(
        text,
        format!(
            "byte stream split num_values {} overflows when multiplied by type size 8",
            usize::MAX
        )
    );
}

#[test]
fn unsupported_size_is_described() {
    let mut decoder = ByteStreamSplitDecoder::<Int96Type>::new();
    decoder.set_data(Bytes::from(vec![1u8; 24]), 2).unwrap();
    let before = Int96 { low: 1, mid: 2, high: 3 };
    let mut buffer = [before; 2];
    let text = text_of(decoder.get(&mut buffer));
    assert_eq!(text, "byte stream split unsupported for data types of size 12 bytes");
    assert_eq!(buffer, [before; 2]);
    assert_eq!(decoder.values_left(), 2);
    assert_eq!(decoder.skip(1), Ok(1));
}

#[test]
fn a_refused_page_changes_nothing() {
    let mut decoder = ByteStreamSplitDecoder::<Int32Type>::new();
    decoder.set_data(i32_page(&[1, 2, 3]), 3).unwrap();
    assert_eq!(decoder.skip(1), Ok(1));
    assert!(decoder.set_data(Bytes::from(vec![0u8; 3]), 1).is_err());
    let mut buffer = [0i32; 2];
    assert_eq!(decoder.get(&mut buffer), Ok(2));
    assert_eq!(buffer, [2, 3]);
}

#[test]
fn byte_arrays_of_every_width_come_back() {
    for width in [1usize, 2, 3, 4, 5, 8, 16, 17] {
        let values: Vec<Vec<u8>> = (0..6usize)
            .map(|i| (0..width).map(|j| (i * 31 + j * 7) as u8).collect())
            .collect();
        let mut decoder =
            VariableWidthByteStreamSplitDecoder::<FixedLenByteArrayType>::new(width as i32);
        decoder.set_data(encode(&values, width), 6).unwrap();
        let mut first = vec![FixedLenByteArray::new(); 2];
        assert_eq!(decoder.get(&mut first), Ok(2));
        assert_eq!(arrays(&first), vec![Some(values[0].clone()), Some(values[1].clone())]);
        assert_eq!(decoder.skip(1), Ok(1));
        let mut rest = vec![FixedLenByteArray::new(); 4];
        assert_eq!(decoder.get(&mut rest), Ok(3));
        assert_eq!(
            arrays(&rest),
            vec![
                Some(values[3].clone()),
                Some(values[4].clone()),
                Some(values[5].clone()),
                None
            ]
        );
        assert_eq!(decoder.values_left(), 0);
    }
}

#[test]
fn byte_array_pages_may_hold_more_than_they_announce() {
    // Three elements of width two, of which two are announced.
    let page = Bytes::from(vec![1u8, 2, 3, 4, 5, 6]);
    let mut decoder = VariableWidthByteStreamSplitDecoder::<FixedLenByteArrayType>::new(2);
    decoder.set_data(page, 2).unwrap();
    assert_eq!(decoder.values_left(), 2);
    let mut slots = vec![FixedLenByteArray::new(); 3];
    assert_eq!(decoder.get(&mut slots), Ok(2));
    assert_eq!(arrays(&slots), vec![Some(vec![1, 4]), Some(vec![2, 5]), None]);
}

#[test]
fn an_exact_page_suits_both_decoders() {
    let page = i32_page(&[-7, 70_000]);
    let mut fixed = ByteStreamSplitDecoder::<Int32Type>::new();
    let mut variable = VariableWidthByteStreamSplitDecoder::<FixedLenByteArrayType>::new(4);
    fixed.set_data(page.clone(), 2).unwrap();
    variable.set_data(page, 2).unwrap();
    let mut numbers = [0i32; 2];
    let mut slots = vec![FixedLenByteArray::new(); 2];
    assert_eq!(fixed.get(&mut numbers), Ok(2));
    assert_eq!(variable.get(&mut slots), Ok(2));
    for i in 0..2 {
        assert_eq!(slots[i].data(), Some(&numbers[i].to_ne_bytes()[..]));
    }
}

#[test]
fn partial_values_are_described() {
    let mut decoder = VariableWidthByteStreamSplitDecoder::<FixedLenByteArrayType>::new(3);
    let text = text_of(decoder.set_data(Bytes::from(vec![0u8; 10]), 3));
    assert_eq!(text, "Input data length is not a multiple of type width 3");
}

#[test]
fn too_few_elements_are_described() {
    let mut decoder = VariableWidthByteStreamSplitDecoder::<FixedLenByteArrayType>::new(4);
    let text = text_of(decoder.set_data(Bytes::from(vec![0u8; 20]), 10));
    assert_eq!(
        text,
        "byte stream split data holds 5 elements of width 4 but 10 values were requested"
    );
}

#[test]
fn other_types_are_described() {
    let mut decoder = VariableWidthByteStreamSplitDecoder::<Int32Type>::new(4);
    let text = text_of(decoder.set_data(Bytes::from(vec![0u8; 8]), 2));
    assert_eq!(
        text,
        "VariableWidthByteStreamSplitDecoder only supports FixedLenByteArrayType"
    );
    // The length is judged before the type.
    let text = text_of(decoder.set_data(Bytes::from(vec![0u8; 9]), 2));
    assert_eq!(text, "Input data length is not a multiple of type width 4");
    let mut buffer = [3i32; 1];
    assert_eq!(decoder.get(&mut buffer), Ok(0));
    assert_eq!(buffer, [3]);
}

#[test]
fn zero_width_takes_no_bytes() {
    let mut decoder = VariableWidthByteStreamSplitDecoder::<FixedLenByteArrayType>::new(0);
    let text = text_of(decoder.set_data(Bytes::from(vec![0u8; 1]), 0));
    assert_eq!(text, "Input data length is not a multiple of type width 0");
    assert!(decoder.set_data(Bytes::from(vec![0u8; 3]), 2).is_err());
    assert_eq!(decoder.values_left(), 0);
    assert_eq!(decoder.skip(4), Ok(0));
}

#[test]
fn negative_length_wraps_round() {
    let mut decoder = VariableWidthByteStreamSplitDecoder::<FixedLenByteArrayType>::new(-1);
    let text = text_of(decoder.set_data(Bytes::from(vec![0u8; 4]), 1));
    assert_eq!(
        text,
        format!("Input data length is not a multiple of type width {}", usize::MAX)
    );
    assert!(decoder.set_data(Bytes::new(), 0).is_ok());
    let text = text_of(decoder.set_data(Bytes::new(), 1));
    assert_eq!(
        text,
        format!(
            "byte stream split data holds 0 elements of width {} but 1 values were requested",
            usize::MAX
        )
    );
    let mut slots = vec![FixedLenByteArray::new(); 1];
    assert_eq!(decoder.get(&mut slots), Ok(0));
    assert_eq!(arrays(&slots), vec![None]);
}

#[test]
fn a_refused_byte_array_page_changes_nothing() {
    let mut decoder = VariableWidthByteStreamSplitDecoder::<FixedLenByteArrayType>::new(2);
    decoder.set_data(Bytes::from(vec![1u8, 2, 3, 4]), 2).unwrap();
    assert_eq!(decoder.skip(1), Ok(1));
    assert!(decoder.set_data(Bytes::from(vec![0u8; 4]), 3).is_err());
    assert_eq!(decoder.values_left(), 1);
    let mut slots = vec![FixedLenByteArray::new(); 1];
    assert_eq!(decoder.get(&mut slots), Ok(1));
    assert_eq!(arrays(&slots), vec![Some(vec![2, 4])]);
}
