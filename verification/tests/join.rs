use byte_stream_split::{join_streams_const, join_streams_variable};

#[test]
fn const_join_fills_whole_values_only() {
    let src = [1u8, 2, 3, 4, 5, 6, 7, 8];
    let mut dst = [99u8; 5];
    join_streams_const::<2>(&src, &mut dst, 4, 1);
    assert_eq!(dst, [2, 6, 3, 7, 99]);
}

#[test]
fn variable_join_fills_whole_values_only() {
    let src = [1u8, 2, 3, 4, 5, 6, 7, 8, 9];
    let mut dst = [99u8; 7];
    join_streams_variable(&src, &mut dst, 3, 3, 1);
    assert_eq!(dst, [2, 5, 8, 3, 6, 9, 99]);
}

#[test]
fn both_joins_agree() {
    let src: Vec<u8> = (0..64).collect();
    let mut a = vec![0u8; 48];
    let mut b = vec![0u8; 48];
    join_streams_const::<16>(&src, &mut a, 4, 1);
    join_streams_variable(&src, &mut b, 4, 16, 1);
    assert_eq!(a, b);
    assert_eq!(a[0..3], [1, 5, 9]);
    assert_eq!(a[47], 63);
}

#[test]
fn joining_nothing_reads_nothing() {
    let mut dst = [5u8; 3];
    join_streams_const::<4>(&[], &mut dst, 0, 0);
    join_streams_variable(&[1], &mut dst, 7, 4, 1);
    assert_eq!(dst, [5, 5, 5]);
}
