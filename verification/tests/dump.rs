use mc_protocol::dump::{rows, signed_bytes, ROW_WIDTH};

#[test]
fn bytes_read_as_signed() {
    assert_eq!(signed_bytes(&vec![0, 1, 127, 128, 200, 255]), vec![0, 1, 127, -128, -56, -1]);
    assert_eq!(signed_bytes(&vec![]), Vec::<i8>::new());
}

#[test]
fn rows_of_ten_with_a_short_last_row() {
    let values: Vec<i8> = (0..23).collect();
    let r = rows(&values);
    assert_eq!(r.len(), 3);
    assert_eq!(r[0], (0..10).collect::<Vec<i8>>());
    assert_eq!(r[1], (10..20).collect::<Vec<i8>>());
    assert_eq!(r[2], vec![20, 21, 22]);
    assert_eq!(ROW_WIDTH, 10);
}

#[test]
fn rows_of_exact_multiples_and_nothing() {
    let values: Vec<i8> = (0..20).map(|x| -x).collect();
    let r = rows(&values);
    assert_eq!(r.len(), 2);
    assert_eq!(r.concat(), values);
    assert!(rows(&Vec::new()).is_empty());
}
