use volume::util;

#[test]
fn sum_ivec3() {
    let v1 = [4, 6, 1];
    let v2 = [6, 7, 3];

    assert_eq!(util::sum_ivec3(v1, v2), [10i64, 13, 4]);

    let v1 = [-5, 3, 0];
    let v2 = [-0, 2, 6432];

    assert_eq!(util::sum_ivec3(v1, v2), [-5i64, 5, 6432]);
}

#[test]
fn sub_ivec3() {
    let v1 = [5, 3, -2];
    let v2 = [-4, -9, 7];

    assert_eq!(util::sub_ivec3(v1, v2), [9, 12, -9]);
}

#[test]
fn boxed_slice() {
    let bs = util::boxed_slice(600i32, 10);
    let expected = [600i32; 10].to_vec().into_boxed_slice();

    assert_eq!(bs, expected);
}

#[test]
fn boxed_slice_empty() {
    let bs = util::boxed_slice(7u8, 0);
    assert_eq!(bs.len(), 0);
}
