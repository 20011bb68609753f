use dce_lib::tables::add;

#[test]
fn it_works() {
    let result = add(2, 2);
    assert_eq!(result, 4);
}

#[test]
fn add_zero_is_identity() {
    assert_eq!(add(0, 7), 7);
    assert_eq!(add(7, 0), 7);
}
