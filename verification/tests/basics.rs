#[test]
fn ty_it_works() {
    let result = 2 + 2;
    assert_eq!(result, 4);
}

#[test]
fn lib_it_works() {
    let result = 2 + 2;
    assert_eq!(result, 4);
}

#[test]
fn builtin() {}
