use slight_keyvalue::Builder;

#[test]
fn builder_hands_back_its_inner_value() {
    let b = Builder::new(String::from("vm"));
    assert_eq!(b.inner(), "vm");
    assert_eq!(b.clone().owned_inner(), String::from("vm"));
}
