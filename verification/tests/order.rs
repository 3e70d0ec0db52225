use clock::order::key_less;

#[test]
fn key_order_is_lexicographic() {
    assert!(key_less((1, 9), (2, 0)));
    assert!(!key_less((2, 0), (1, 9)));
    assert!(key_less((3, 1), (3, 2)));
    assert!(!key_less((3, 2), (3, 1)));
    assert!(!key_less((3, 2), (3, 2)));
}
