#[test]
fn join_join() {
    assert_eq!(reword::or_join(&[]), "");
    assert_eq!(reword::or_join(&["a"]), "a");
    assert_eq!(reword::or_join(&["a", "b"]), "a or b");
    assert_eq!(reword::or_join(&["a", "b", "c"]), "a, b or c");
    assert_eq!(
        reword::or_join(&["a", "b", "c", "d", "e"]),
        "a, b, c, d or e"
    );
    assert_eq!(reword::and_join(&[]), "");
    assert_eq!(reword::and_join(&["a"]), "a");
    assert_eq!(reword::and_join(&["a", "b"]), "a and b");
    assert_eq!(reword::and_join(&["a", "b", "c"]), "a, b and c");
    assert_eq!(
        reword::and_join(&["a", "b", "c", "d", "e"]),
        "a, b, c, d and e"
    );
}
