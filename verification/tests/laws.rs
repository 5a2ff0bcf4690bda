use reword::{
    and_join, camel_case, kebab_case, name, name_with_limit, or_join, pascal_case, snake_case,
    username, username_with_limit,
};

#[test]
fn username_of_a_username_is_the_same() {
    for text in [
        "(Even), Olsson&Rogstadkjærnet?",
        "hello world",
        "AGPL_3_0_or_later",
        "can't stop, won't stop",
        "日本語 テキスト",
        "",
        "?!",
    ] {
        let once = username(text);
        assert_eq!(username(&once), once);
    }
}

#[test]
fn username_of_plain_text_is_the_text() {
    assert_eq!(username("evenolssonrogstadkjærnet"), "evenolssonrogstadkjærnet");
    assert_eq!(username("abc123"), "abc123");
    assert_eq!(username("日本語"), "日本語");
}

#[test]
fn username_changes_where_a_lowercase_mapping_holds_a_mark() {
    // The lowercase of this letter is an i and a combining dot, and the dot
    // is neither a letter nor a number.
    assert_eq!(username("İ"), "i\u{307}");
    assert_eq!(username("i\u{307}"), "i");
}

#[test]
fn username_of_no_letters_is_empty() {
    assert_eq!(username("!@#$%^&*()"), "");
    assert_eq!(username("   "), "");
    assert_eq!(username(""), "");
}

#[test]
fn usernames_run_the_words_together() {
    assert_eq!(username("Even Olsson"), "evenolsson");
    assert_eq!(username("R2 D2"), "r2d2");
    assert_eq!(username_with_limit("Even Olsson", 6), "eveno");
    assert_eq!(username_with_limit("Even Olsson", 2), "eo");
}

#[test]
fn name_is_clean() {
    assert_eq!(name(""), "");
    assert_eq!(name("  ?? "), "");
    assert_eq!(name("  a   b  "), "a b");
    assert_eq!(name("a,b;c"), "a b c");
    assert_eq!(name("The quick (\"brown\") fox can't jump 32.3 feet, right?"),
        "The quick brown fox can't jump 32.3 feet right");
}

#[test]
fn name_of_a_name_is_the_same() {
    for text in ["(Even), Olsson&Rogstadkjærnet?", "a,b;c", "  x  ", ""] {
        let once = name(text);
        assert_eq!(name(&once), once);
    }
}

#[test]
fn limit_zero_leaves_nothing() {
    for text in ["(Even), Olsson&Rogstadkjærnet?", "a", "a b c d e f", ""] {
        assert_eq!(name_with_limit(text, 0), "");
        assert_eq!(username_with_limit(text, 0), "");
    }
}

#[test]
fn cases_lose_what_the_name_had() {
    assert_eq!(snake_case("Hello World"), "hello_world");
    assert_eq!(snake_case("hello-world"), "hello_world");
    assert_eq!(snake_case("HELLO  WORLD"), "hello_world");
    assert_eq!(kebab_case("hello_world"), kebab_case("Hello World"));
    assert_eq!(camel_case("hello_world"), camel_case("HELLO WORLD"));
    assert_ne!(pascal_case(&snake_case("iNpUt")), "iNpUt");
}

#[test]
fn lists_of_up_to_three() {
    assert_eq!(or_join(&[]), "");
    assert_eq!(and_join(&[]), "");
    for x in ["x", "", "a or b", "é"] {
        assert_eq!(or_join(&[x]), x);
        assert_eq!(and_join(&[x]), x);
    }
    for (a, b, c) in [("a", "b", "c"), ("one", "two", "three"), ("", "x", "")] {
        assert_eq!(or_join(&[a, b]), format!("{} or {}", a, b));
        assert_eq!(and_join(&[a, b]), format!("{} and {}", a, b));
        assert_eq!(or_join(&[a, b, c]), format!("{}, {} or {}", a, b, c));
        assert_eq!(and_join(&[a, b, c]), format!("{}, {} and {}", a, b, c));
    }
}
