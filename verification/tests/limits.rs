use reword::limit::{shorten, Word};

const NAME: &str = "Even Olsson Rogstadkjærnet";

fn even_olsson() -> Vec<Word<'static>> {
    vec![
        Word { text: "Even", initial: "E", length: 4 },
        Word { text: "Olsson", initial: "O", length: 6 },
        Word { text: "Rogstadkjærnet", initial: "R", length: 14 },
    ]
}

#[test]
fn shorten_leaves_a_fitting_name() {
    assert_eq!(shorten(&even_olsson(), 26), "Even Olsson Rogstadkjærnet");
    assert_eq!(shorten(&even_olsson(), 100), "Even Olsson Rogstadkjærnet");
    assert_eq!(shorten(&even_olsson(), usize::MAX), "Even Olsson Rogstadkjærnet");
}

#[test]
fn shorten_abbreviates_from_the_last_word_backwards() {
    assert_eq!(shorten(&even_olsson(), 25), "Even Olsson R");
    assert_eq!(shorten(&even_olsson(), 13), "Even Olsson R");
    assert_eq!(shorten(&even_olsson(), 12), "Even O R");
    assert_eq!(shorten(&even_olsson(), 8), "Even O R");
}

#[test]
fn shorten_abbreviates_the_first_word_last() {
    assert_eq!(shorten(&even_olsson(), 7), "E O R");
    assert_eq!(shorten(&even_olsson(), 5), "E O R");
}

#[test]
fn shorten_drops_the_separators_before_it_drops_words() {
    assert_eq!(shorten(&even_olsson(), 4), "EOR");
    assert_eq!(shorten(&even_olsson(), 3), "EOR");
}

#[test]
fn shorten_keeps_the_first_words_where_initials_are_too_many() {
    assert_eq!(shorten(&even_olsson(), 2), "EO");
    assert_eq!(shorten(&even_olsson(), 1), "E");
    assert_eq!(shorten(&even_olsson(), 0), "");
}

#[test]
fn shorten_of_no_words_is_empty() {
    assert_eq!(shorten(&Vec::new(), 0), "");
    assert_eq!(shorten(&Vec::new(), 10), "");
}

#[test]
fn shorten_takes_the_initial_it_is_given() {
    let words = vec![
        Word { text: "one", initial: "1", length: 3 },
        Word { text: "two", initial: "2", length: 3 },
    ];
    assert_eq!(shorten(&words, 7), "one two");
    assert_eq!(shorten(&words, 6), "one 2");
    assert_eq!(shorten(&words, 4), "1 2");
    assert_eq!(shorten(&words, 2), "12");
    assert_eq!(shorten(&words, 1), "1");
}

#[test]
fn shorten_leaves_a_word_without_clusters_alone() {
    let words = vec![
        Word { text: "ab", initial: "a", length: 2 },
        Word { text: "", initial: "", length: 0 },
    ];
    assert_eq!(shorten(&words, 3), "ab ");
    assert_eq!(shorten(&words, 2), "a ");
    assert_eq!(shorten(&words, 1), "a");
    assert_eq!(shorten(&words, 0), "");
}

#[test]
fn shorten_counts_lengths_beyond_the_machine_word() {
    let words = vec![
        Word { text: "a", initial: "b", length: usize::MAX },
        Word { text: "c", initial: "d", length: usize::MAX },
    ];
    assert_eq!(shorten(&words, usize::MAX), "b d");
    assert_eq!(shorten(&words, 1), "b");
}

#[test]
fn measure_counts_grapheme_clusters() {
    let word = Word::measure("Rogstadkjærnet");
    assert_eq!(word.text, "Rogstadkjærnet");
    assert_eq!(word.initial, "R");
    assert_eq!(word.length, 14);
}

#[test]
fn measure_keeps_combining_marks_with_their_letter() {
    let word = Word::measure("e\u{301}te\u{301}");
    assert_eq!(word.text, "e\u{301}te\u{301}");
    assert_eq!(word.initial, "e\u{301}");
    assert_eq!(word.length, 3);
}

#[test]
fn measure_of_nothing() {
    let word = Word::measure("");
    assert_eq!(word.text, "");
    assert_eq!(word.initial, "");
    assert_eq!(word.length, 0);
}

#[test]
fn limit_counts_grapheme_clusters_not_characters() {
    // Two words: four characters in two clusters, and one character.
    let text = "e\u{301}e\u{301} x";
    assert_eq!(reword::name_with_limit(text, 4), "e\u{301}e\u{301} x");
    assert_eq!(reword::name_with_limit(text, 3), "e\u{301} x");
    assert_eq!(reword::name_with_limit(text, 2), "e\u{301}x");
    assert_eq!(reword::name_with_limit(text, 1), "e\u{301}");
}

#[test]
fn single_word_within_a_limit() {
    assert_eq!(reword::name_with_limit("Rogstadkjærnet", 14), "Rogstadkjærnet");
    assert_eq!(reword::name_with_limit("Rogstadkjærnet", 13), "R");
    assert_eq!(reword::name_with_limit("Rogstadkjærnet", 1), "R");
    assert_eq!(reword::name_with_limit("Rogstadkjærnet", 0), "");
}

#[test]
fn no_words_within_a_limit() {
    assert_eq!(reword::name_with_limit("", 10), "");
    assert_eq!(reword::name_with_limit("?!  -- ", 10), "");
    assert_eq!(reword::name_with_limit("", 0), "");
    assert_eq!(reword::username_with_limit("?!  -- ", 10), "");
}

#[test]
fn a_fitting_name_is_not_touched() {
    for limit in 26..40 {
        assert_eq!(reword::name_with_limit(NAME, limit), reword::name(NAME));
    }
    assert_ne!(reword::name_with_limit(NAME, 25), reword::name(NAME));
}

#[test]
fn a_limited_name_is_within_its_limit_and_grows_with_it() {
    // Each grapheme cluster of this name is one character.
    let mut before = 0;
    for limit in 0..30 {
        let length = reword::name_with_limit(NAME, limit).chars().count();
        assert!(length <= limit);
        assert!(before <= length);
        before = length;
    }
}

#[test]
fn cases_within_a_limit() {
    assert_eq!(reword::kebab_case_with_limit(NAME, 25), "even-olsson-r");
    assert_eq!(reword::screaming_kebab_case_with_limit(NAME, 25), "EVEN-OLSSON-R");
    assert_eq!(reword::snake_case_with_limit(NAME, 25), "even_olsson_r");
    assert_eq!(reword::screaming_snake_case_with_limit(NAME, 25), "EVEN_OLSSON_R");
    assert_eq!(reword::camel_case_with_limit(NAME, 25), "evenOlssonR");
    assert_eq!(reword::pascal_case_with_limit(NAME, 25), "EvenOlssonR");
}

#[test]
fn cases_within_a_small_limit() {
    assert_eq!(reword::kebab_case_with_limit(NAME, 12), "even-o-r");
    assert_eq!(reword::screaming_kebab_case_with_limit(NAME, 7), "E-O-R");
    assert_eq!(reword::snake_case_with_limit(NAME, 4), "eor");
    assert_eq!(reword::screaming_snake_case_with_limit(NAME, 2), "EO");
    assert_eq!(reword::camel_case_with_limit(NAME, 12), "evenOR");
    assert_eq!(reword::pascal_case_with_limit(NAME, 4), "Eor");
    assert_eq!(reword::pascal_case_with_limit(NAME, 0), "");
}

#[test]
fn cases_within_a_wide_limit() {
    assert_eq!(reword::kebab_case_with_limit(NAME, 26), reword::kebab_case(NAME));
    assert_eq!(reword::screaming_kebab_case_with_limit(NAME, 26), reword::screaming_kebab_case(NAME));
    assert_eq!(reword::snake_case_with_limit(NAME, 26), reword::snake_case(NAME));
    assert_eq!(reword::screaming_snake_case_with_limit(NAME, 26), reword::screaming_snake_case(NAME));
    assert_eq!(reword::camel_case_with_limit(NAME, 26), reword::camel_case(NAME));
    assert_eq!(reword::pascal_case_with_limit(NAME, 26), reword::pascal_case(NAME));
}
