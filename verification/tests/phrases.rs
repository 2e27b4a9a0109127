use improve_command::phrase::{assistant_phrase_sample, repetition_key};

#[test]
fn repetition_key_collapses_minor_formatting_changes() {
    let left = repetition_key("I will inspect the command plumbing first.");
    let right = repetition_key("I'll inspect the command plumbing first!");
    assert_eq!(left, right);
}

#[test]
fn a_key_is_made_of_lower_case_words() {
    assert_eq!(
        repetition_key("I'll INSPECT the -- command plumbing (first)!"),
        Some("i will inspect the command plumbing first".to_string())
    );
    assert_eq!(
        repetition_key("We've seen they're here, I'm sure of 2 things"),
        Some("we have seen they are here i am sure of 2 things".to_string())
    );
}

#[test]
fn a_first_word_is_no_contraction_tail() {
    assert_eq!(
        repetition_key("ll means something else at the start"),
        Some("ll means something else at the start".to_string())
    );
    assert_eq!(
        repetition_key("'m means something else at the start"),
        Some("m means something else at the start".to_string())
    );
}

#[test]
fn letters_outside_ascii_separate_words() {
    assert_eq!(
        repetition_key("naïve approaches are collected here"),
        Some("na have approaches are collected here".to_string())
    );
}

#[test]
fn short_phrases_have_no_key() {
    assert_eq!(repetition_key(""), None);
    assert_eq!(repetition_key("internationalization considerations everywhere"), None);
    assert_eq!(repetition_key("a b c d e f g h i j k l"), None);
    // 23 characters in four words, and then 24.
    assert_eq!(repetition_key("abcde abcde abcde abcde"), None);
    assert_eq!(
        repetition_key("abcde abcde abcde abcdef"),
        Some("abcde abcde abcde abcdef".to_string())
    );
    // Writing a contraction out can make the difference.
    assert_eq!(
        repetition_key("abcde abcde abcd'll abcd"),
        Some("abcde abcde abcd will abcd".to_string())
    );
}

#[test]
fn the_key_of_a_key_is_that_key() {
    let key = repetition_key("They're sure that we'll find the culprit").unwrap();
    assert_eq!(key, "they are sure that we will find the culprit");
    assert_eq!(repetition_key(&key), Some(key.clone()));
    assert_eq!(key.len(), key.chars().count());
}

#[test]
fn keys_ignore_case_marks_and_gaps() {
    let key = repetition_key("Let me check the failing test again");
    assert!(key.is_some());
    assert_eq!(repetition_key("LET ME CHECK THE FAILING TEST AGAIN"), key);
    assert_eq!(repetition_key("Let me-check/the_failing.test again"), key);
    assert_eq!(repetition_key("** Let me check --- the failing test again: **"), key);
}

#[test]
fn contractions_have_the_key_of_what_they_stand_for() {
    for (short, long) in [
        ("Now I'll rebuild the whole workspace", "Now I will rebuild the whole workspace"),
        ("Now we've rebuilt the whole workspace", "Now we have rebuilt the whole workspace"),
        ("Now you're rebuilding the workspace", "Now you are rebuilding the workspace"),
        ("Now I\u{2019}m rebuilding the workspace", "Now I am rebuilding the workspace"),
    ] {
        assert!(repetition_key(short).is_some());
        assert_eq!(repetition_key(short), repetition_key(long));
    }
}

#[test]
fn a_sample_is_the_first_line_of_prose() {
    assert_eq!(
        assistant_phrase_sample("\n  \n```rust\n  I will  run the test suite now.  \nDone"),
        Some("I will run the test suite now.".to_string())
    );
    assert_eq!(
        assistant_phrase_sample("  ```text\r\nThe second line is what counts here\r\n"),
        Some("The second line is what counts here".to_string())
    );
}

#[test]
fn a_message_without_a_usable_line_has_no_sample() {
    assert_eq!(assistant_phrase_sample(""), None);
    assert_eq!(assistant_phrase_sample("   \n\t\n"), None);
    assert_eq!(assistant_phrase_sample("```\n```"), None);
    // The first line of prose is too short, and later ones are not looked at.
    assert_eq!(
        assistant_phrase_sample("Done.\nI will now run the whole test suite again."),
        None
    );
}

#[test]
fn a_long_sample_is_shortened() {
    let line = "word ".repeat(60);
    let sample = assistant_phrase_sample(&line).unwrap();
    assert_eq!(sample.chars().count(), 123);
    assert_eq!(sample, format!("{}...", "word ".repeat(24)));
    assert!(repetition_key(&sample).is_some());
}
