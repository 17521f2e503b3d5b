use redis_clone::text::{ascii_string, printable_string};

#[test]
fn ascii_bytes_become_their_text() {
    assert_eq!(ascii_string(vec![104, 105, 32, 0, 127]), "hi \0\u{7f}");
    assert_eq!(ascii_string(Vec::new()), "");
}

#[test]
fn unprintable_bytes_are_shown_as_question_marks() {
    assert_eq!(printable_string(b"plain text ~"), "plain text ~");
    assert_eq!(printable_string(&[31, 32, 126, 127, 0, 13, 10, 200]), "? ~?????");
    assert_eq!(printable_string(b""), "");
}
