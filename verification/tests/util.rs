use http::util::{divide, frobnicate3, is_normal, is_strong, noalias};

#[test]
fn normal_types() {
    is_normal::<http::httprequest::HttpRequest>();
}

#[test]
fn division_truncates_toward_zero() {
    assert_eq!(divide(10, 2), 5);
    assert_eq!(divide(7, 2), 3);
    assert_eq!(divide(-7, 2), -3);
    assert_eq!(divide(7, -2), -3);
    assert_eq!(divide(-7, -2), 3);
    assert_eq!(divide(i32::MIN, 2), -1073741824);
}

#[test]
fn password_strength_is_a_byte_length_check() {
    assert!(is_strong("jackdss"));
    assert!(!is_strong("jack"));
    assert!(!is_strong("12345"));
    assert!(is_strong("123456"));
    // Three two-byte characters occupy six bytes: long enough, though it
    // is only three characters.
    assert!(is_strong("\u{e9}\u{e9}\u{e9}"));
    assert!(!is_strong("\u{e9}\u{e9}"));
}

#[test]
fn noalias_writes_what_the_input_decides() {
    let mut out: i32 = 0;
    noalias(&1, &mut out);
    assert_eq!(out, 2);
    noalias(&7, &mut out);
    assert_eq!(out, 3);
}

#[test]
fn frobnicate3_is_identity() {
    assert_eq!(frobnicate3(42u8), 42u8);
    assert_eq!(frobnicate3("hello"), "hello");
}
