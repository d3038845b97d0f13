use wordcount::{count, CountOption};

#[test]
fn char_count_works() {
    let input = b"abadracadabra";

    let freqs = count(input, CountOption::Char).unwrap();
    assert_eq!(freqs.get("a"), Some(6));
    assert_eq!(freqs.get("b"), Some(2));
    assert_eq!(freqs.get("c"), Some(1));
    assert_eq!(freqs.get("d"), Some(2));
    assert_eq!(freqs.get("r"), Some(2));
    assert_eq!(freqs.len(), 5);
}

#[test]
fn char_count_takes_scalar_values_across_lines() {
    let input = "日本\néé\r\n".as_bytes();
    let freqs = count(input, CountOption::Char).unwrap();
    assert_eq!(freqs.get("日"), Some(1));
    assert_eq!(freqs.get("本"), Some(1));
    assert_eq!(freqs.get("é"), Some(2));
    assert_eq!(freqs.get("\r"), None);
    assert_eq!(freqs.get("\n"), None);
    assert_eq!(freqs.len(), 3);
}

#[test]
fn char_count_does_not_join_combining_marks() {
    let input = "e\u{301}e".as_bytes();
    let freqs = count(input, CountOption::Char).unwrap();
    assert_eq!(freqs.get("e"), Some(2));
    assert_eq!(freqs.get("\u{301}"), Some(1));
    assert_eq!(freqs.len(), 2);
}
