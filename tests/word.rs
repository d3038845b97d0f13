use wordcount::{count, read_lines, tally, CountError, CountOption};

#[test]
fn assert_test() {
    let a = 2;
    let b = 27;
    assert!(a + b == 29, "a={}, b={}", a, b);
}

#[test]
fn word_count_do_not_contain_unknown_words() {
    let input = [b'a', 0xf0, 0x90, 0x80, 0xe3, 0x81, 0x82];
    let r = count(&input, CountOption::Word);
    assert_eq!(r.err(), Some(CountError::InvalidEncoding));
}

#[test]
fn word_count_works3() {
    let freqs = count(b"aa cc dd", CountOption::Word).unwrap();
    assert_eq!(freqs.len(), 3);
    assert_eq!(freqs.get("aa"), Some(1));
    assert_eq!(freqs.get("cc"), Some(1));
    assert_eq!(freqs.get("dd"), Some(1));
}

#[test]
fn word_count_doc_example() {
    let freq = count(b"aa bb cc bb", CountOption::Word).unwrap();
    assert_eq!(freq.get("aa"), Some(1));
    assert_eq!(freq.get("bb"), Some(2));
    assert_eq!(freq.get("cc"), Some(1));
    assert_eq!(freq.len(), 3);
}

#[test]
fn word_count_skips_punctuation_and_keeps_underscores_and_digits() {
    let freq = count(b"foo_bar, 42! foo_bar--x\nx;", CountOption::Word).unwrap();
    assert_eq!(freq.get("foo_bar"), Some(2));
    assert_eq!(freq.get("42"), Some(1));
    assert_eq!(freq.get("x"), Some(2));
    assert_eq!(freq.get(","), None);
    assert_eq!(freq.get("foo"), None);
    assert_eq!(freq.len(), 3);
}

#[test]
fn word_count_is_case_sensitive() {
    let freq = count(b"Word word WORD word", CountOption::Word).unwrap();
    assert_eq!(freq.get("word"), Some(2));
    assert_eq!(freq.get("Word"), Some(1));
    assert_eq!(freq.get("WORD"), Some(1));
}

#[test]
fn word_count_repeats_the_same_table() {
    let input = b"one two two three three three";
    let a = count(input, CountOption::Word).unwrap();
    let b = count(input, CountOption::Word).unwrap();
    assert_eq!(a.len(), b.len());
    for k in a.keys() {
        assert_eq!(a.get(&k), b.get(&k));
    }
    assert_eq!(a.get("three"), Some(3));
}

#[test]
fn counts_are_positive() {
    for option in [CountOption::Char, CountOption::Word, CountOption::Line] {
        let freq = count(b"a a\n\n,,\nb", option).unwrap();
        for k in freq.keys() {
            assert!(freq.get(&k).unwrap() > 0);
        }
    }
}

#[test]
fn default_option_is_word() {
    assert_eq!(CountOption::default(), CountOption::Word);
}

#[test]
fn read_lines_splits_and_decodes() {
    let lines = read_lines("α\r\nβ\n\nγ".as_bytes()).unwrap();
    assert_eq!(lines, vec!["α".to_string(), "β".to_string(), "".to_string(), "γ".to_string()]);
    assert_eq!(read_lines(b"\n").unwrap(), vec!["".to_string()]);
    assert!(read_lines(b"").unwrap().is_empty());
    assert!(read_lines(b"ok\n\xc3").is_none());
}

#[test]
fn tally_counts_strings() {
    let tokens = vec!["x".to_string(), "y".to_string(), "x".to_string()];
    let t = tally(&tokens);
    assert_eq!(t.get("x"), Some(2));
    assert_eq!(t.get("y"), Some(1));
    assert_eq!(t.get("z"), None);
    assert_eq!(t.len(), 2);
}

#[test]
fn word_count_reads_unicode_word_characters() {
    let freq = count("café 日本語 café".as_bytes(), CountOption::Word).unwrap();
    assert_eq!(freq.get("café"), Some(2));
    assert_eq!(freq.get("日本語"), Some(1));
    assert_eq!(freq.len(), 2);
}
