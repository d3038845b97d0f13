use wordcount::{count, count_lines, CountError, CountOption};

#[test]
fn line_count_works() {
    let input = r#"Tokyo,Japan
Kyoto,Japan
Tokyo,Japan
Shanghai,China
"#;
    let freq = count(input.as_bytes(), CountOption::Line).unwrap();

    println!("{:?}", freq.keys());
    assert_eq!(freq.get("Tokyo,Japan"), Some(2));
    assert_eq!(freq.get("Kyoto,Japan"), Some(1));
    assert_eq!(freq.get("Shanghai,China"), Some(1));
    assert_eq!(freq.len(), 3);
}

#[test]
fn line_count_strips_crlf_and_keeps_other_whitespace() {
    let input = b"a b \r\na b \n a b\r\n\n";
    let freq = count(input, CountOption::Line).unwrap();
    assert_eq!(freq.get("a b "), Some(2));
    assert_eq!(freq.get(" a b"), Some(1));
    assert_eq!(freq.get(""), Some(1));
    assert_eq!(freq.len(), 3);
}

#[test]
fn line_count_takes_last_line_without_newline() {
    let freq = count(b"x\ny", CountOption::Line).unwrap();
    assert_eq!(freq.get("x"), Some(1));
    assert_eq!(freq.get("y"), Some(1));
    assert_eq!(freq.len(), 2);
}

#[test]
fn line_count_keeps_lone_carriage_return_at_end() {
    let freq = count(b"x\r", CountOption::Line).unwrap();
    assert_eq!(freq.get("x\r"), Some(1));
    assert_eq!(freq.get("x"), None);
}

#[test]
fn line_counts_sum_to_number_of_lines() {
    let input = b"p\nq\np\n\nr\np";
    let freq = count(input, CountOption::Line).unwrap();
    let mut sum = 0;
    for k in freq.keys() {
        sum += freq.get(&k).unwrap();
    }
    assert_eq!(sum, 6);
}

#[test]
fn line_count_round_trips() {
    let input = b"b\na\nb\nc\nb\n";
    let first = count(input, CountOption::Line).unwrap();
    let mut again = Vec::new();
    for k in first.keys() {
        for _ in 0..first.get(&k).unwrap() {
            again.push(k.clone());
        }
    }
    again.reverse();
    let second = count_lines(&again, CountOption::Line).unwrap();
    assert_eq!(second.len(), first.len());
    for k in first.keys() {
        assert_eq!(second.get(&k), first.get(&k));
    }
    assert_eq!(second.get("b"), Some(3));
}

#[test]
fn invalid_encoding_fails_in_every_mode() {
    let input = b"ok\n\xff\xfe\n";
    for option in [CountOption::Char, CountOption::Word, CountOption::Line] {
        assert_eq!(count(input, option).err(), Some(CountError::InvalidEncoding));
    }
}

#[test]
fn empty_input_gives_empty_table() {
    for option in [CountOption::Char, CountOption::Word, CountOption::Line] {
        let freq = count(b"", option).unwrap();
        assert_eq!(freq.len(), 0);
        assert!(freq.keys().is_empty());
    }
}
