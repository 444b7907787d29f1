use simple_line_counter::{count, count_and_print, push_decimal, split_lines};

#[test]
fn test_get_single_line_count() {
    let contents = "\
There are
this many lines
here.";

    assert_eq!(3, count(contents));
}

#[test]
fn test_get_single_line_count_and_contents() {
    let contents: &str = "\
There are
this many lines
in this one
test.";

    let result: String = "\
1. There are
2. this many lines
3. in this one
4. test."
        .to_string();

    assert_eq!((4, result), count_and_print(contents));
}

#[test]
fn empty_text_has_no_lines() {
    assert_eq!(0, count(""));
    assert_eq!((0, String::new()), count_and_print(""));
    assert!(split_lines("").is_empty());
}

#[test]
fn final_newline_adds_no_line() {
    assert_eq!(2, count("a\nb\n"));
    assert_eq!(2, count("a\nb"));
    assert_eq!((2, "1. a\n2. b".to_string()), count_and_print("a\nb\n"));
}

#[test]
fn lone_newline_is_one_empty_line() {
    assert_eq!(1, count("\n"));
    assert_eq!((1, "1. ".to_string()), count_and_print("\n"));
    assert_eq!(3, count("\n\n\n"));
}

#[test]
fn carriage_return_before_newline_ends_the_line() {
    assert_eq!(vec!["a".to_string(), "b".to_string()], split_lines("a\r\nb\r\n"));
    assert_eq!(vec!["a\r".to_string()], split_lines("a\r\r\n"));
    assert_eq!(vec!["x\ry".to_string(), "z\r".to_string()], split_lines("x\ry\nz\r"));
    assert_eq!(2, count("a\r\nb"));
}

#[test]
fn split_lines_agrees_with_std_lines() {
    let texts = ["", "a", "a\n", "\n\nb", "one\r\ntwo\nthree", "é ü\nß", "x\r", "\r\n"];
    for t in texts.iter() {
        let expected: Vec<String> = t.lines().map(|l| l.to_string()).collect();
        assert_eq!(expected, split_lines(t));
        assert_eq!(t.lines().count(), count(t));
    }
}

#[test]
fn count_matches_segments() {
    // two newline-ended segments and one unterminated one
    assert_eq!(3, count("ab\ncd\nef"));
    // unicode text counts characters, not bytes, per line
    assert_eq!((2, "1. héllo\n2. wörld".to_string()), count_and_print("héllo\nwörld"));
}

#[test]
fn counts_agree_between_functions() {
    for t in ["", "x", "x\ny", "x\ny\n", "\n\n", "a\r\nb"].iter() {
        assert_eq!(count(t), count_and_print(t).0);
    }
}

#[test]
fn enumeration_splits_back_into_lines() {
    let text = "alpha\nbeta\r\n\ngamma";
    let (n, listing) = count_and_print(text);
    let pieces: Vec<&str> = listing.split('\n').collect();
    assert_eq!(n, pieces.len());
    let lines: Vec<&str> = text.lines().collect();
    for (k, piece) in pieces.iter().enumerate() {
        let prefix = format!("{}. ", k + 1);
        assert!(piece.starts_with(&prefix));
        assert_eq!(lines[k], &piece[prefix.len()..]);
    }
}

#[test]
fn repeated_calls_give_equal_results() {
    let text = "one\ntwo\nthree\n";
    assert_eq!(count(text), count(text));
    assert_eq!(count_and_print(text), count_and_print(text));
}

#[test]
fn many_lines_get_multi_digit_numbers() {
    let mut text = String::new();
    for _ in 0..12 {
        text.push_str("l\n");
    }
    let (n, listing) = count_and_print(&text);
    assert_eq!(12, n);
    assert!(listing.ends_with("\n10. l\n11. l\n12. l"));
}

#[test]
fn decimal_rendering() {
    for (n, text) in [(0usize, "0"), (7, "7"), (10, "10"), (1234, "1234")].iter() {
        let mut out = String::from("n=");
        push_decimal(&mut out, *n);
        assert_eq!(format!("n={}", text), out);
    }
    let mut out = String::new();
    push_decimal(&mut out, usize::MAX);
    assert_eq!(usize::MAX.to_string(), out);
}
