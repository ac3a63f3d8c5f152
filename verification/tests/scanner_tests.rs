use regex::Regex;
use scanner::{ByteSource, Scanner};

#[test]
fn next_works_once_when_good_input() {
    let mut test = Scanner::new(ByteSource::new(b"hello".to_vec()));

    if let Some(res) = test.next() {
        assert_eq!(&res[..], "hello");
    } else {
        assert_eq!(true, false);
    }
}

#[test]
fn next_breaks_at_char_delim() {
    let mut test = Scanner::new(ByteSource::new(b"hello, world".to_vec()));

    if let Some(res) = test.next() {
        assert_eq!(&res[..], "hello,");
    } else {
        assert_eq!(true, false);
    }
}

#[test]
fn next_skips_leading_delims() {
    let mut test = Scanner::new(ByteSource::new(b"hello,  world".to_vec()));
    test.next();

    if let Some(res) = test.next() {
        assert_eq!(&res[..], "world");
    } else {
        assert_eq!(true, false);
    }
}

#[test]
fn next_preserves_trailing_delim() {
    let mut test = Scanner::new(ByteSource::new(b"hello,  world".to_vec()));

    test.next();
    if let Some(res) = test.next_line() {
        assert_eq!(&res[..], "  world");
    } else {
        assert_eq!(true, false);
    }
}

#[test]
fn next_handles_line_wrap() {
    let mut test = Scanner::new(ByteSource::new(b"hello\nworld".to_vec()));

    if let Some(res) = test.next() {
        assert_eq!(&res[..], "hello");
    } else {
        assert_eq!(true, false);
    }
}

#[test]
fn next_line_reads_whole_line() {
    let mut test = Scanner::new(ByteSource::new(b"hello,  world\ngoodbye, world".to_vec()));

    if let Some(res) = test.next_line() {
        assert_eq!(&res[..], "hello,  world");
    } else {
        assert_eq!(true, false);
    }
}

#[test]
fn next_line_reads_last_line() {
    let mut test = Scanner::new(ByteSource::new(b"foo bar baz".to_vec()));

    if let Some(res) = test.next_line() {
        assert_eq!(&res[..], "foo bar baz");
    } else {
        assert_eq!(true, false);
    }
}

#[test]
fn next_works_after_next_line() {
    let mut test = Scanner::new(ByteSource::new(b"hello,  world\ngoodbye, world".to_vec()));
    test.next_line();

    if let Some(res) = test.next() {
        assert_eq!(&res[..], "goodbye,");
    } else {
        assert_eq!(true, false);
    }
}

#[test]
fn next_int_handles_commas() {
    let mut test = Scanner::new(ByteSource::new(b"2,147,483,647".to_vec()));

    assert_eq!(test.next_int(), Some(2147483647));
}

#[test]
fn next_int_none_on_positive_overflow() {
    let mut test = Scanner::new(ByteSource::new(b"2147483648".to_vec()));

    let res = test.next_int();
    assert_eq!(res, None);
}

#[test]
fn next_i32_none_on_negative_overflow() {
    let mut test = Scanner::new(ByteSource::new(b"-2147483649".to_vec()));

    let res = test.next_int();
    assert_eq!(res, None);
}

#[test]
fn arbitrary_delim() {
    let mut test = Scanner::new(ByteSource::new(b"foohello, worldfoo".to_vec()));
    test.set_delim(Regex::new(r"foo").unwrap());

    if let Some(res) = test.next() {
        assert_eq!(&res[..], "hello, world");
    } else {
        assert_eq!(true, false);
    }
}

#[test]
fn next_int_custom_radix() {
    let mut test = Scanner::new(ByteSource::new(b"11010".to_vec()));

    // an invalid radix yields nothing, and the token is consumed all the same
    assert_eq!(test.next_int_radix(1), None);

    // so a later read in a valid radix no longer sees the token
    assert_eq!(test.next_int_radix(2), None);
}

#[test]
fn str_delim_escapes_regexes() {
    let mut test = Scanner::new(ByteSource::new(b"foo[a-z]+bar".to_vec()));
    test.set_delim_str("[a-z]+");

    test.next();
    if let Some(res) = test.next() {
        assert_eq!(&res[..], "bar");
    } else {
        assert_eq!(true, false);
    }
}

#[test]
fn radix_between_2_36() {
    let mut test = Scanner::new(ByteSource::new(b"".to_vec()));

    assert_eq!(test.get_radix(), 10);
    test.set_radix(1);
    assert_eq!(test.get_radix(), 10);
    test.set_radix(37);
    assert_eq!(test.get_radix(), 10);
    test.set_radix(36);
    assert_eq!(test.get_radix(), 36);
}

#[test]
fn whole_input_is_one_token_then_absent() {
    let mut test = Scanner::new(ByteSource::new(b"abcdef".to_vec()));

    assert_eq!(test.next(), Some(String::from("abcdef")));
    assert_eq!(test.next(), None);
}

#[test]
fn all_delimiter_input_yields_absent() {
    let mut test = Scanner::new(ByteSource::new(b"   \t  ".to_vec()));

    assert_eq!(test.next(), None);
}

#[test]
fn empty_input_yields_absent_token() {
    let mut test = Scanner::new(ByteSource::new(b"".to_vec()));

    assert_eq!(test.next(), None);
}

#[test]
fn unrelated_punctuation_is_not_a_delimiter() {
    let mut test = Scanner::new(ByteSource::new(b"a,  b".to_vec()));

    assert_eq!(test.next(), Some(String::from("a,")));
    assert_eq!(test.next(), Some(String::from("b")));
    assert_eq!(test.next(), None);
}

#[test]
fn radix_two_parses_binary() {
    let mut test = Scanner::new(ByteSource::new(b"11010".to_vec()));

    assert_eq!(test.next_int_radix(2), Some(26));
}

#[test]
fn invalid_radix_still_consumes_token() {
    let mut test = Scanner::new(ByteSource::new(b"11010".to_vec()));

    assert_eq!(test.next_int_radix(1), None);
    assert_eq!(test.next(), None);
}

#[test]
fn failed_parse_still_consumes_token() {
    let mut test = Scanner::new(ByteSource::new(b"12x7 34".to_vec()));

    assert_eq!(test.next_int(), None);
    assert_eq!(test.next_int(), Some(34));
}

#[test]
fn next_int_uses_configured_radix() {
    let mut test = Scanner::new(ByteSource::new(b"ff 10".to_vec()));
    test.set_radix(16);

    assert_eq!(test.next_int(), Some(255));
    assert_eq!(test.next_int(), Some(16));
}

#[test]
fn uppercase_digits_parse_too() {
    let mut test = Scanner::new(ByteSource::new(b"FF Z".to_vec()));

    assert_eq!(test.next_int_radix(16), Some(255));
    assert_eq!(test.next_int_radix(36), Some(35));
}

#[test]
fn next_int_parses_minimum_value() {
    let mut test = Scanner::new(ByteSource::new(b"-2,147,483,648".to_vec()));

    assert_eq!(test.next_int(), Some(-2147483648));
}

#[test]
fn plus_sign_is_accepted() {
    let mut test = Scanner::new(ByteSource::new(b"+58".to_vec()));

    assert_eq!(test.next_int(), Some(58));
}

#[test]
fn sign_alone_is_no_number() {
    let mut test = Scanner::new(ByteSource::new(b"- 7".to_vec()));

    assert_eq!(test.next_int(), None);
    assert_eq!(test.next_int(), Some(7));
}

#[test]
fn commas_alone_are_no_number() {
    let mut test = Scanner::new(ByteSource::new(b",,,".to_vec()));

    assert_eq!(test.next_int(), None);
}

#[test]
fn next_i32_matches_next_int() {
    let mut test = Scanner::new(ByteSource::new(b"41 42".to_vec()));

    assert_eq!(test.next_i32(), Some(41));
    assert_eq!(test.next_int(), Some(42));
}

#[test]
fn empty_stream_has_no_line() {
    let mut test = Scanner::new(ByteSource::new(b"".to_vec()));

    assert_eq!(test.next_line(), None);
}

#[test]
fn blank_line_is_still_a_line() {
    let mut test = Scanner::new(ByteSource::new(b"\nrest".to_vec()));

    assert_eq!(test.next_line(), Some(String::from("")));
    assert_eq!(test.next_line(), Some(String::from("rest")));
    assert_eq!(test.next_line(), None);
}

#[test]
fn literal_delim_splits_at_substring_only() {
    let mut test = Scanner::new(ByteSource::new(b"foo[a-z]+bar".to_vec()));
    test.set_delim_str("[a-z]+");

    assert_eq!(test.next(), Some(String::from("foo")));
    assert_eq!(test.next(), Some(String::from("bar")));
    assert_eq!(test.next(), None);
}

#[test]
fn default_delimiter_is_whitespace_runs() {
    let test = Scanner::new(ByteSource::new(b"".to_vec()));

    assert_eq!(test.get_delim().as_str(), r"\s+");
}

#[test]
fn set_delim_returns_installed_pattern() {
    let mut test = Scanner::new(ByteSource::new(b"".to_vec()));

    let installed = test.set_delim(Regex::new(r"ab").unwrap()).as_str().to_string();
    assert_eq!(installed, "ab");
    assert_eq!(test.get_delim().as_str(), "ab");
}

#[test]
fn invalid_encoding_yields_absent_without_progress() {
    let mut test = Scanner::new(ByteSource::new(vec![0xff, 0xfe, 0x20, 0x61]));

    assert_eq!(test.next(), None);
    assert_eq!(test.next(), None);
}
