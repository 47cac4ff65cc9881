use jsl::builtin::is_built_in;
use jsl::text::{chars_of, same_text, spells};
use jsl::words::{is_numeric, is_string_numeric, is_whitespace, split_words};

#[test]
fn exit_is_the_built_in() {
    assert!(is_built_in("exit"));
    assert!(!is_built_in(""));
    assert!(!is_built_in("exi"));
    assert!(!is_built_in("exit "));
    assert!(!is_built_in("Exit"));
    assert!(!is_built_in("quit"));
}

#[test]
fn numeric_words() {
    for w in [
        "0", "1", "42", "-3", "+3", "2.5", "1.", ".5", "-.5", "+1.e3", "1e5", "1E5", "1e+5", "1e-5",
        "1.5e10", "007", "inf", "INF", "Inf", "infinity", "Infinity", "INFINITY", "-inf", "+infinity",
        "nan", "NaN", "NAN", "-nan", "+nan", "1e400", "0.0000000000000000000000000000000001",
    ] {
        assert!(is_string_numeric(w), "{}", w);
    }
}

#[test]
fn words_that_are_no_numbers() {
    for w in [
        "", "+", "-", ".", "+.", "-.", "e", "e5", "1e", "1e+", "1e-", ".e5", "1.2.3", "1e5.0", "1e5e5",
        "--1", "+-1", "1-", "1+1", "0x10", "1_000", "1f", "1a", "a1", "in", "infinit", "infinityy",
        "na", "nann", "nan1", "1nan", "infnan", "\u{661}", "1\u{a0}", "1,5", "add", "x",
    ] {
        assert!(!is_string_numeric(w), "{}", w);
    }
}

#[test]
fn numeric_words_are_those_that_parse() {
    let alphabet = ['+', '-', '.', 'e', 'E', '0', '7', 'i', 'n', 'f', 'a', 'N'];
    let mut words: Vec<String> = vec![String::new()];
    let mut from: usize = 0;
    for _ in 0..4 {
        let upto: usize = words.len();
        for i in from..upto {
            for c in alphabet {
                let mut w = words[i].clone();
                w.push(c);
                words.push(w);
            }
        }
        from = upto;
    }
    for w in words {
        assert_eq!(is_string_numeric(&w), w.parse::<f64>().is_ok(), "{:?}", w);
    }
    for w in ["infinity", "INFINITY", "-Infinity", "+iNfInItY", "infinit", "infinityy", "-1.5e-10", "1.5e-", "12345678901234567890"] {
        assert_eq!(is_string_numeric(w), w.parse::<f64>().is_ok(), "{:?}", w);
    }
}

#[test]
fn is_numeric_reads_characters() {
    assert!(is_numeric(&vec!['1', '.', '5']));
    assert!(!is_numeric(&vec![]));
    assert!(!is_numeric(&vec!['1', ' ']));
}

#[test]
fn white_space_is_that_of_unicode() {
    for code in 0..=0x10FFFFu32 {
        if let Some(c) = char::from_u32(code) {
            assert_eq!(is_whitespace(c), c.is_whitespace(), "{:x}", code);
        }
    }
}

#[test]
fn split_words_cuts_at_white_space() {
    assert_eq!(split_words("1 2 add"), vec!["1", "2", "add"]);
    assert_eq!(split_words(""), Vec::<String>::new());
    assert_eq!(split_words("   \t\n"), Vec::<String>::new());
    assert_eq!(split_words("a"), vec!["a"]);
    assert_eq!(split_words("  a  b  "), vec!["a", "b"]);
    assert_eq!(split_words("a\tb\nc\r\nd"), vec!["a", "b", "c", "d"]);
    assert_eq!(split_words("h\u{e9}llo\u{3000}w\u{f6}rld\u{a0}x"), vec!["h\u{e9}llo", "w\u{f6}rld", "x"]);
    assert_eq!(split_words("a\u{200b}b"), vec!["a\u{200b}b"]);
}

#[test]
fn split_words_is_split_whitespace() {
    for source in [
        "fn add1 n do n 1 add end 5 call add1",
        " \u{2003}x\u{2028}y\u{85}z ",
        "[ 1 2 3 ] 1 array::nth",
        "\u{1F600} \u{1F600}\u{1F600}",
        "trailing ",
        " leading",
    ] {
        let expected: Vec<String> = source.split_whitespace().map(|w| w.to_string()).collect();
        assert_eq!(split_words(source), expected, "{:?}", source);
    }
}

#[test]
fn texts_by_their_characters() {
    assert_eq!(chars_of("h\u{e9}!"), vec!['h', '\u{e9}', '!']);
    assert_eq!(chars_of(""), Vec::<char>::new());
    assert!(same_text("abc", "abc"));
    assert!(same_text("", ""));
    assert!(!same_text("abc", "abd"));
    assert!(!same_text("abc", "ab"));
    assert!(!same_text("ab", "abc"));
    assert!(spells(&vec!['a', 'd', 'd'], "add"));
    assert!(!spells(&vec!['a', 'd'], "add"));
    assert!(!spells(&vec!['a', 'd', 'd', 's'], "add"));
}
