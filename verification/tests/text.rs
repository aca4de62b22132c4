use ysd::buffer::{Buffer, Original, Piece};
use ysd::registry::BufferRegistry;
use ysd::text::{
    blank, chars_of, decimal_chars, find_from, parse_number, same_chars, same_text, split,
    stands_at, string_of, to_lower, tokenize, trim_lower,
};

fn chars(s: &str) -> Vec<char> {
    s.chars().collect()
}

fn strings(words: Vec<Vec<char>>) -> Vec<String> {
    words.into_iter().map(|w| w.into_iter().collect()).collect()
}

#[test]
fn blanks_are_the_white_space_characters() {
    for c in [' ', '\t', '\n', '\r', '\u{b}', '\u{c}', '\u{85}', '\u{a0}', '\u{2003}', '\u{3000}'] {
        assert!(blank(c));
    }
    for c in ['a', '_', '0', '\u{0}', '\u{8}', '\u{e}', '\u{200b}', 'é'] {
        assert!(!blank(c));
    }
    for code in 0..0x3100u32 {
        if let Some(c) = char::from_u32(code) {
            assert_eq!(blank(c), c.is_whitespace());
        }
    }
}

#[test]
fn lower_case_folds_ascii_letters_only() {
    assert_eq!(to_lower('A'), 'a');
    assert_eq!(to_lower('Z'), 'z');
    assert_eq!(to_lower('m'), 'm');
    assert_eq!(to_lower('@'), '@');
    assert_eq!(to_lower('['), '[');
    assert_eq!(to_lower('É'), 'É');
    assert_eq!(to_lower('5'), '5');
}

#[test]
fn trimming_and_folding() {
    assert_eq!(trim_lower(&chars("  Hello World \t")), chars("hello world"));
    assert_eq!(trim_lower(&chars("x")), chars("x"));
    assert_eq!(trim_lower(&chars("   ")), chars(""));
    assert_eq!(trim_lower(&chars("")), chars(""));
    assert_eq!(trim_lower(&chars("\nA b\u{a0}")), chars("a b"));
}

#[test]
fn tokens_are_the_stretches_between_blanks() {
    assert_eq!(strings(tokenize(&chars("go up 3"))), vec!["go", "up", "3"]);
    assert_eq!(strings(tokenize(&chars("  a\t\tbc  d "))), vec!["a", "bc", "d"]);
    assert_eq!(strings(tokenize(&chars("one"))), vec!["one"]);
    assert!(tokenize(&chars("")).is_empty());
    assert!(tokenize(&chars(" \n ")).is_empty());
    for line in ["a b", " x  y z ", "", "\t", "héllo wörld"] {
        let expected: Vec<String> = line.split_whitespace().map(|w| w.to_string()).collect();
        assert_eq!(strings(tokenize(&chars(line))), expected);
    }
}

#[test]
fn numbers_are_read_like_unsigned_integers() {
    assert_eq!(parse_number(&chars("0")), Some(0));
    assert_eq!(parse_number(&chars("42")), Some(42));
    assert_eq!(parse_number(&chars("+42")), Some(42));
    assert_eq!(parse_number(&chars("007")), Some(7));
    assert_eq!(parse_number(&chars("18446744073709551615")), Some(usize::MAX));
    assert_eq!(parse_number(&chars("18446744073709551616")), None);
    assert_eq!(parse_number(&chars("99999999999999999999999999")), None);
    assert_eq!(parse_number(&chars("")), None);
    assert_eq!(parse_number(&chars("+")), None);
    assert_eq!(parse_number(&chars("-1")), None);
    assert_eq!(parse_number(&chars("++1")), None);
    assert_eq!(parse_number(&chars("1+")), None);
    assert_eq!(parse_number(&chars("1 ")), None);
    assert_eq!(parse_number(&chars("12a")), None);
    assert_eq!(parse_number(&chars("٣")), None);
    for s in ["0", "+0", "1", "+", "", "12", "1x", " 1", "000", "184467440737095516150"] {
        assert_eq!(parse_number(&chars(s)), s.parse::<usize>().ok());
    }
}

#[test]
fn numerals_have_no_leading_zeros() {
    assert_eq!(decimal_chars(0), chars("0"));
    assert_eq!(decimal_chars(9), chars("9"));
    assert_eq!(decimal_chars(10), chars("10"));
    assert_eq!(decimal_chars(12345), chars("12345"));
    assert_eq!(decimal_chars(usize::MAX), chars(&usize::MAX.to_string()));
}

#[test]
fn searching_finds_the_first_occurrence() {
    let hay = chars("abcabcabc");
    assert_eq!(find_from(&hay, &chars("bc"), 0), Some(1));
    assert_eq!(find_from(&hay, &chars("bc"), 1), Some(1));
    assert_eq!(find_from(&hay, &chars("bc"), 2), Some(4));
    assert_eq!(find_from(&hay, &chars("bc"), 8), None);
    assert_eq!(find_from(&hay, &chars("abc"), 6), Some(6));
    assert_eq!(find_from(&hay, &chars("abcd"), 0), None);
    assert_eq!(find_from(&hay, &chars(""), 3), Some(3));
    assert_eq!(find_from(&hay, &chars(""), 9), Some(9));
    assert_eq!(find_from(&hay, &chars(""), 10), None);
    assert_eq!(find_from(&chars(""), &chars("a"), 0), None);
    assert!(stands_at(&hay, &chars("cab"), 2));
    assert!(!stands_at(&hay, &chars("cab"), 3));
    assert!(!stands_at(&hay, &chars("bc"), 8));
    assert!(stands_at(&hay, &chars(""), 9));
}

#[test]
fn splitting_at_a_separator() {
    assert_eq!(strings(split(&chars("1,2,3"), ',')), vec!["1", "2", "3"]);
    assert_eq!(strings(split(&chars("1,,3,"), ',')), vec!["1", "", "3", ""]);
    assert_eq!(strings(split(&chars(""), ',')), vec![""]);
    assert_eq!(strings(split(&chars(","), ',')), vec!["", ""]);
    assert_eq!(strings(split(&chars("abc"), ',')), vec!["abc"]);
}

#[test]
fn strings_and_characters_convert() {
    assert_eq!(chars_of("héllo"), chars("héllo"));
    assert_eq!(chars_of(""), chars(""));
    assert_eq!(string_of(&chars("héllo"), 1, 4), "éll");
    assert_eq!(string_of(&chars("abc"), 0, 0), "");
    assert_eq!(string_of(&chars("abc"), 0, 3), "abc");
    assert!(same_text("abc", "abc"));
    assert!(!same_text("abc", "abd"));
    assert!(!same_text("abc", "ab"));
    assert!(same_chars(&chars("x"), &chars("x")));
    assert!(!same_chars(&chars("x"), &chars("y")));
    assert!(!same_chars(&chars("x"), &chars("xx")));
    assert!(same_chars(&chars(""), &chars("")));
}

#[test]
fn pieces_are_cut_and_shortened() {
    let piece = Piece::Original(4, 6);
    assert_eq!(piece.span(), Some(Original { start: 4, length: 6 }));
    assert_eq!(Piece::Add("x".to_string()).span(), None);
    assert!(piece.is_original());
    assert!(!piece.is_add());
    assert_eq!(piece.length(), 6);
    let (left, right) = piece.split(2);
    assert!(matches!(left, Piece::Original(4, 2)));
    assert!(matches!(right, Piece::Original(6, 4)));
    assert!(matches!(Piece::Original(4, 6).pop(), Some(Piece::Original(4, 5))));
    assert!(Piece::Original(4, 1).pop().is_none());

    let added = Piece::Add("héllo".to_string());
    assert!(added.is_add());
    assert!(!added.is_original());
    assert_eq!(added.length(), 5);
    assert!(matches!(added.duplicate(), Piece::Add(s) if s == "héllo"));
    let (left, right) = added.split(2);
    assert!(matches!(left, Piece::Add(s) if s == "hé"));
    assert!(matches!(right, Piece::Add(s) if s == "llo"));
    assert!(matches!(Piece::Add("hé".to_string()).pop(), Some(Piece::Add(s)) if s == "h"));
    assert!(Piece::Add("é".to_string()).pop().is_none());
    let (left, right) = Piece::Add("ab".to_string()).split(0);
    assert!(matches!(left, Piece::Add(s) if s.is_empty()));
    assert!(matches!(right, Piece::Add(s) if s == "ab"));
}

#[test]
fn registry_hands_out_fresh_identifiers() {
    let mut registry = BufferRegistry::new();
    let a = registry.insert(Buffer::from_text("a\n"));
    let b = registry.insert(Buffer::empty());
    assert_ne!(a, b);
    assert!(registry.contains(a) && registry.contains(b));
    assert_eq!(registry.get(a).unwrap().line_at(0), "a");
    assert_eq!(registry.get(b).unwrap().line_at(0), "");
    registry.get_mut(b).unwrap().push("x".to_string());
    assert_eq!(registry.get(b).unwrap().line_at(0), "x");
    assert_eq!(registry.get(a).unwrap().line_at(0), "a");
    let c = registry.insert(Buffer::empty());
    assert!(c != a && c != b);
    let unknown = ysd::buffer::BufferId(99);
    assert!(!registry.contains(unknown));
    assert!(registry.get(unknown).is_none());
    assert!(registry.get_mut(unknown).is_none());
}

#[test]
fn trimming_finds_the_bounds() {
    assert_eq!(ysd::text::trim_bounds(&chars("  ab c ")), (2, 6));
    assert_eq!(ysd::text::trim_bounds(&chars("abc")), (0, 3));
    assert_eq!(ysd::text::trim_bounds(&chars("   ")), (3, 3));
    assert_eq!(ysd::text::trim_bounds(&chars("")), (0, 0));
}
