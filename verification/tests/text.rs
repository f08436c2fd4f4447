use pactl_mixer::number::{parse_i32, push_decimal};
use pactl_mixer::text::{
    chars_of, find, has_infix, has_prefix, remove_char, skip_bytes, split_on, string_of,
};

fn chars(s: &str) -> Vec<char> {
    s.chars().collect()
}

fn pieces(s: &str, separator: &str) -> Vec<String> {
    split_on(&chars(s), &chars(separator)).iter().map(|p| p.iter().collect()).collect()
}

fn decimal(n: i32) -> String {
    let mut out = Vec::new();
    push_decimal(&mut out, n);
    out.iter().collect()
}

#[test]
fn characters_and_strings_convert_both_ways() {
    assert_eq!(chars_of("a♫b"), vec!['a', '♫', 'b']);
    assert_eq!(string_of(&['a', '♫', 'b']), "a♫b");
    assert_eq!(chars_of(""), Vec::<char>::new());
}

#[test]
fn split_gives_one_piece_more_than_separators() {
    assert_eq!(pieces("a\nb\nc", "\n"), vec!["a", "b", "c"]);
    assert_eq!(pieces("a\n", "\n"), vec!["a", ""]);
    assert_eq!(pieces("", "\n"), vec![""]);
    assert_eq!(pieces("\n", "\n"), vec!["", ""]);
    assert_eq!(pieces("abc", "\n"), vec!["abc"]);
}

#[test]
fn split_takes_separators_from_the_left_without_overlap() {
    assert_eq!(pieces("a\n\n\nb", "\n\n"), vec!["a", "\nb"]);
    assert_eq!(pieces("a\n\n\n\nb", "\n\n"), vec!["a", "", "b"]);
    assert_eq!(pieces("aaa", "aa"), vec!["", "a"]);
}

#[test]
fn find_returns_the_first_occurrence_from_the_start_given() {
    let s = chars("abcabc");
    assert_eq!(find(&s, &chars("bc"), 0), Some(1));
    assert_eq!(find(&s, &chars("bc"), 2), Some(4));
    assert_eq!(find(&s, &chars("bc"), 5), None);
    assert_eq!(find(&s, &chars("abcabcd"), 0), None);
    assert_eq!(find(&s, &chars(""), 6), Some(6));
    assert_eq!(find(&s, &chars(""), 7), None);
}

#[test]
fn prefix_and_infix() {
    assert!(has_prefix(&chars("Mute: yes"), &chars("Mute: ")));
    assert!(!has_prefix(&chars("Mute:"), &chars("Mute: ")));
    assert!(has_prefix(&chars("abc"), &chars("")));
    assert!(has_infix(&chars("Mute: yes"), &chars("yes")));
    assert!(!has_infix(&chars("Mute: ye"), &chars("yes")));
    assert!(has_infix(&chars(""), &chars("")));
}

#[test]
fn remove_char_drops_every_occurrence() {
    assert_eq!(remove_char(&chars("\ta\t\tb\t"), '\t'), chars("ab"));
    assert_eq!(remove_char(&chars("abc"), '\t'), chars("abc"));
}

#[test]
fn skip_bytes_counts_encoded_bytes() {
    assert_eq!(skip_bytes(&chars("abcdef"), 2), Some(chars("cdef")));
    assert_eq!(skip_bytes(&chars("abc"), 3), Some(vec![]));
    assert_eq!(skip_bytes(&chars("abc"), 4), None);
    assert_eq!(skip_bytes(&chars("éa"), 2), Some(chars("a")));
    assert_eq!(skip_bytes(&chars("éa"), 1), None);
    assert_eq!(skip_bytes(&chars("♫a"), 3), Some(chars("a")));
    assert_eq!(skip_bytes(&chars("𝄞a"), 4), Some(chars("a")));
    assert_eq!(skip_bytes(&chars("𝄞a"), 3), None);
    assert_eq!(skip_bytes(&chars(""), 0), Some(vec![]));
}

#[test]
fn integers_are_read_as_the_standard_library_reads_them() {
    for text in ["0", "7", "-7", "+7", "007", "-0", "2147483647", "-2147483648", "+2147483647",
        "2147483648", "-2147483649", "99999999999999999999", "", "-", "+", "--1", "1-", "12a",
        " 1", "1 ", "١٢", "0x10", "1_000"] {
        assert_eq!(parse_i32(&chars(text)), text.parse::<i32>().ok(), "reading {:?}", text);
    }
}

#[test]
fn integers_are_written_in_base_ten() {
    for n in [0, 1, 9, 10, 11, 99, 100, 12345, -1, -10, i32::MAX, i32::MIN] {
        assert_eq!(decimal(n), n.to_string());
    }
}

#[test]
fn written_integers_read_back() {
    for n in [0, 5, -5, 60, 200, i32::MAX, i32::MIN] {
        assert_eq!(parse_i32(&chars(&decimal(n))), Some(n));
    }
}
