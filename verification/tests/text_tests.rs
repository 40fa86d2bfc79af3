use resource_codegen::model::{humanize_exec, to_upper_exec};
use resource_codegen::text::{
    char_is_whitespace, chars_eq, chars_of, clone_optional, clone_strings, find_char_exec,
    has_prefix_exec, has_suffix_exec, occurs_at_exec, slice_chars, split_chars, str_eq,
    string_from_chars, string_of, trim_bounds, trim_chars,
};
use resource_codegen::ParseError;

fn text(s: &str) -> Vec<char> {
    s.chars().collect()
}

#[test]
fn characters_of_a_string() {
    assert_eq!(chars_of("a\u{e9}\u{2603}"), vec!['a', '\u{e9}', '\u{2603}']);
    assert_eq!(chars_of(""), Vec::<char>::new());
    assert_eq!(string_from_chars(&text("caf\u{e9}")), "caf\u{e9}");
    assert_eq!(string_of(&text("projects/p1"), 9, 11), "p1");
    assert_eq!(slice_chars(&text("projects/p1"), 0, 8), text("projects"));
}

#[test]
fn whitespace_is_what_trimming_removes() {
    for c in ['\t', '\n', '\u{b}', '\u{c}', '\r', ' ', '\u{85}', '\u{a0}', '\u{1680}', '\u{2000}', '\u{200a}', '\u{2028}', '\u{2029}', '\u{202f}', '\u{205f}', '\u{3000}'] {
        assert!(char_is_whitespace(c), "{c:?}");
    }
    for c in ['a', '0', '_', '\u{8}', '\u{e}', '\u{200b}', '\u{feff}', '\u{180e}'] {
        assert!(!char_is_whitespace(c), "{c:?}");
    }
    for code in 0..0x3100u32 {
        if let Some(c) = char::from_u32(code) {
            assert_eq!(char_is_whitespace(c), c.is_whitespace(), "{code:#x}");
        }
    }
}

#[test]
fn trimming() {
    assert_eq!(trim_chars(&text("  a b \t\r")), text("a b"));
    assert_eq!(trim_chars(&text("a")), text("a"));
    assert_eq!(trim_chars(&text(" \n ")), text(""));
    assert_eq!(trim_chars(&text("")), text(""));
    assert_eq!(trim_bounds(&text("  ab ")), (2, 4));
    for sample in ["", " ", "a", " a", "a ", "\u{3000}x y\u{a0}\n", "\t\t"] {
        assert_eq!(string_from_chars(&trim_chars(&text(sample))), sample.trim());
    }
}

#[test]
fn splitting() {
    assert_eq!(split_chars(&text("a,b,c"), ','), vec![text("a"), text("b"), text("c")]);
    assert_eq!(split_chars(&text(""), ','), vec![text("")]);
    assert_eq!(split_chars(&text(","), ','), vec![text(""), text("")]);
    assert_eq!(split_chars(&text("a,,b,"), ','), vec![text("a"), text(""), text("b"), text("")]);
    for sample in ["", "a", ",a", "a,", "a,b", ",,", "no comma"] {
        let pieces: Vec<String> =
            split_chars(&text(sample), ',').iter().map(|p| p.iter().collect()).collect();
        let expected: Vec<&str> = sample.split(',').collect();
        assert_eq!(pieces, expected);
    }
}

#[test]
fn finding_and_comparing() {
    assert_eq!(find_char_exec(&text("a=b=c"), '=', 0), 1);
    assert_eq!(find_char_exec(&text("a=b=c"), '=', 2), 3);
    assert_eq!(find_char_exec(&text("a=b=c"), '=', 4), 5);
    assert_eq!(find_char_exec(&text("abc"), '=', 0), 3);
    assert!(occurs_at_exec(&text("projects/p"), 8, &text("/p")));
    assert!(!occurs_at_exec(&text("projects/p"), 9, &text("/p")));
    assert!(!occurs_at_exec(&text("projects/p"), 11, &text("")));
    assert!(occurs_at_exec(&text("projects/p"), 10, &text("")));
    assert!(has_prefix_exec(&text("type: x"), &text("type:")));
    assert!(!has_prefix_exec(&text("typ"), &text("type:")));
    assert!(has_suffix_exec(&text("a.proto"), &text(".proto")));
    assert!(!has_suffix_exec(&text("a.proto2"), &text(".proto")));
    assert!(!has_suffix_exec(&text("oto"), &text(".proto")));
    assert!(chars_eq(&text("abc"), &text("abc")));
    assert!(!chars_eq(&text("abc"), &text("abd")));
    assert!(!chars_eq(&text("abc"), &text("ab")));
    assert!(str_eq("abc", "abc"));
    assert!(!str_eq("abc", "abC"));
    assert!(str_eq("", ""));
}

#[test]
fn copies() {
    let values = vec!["a".to_string(), "".to_string(), "c".to_string()];
    assert_eq!(clone_strings(&values), values);
    assert_eq!(clone_optional(&Some("a".to_string())), Some("a".to_string()));
    assert_eq!(clone_optional(&None), None);
}

#[test]
fn humanizing() {
    assert_eq!(string_from_chars(&humanize_exec(&text("projects/"))), "Projects");
    assert_eq!(string_from_chars(&humanize_exec(&text("billing_accounts/"))), "BillingAccounts");
    assert_eq!(string_from_chars(&humanize_exec(&text("/v1/a-b/Cd/"))), "V1ABCd");
    assert_eq!(string_from_chars(&humanize_exec(&text("caf\u{e9}s/"))), "CafS");
    assert_eq!(string_from_chars(&humanize_exec(&text(""))), "");
    assert_eq!(to_upper_exec('a'), 'A');
    assert_eq!(to_upper_exec('z'), 'Z');
    assert_eq!(to_upper_exec('A'), 'A');
    assert_eq!(to_upper_exec('1'), '1');
    assert_eq!(to_upper_exec('\u{e9}'), '\u{e9}');
}

#[test]
fn messages_of_parse_errors() {
    assert_eq!(
        ParseError::InvalidPattern { value: "v".to_string(), expected_pattern: "p".to_string() }
            .message(),
        "Invalid pattern: got 'v', expected pattern 'p'"
    );
    assert_eq!(
        ParseError::MissingComponent { component: "c".to_string(), value: "v".to_string() }
            .message(),
        "Missing required component 'c' in resource name 'v'"
    );
    assert_eq!(
        ParseError::InvalidComponent {
            component: "c".to_string(),
            component_value: "x/y".to_string(),
            value: "v".to_string(),
        }
        .message(),
        "Invalid component 'c' value 'x/y' in resource name 'v'"
    );
    assert_eq!(ParseError::EmptyValue.message(), "Resource name is empty");
    assert_eq!(
        ParseError::InvalidFormat { reason: "why".to_string() }.message(),
        "Invalid resource name format: why"
    );
}
