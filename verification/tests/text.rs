use conectdesk_agent::text::{
    ascii_alphanumeric, chars_of, decimal_text, digit, ends_with, find, glue, glue3, has, lines,
    lower, parse, replace, same_text, split_at_each, starts_with, string_of, trim, trim_char,
    trim_end_char, trim_end_text, white_space,
};

fn c(text: &str) -> Vec<char> {
    chars_of(text)
}

fn strings(parts: &[&[char]]) -> Vec<String> {
    parts.iter().map(|part| part.iter().collect::<String>()).collect()
}

#[test]
fn characters_and_back() {
    assert_eq!(c("aé€😀"), vec!['a', 'é', '€', '😀']);
    assert_eq!(string_of(&['a', 'é', '€', '😀']), "aé€😀");
    assert_eq!(string_of(&[]), "");
    assert_eq!(glue("ab", "cé"), "abcé");
    assert_eq!(glue3("a", "", "b"), "ab");
    assert!(same_text("maçã", "maçã"));
    assert!(!same_text("maçã", "maca"));
    assert!(!same_text("a", "ab"));
}

#[test]
fn classes_agree_with_std() {
    for n in 0..=0x10ffffu32 {
        if let Some(ch) = char::from_u32(n) {
            assert_eq!(white_space(ch), ch.is_whitespace(), "{:x}", n);
            assert_eq!(digit(ch), ch.is_ascii_digit(), "{:x}", n);
            assert_eq!(ascii_alphanumeric(ch), ch.is_ascii_alphanumeric(), "{:x}", n);
            assert_eq!(lower(ch), ch.to_ascii_lowercase(), "{:x}", n);
        }
    }
}

#[test]
fn trimming_agrees_with_std() {
    for text in ["", "  ", "a", "  a b\t\r\n", "\u{3000}x\u{a0}", "x\u{200b}", "\u{85}y y\u{2028}"] {
        assert_eq!(string_of(trim(&c(text))), text.trim());
    }
    for text in ["", "///", "a//", "/a/", "https://x/"] {
        assert_eq!(string_of(trim_end_char(&c(text), '/')), text.trim_end_matches('/'));
    }
    for text in ["", "\"", "\"\"", "\"a\"b\"", "a"] {
        assert_eq!(string_of(trim_char(&c(text), '"')), text.trim_matches('"'));
    }
    for text in ["", "x(P)(P)", "(P)", "x(P) ", "x"] {
        assert_eq!(string_of(trim_end_text(&c(text), &c("(P)"))), text.trim_end_matches("(P)"));
    }
    assert_eq!(string_of(trim_end_text(&c("abc"), &[])), "abc");
}

#[test]
fn searching_agrees_with_std() {
    let words = ["", "a", "ab", "aab", "b", "abab", "é"];
    for text in ["", "a", "aab", "xaabab", "babab", "éab"] {
        for word in words {
            assert_eq!(has(&c(text), &c(word)), text.contains(word));
            assert_eq!(starts_with(&c(text), &c(word)), text.starts_with(word));
            assert_eq!(ends_with(&c(text), &c(word)), text.ends_with(word));
            let want = text.find(word).map(|at| text[..at].chars().count());
            assert_eq!(find(&c(text), &c(word)), want);
        }
    }
}

#[test]
fn splitting_agrees_with_std() {
    for text in ["", ",", "a,b", "a,,b,", "aa::bb:::cc", "no mark"] {
        for mark in [",", "::", "a"] {
            let want: Vec<&str> = text.split(mark).collect();
            assert_eq!(strings(&split_at_each(&c(text), &c(mark))), want);
        }
    }
}

#[test]
fn lines_agree_with_std() {
    for text in ["", "\n", "a", "a\n", "a\r\nb", "a\rb\r\r\nc\r", "\r\n\r\n", "x\n\ny"] {
        let want: Vec<&str> = text.lines().collect();
        assert_eq!(strings(&lines(&c(text))), want);
    }
}

#[test]
fn replacing_agrees_with_std() {
    for text in ["", "a-b--c", "-", "none"] {
        assert_eq!(string_of(&replace(&c(text), '-', &c(":"))), text.replace('-', ":"));
        assert_eq!(string_of(&replace(&c(text), '-', &c("%20"))), text.replace('-', "%20"));
    }
}

#[test]
fn numerals_agree_with_std() {
    let texts = [
        "", "+", "-", "0", "-0", "-1", "+7", "++7", "007", "18446744073709551615",
        "18446744073709551616", "99999999999999999999999", "1_0", " 1", "1 ", "12a", "٣",
    ];
    for text in texts {
        assert_eq!(parse(&c(text), 10, u64::MAX), text.parse::<u64>().ok(), "{}", text);
        let small = text.parse::<u8>().ok().map(|n| n as u64);
        assert_eq!(parse(&c(text), 10, 255), small, "{}", text);
    }
    for text in ["ff", "FF", "0a", "+f", "100", "g", "-1", ""] {
        let want = u8::from_str_radix(text, 16).ok().map(|n| n as u64);
        assert_eq!(parse(&c(text), 16, 255), want, "{}", text);
    }
}

#[test]
fn decimal_numerals_read_back() {
    for n in [0, 9, 10, 255, 1780797000, u64::MAX] {
        assert_eq!(decimal_text(n), n.to_string());
        assert_eq!(parse(&c(&decimal_text(n)), 10, u64::MAX), Some(n));
    }
}
