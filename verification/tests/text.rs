use cargo_deb::text;

const TEXTS: [&str; 20] = [
    "", " ", "a", "a b", "\n", "a\n", "a\nb", "a\r\nb\r\n", "a\r", "\r\n", " a ", "\u{a0}a\u{3000}", "\ta\u{85}", "a-b-c", "--",
    "-a-", "x\n\ny", "note\nnote: b\nnote: c", "äöü ", "\u{2028}z\u{200b}",
];

#[test]
fn text_functions_agree_with_std() {
    for s in TEXTS {
        assert_eq!(text::trimmed(s), s.trim());
        assert_eq!(text::trimmed_start(s), s.trim_start());
        assert_eq!(text::trimmed_end(s), s.trim_end());
        assert_eq!(text::lines_of(s), s.lines().collect::<Vec<_>>());
        assert_eq!(text::split_char(s, '-'), s.split('-').collect::<Vec<_>>());
        assert_eq!(text::split_on(s, "\nnote: "), s.split("\nnote: ").collect::<Vec<_>>());
        assert_eq!(text::chars_of(s), s.chars().collect::<Vec<char>>());
        for p in ["", "a", "-", "a\n", "note", "äö"] {
            assert_eq!(text::starts_with(s, p), s.starts_with(p));
            assert_eq!(text::ends_with(s, p), s.ends_with(p));
            assert_eq!(text::has_text(s, p), s.contains(p));
            assert_eq!(text::strip_prefix(s, p).as_deref(), s.strip_prefix(p));
            assert_eq!(text::strip_suffix(s, p).as_deref(), s.strip_suffix(p));
        }
        let pieces = text::split_char(s, '-');
        assert_eq!(text::join_strings(&pieces, "-"), s);
    }
    for n in [0u64, 9, 10, 123, 999_999, u64::MAX] {
        assert_eq!(text::decimal_of(n), format!("{n}"));
    }
}

#[test]
fn every_white_space_character_is_known() {
    for n in 0..0x3100u32 {
        if let Some(c) = char::from_u32(n) {
            assert_eq!(text::white_space(c), c.is_whitespace(), "{n:x}");
        }
    }
}
