use totp_win_app::wide_nul_terminated;

#[test]
fn code_is_copied_as_utf16_with_terminator() {
    assert_eq!(wide_nul_terminated("287082"), vec![50, 56, 55, 48, 56, 50, 0]);
    assert_eq!(wide_nul_terminated(""), vec![0]);
}

#[test]
fn utf16_matches_std_encoding() {
    for text in ["Copy", "é", "\u{FFFF}", "\u{10000}", "key \u{1F511} \u{10FFFF}"] {
        let mut expected: Vec<u16> = text.encode_utf16().collect();
        expected.push(0);
        assert_eq!(wide_nul_terminated(text), expected);
    }
}
