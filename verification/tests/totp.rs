use totp_win_app::{base32_decode, format_code, period_at, seconds_remaining_at, Account};

#[test]
fn test_base32_decode() {
    // Sixteen symbols carry 80 bits, ten bytes: "Hello!" followed by DE AD BE EF.
    let decoded = base32_decode("JBSWY3DPEHPK3PXP").unwrap();
    assert_eq!(&decoded[..6], b"Hello!");
    assert_eq!(decoded, b"Hello!\xDE\xAD\xBE\xEF");

    // "MFRGGZDFMZTWQ2LK" is the encoding of "abcdefghij"; the RFC 4648 test
    // vector for "foobar" is "MZXW6YTBOI======".
    let decoded = base32_decode("MFRGGZDFMZTWQ2LK").unwrap();
    assert_eq!(decoded, b"abcdefghij");
    let decoded = base32_decode("MZXW6YTBOI======").unwrap();
    assert_eq!(decoded, b"foobar");
}

#[test]
fn test_time_remaining() {
    let account = Account::new("Test".to_string(), "JBSWY3DPEHPK3PXP".to_string());
    let remaining = account.time_remaining();

    // Should be between 0 and 30
    assert!(remaining <= 30);
}

#[test]
fn test_current_code() {
    let account = Account::new("Test".to_string(), "JBSWY3DPEHPK3PXP".to_string());
    let code = account.current_code().unwrap();

    // Should be 6 digits
    assert_eq!(code.len(), 6);
    assert!(code.chars().all(|c| c.is_ascii_digit()));
}

#[test]
fn base32_rfc4648_vectors() {
    assert_eq!(base32_decode("").unwrap(), b"");
    assert_eq!(base32_decode("MY======").unwrap(), b"f");
    assert_eq!(base32_decode("MZXQ====").unwrap(), b"fo");
    assert_eq!(base32_decode("MZXW6===").unwrap(), b"foo");
    assert_eq!(base32_decode("MZXW6YQ=").unwrap(), b"foob");
    assert_eq!(base32_decode("MZXW6YTB").unwrap(), b"fooba");
    assert_eq!(base32_decode("MZXW6YTBOI======").unwrap(), b"foobar");
}

#[test]
fn base32_unpadded_and_leftover_bits() {
    // Padding is optional; bits that do not fill a byte are dropped.
    assert_eq!(base32_decode("MY").unwrap(), b"f");
    assert_eq!(base32_decode("M").unwrap(), b"");
    assert_eq!(base32_decode("MZXW6YQ").unwrap(), b"foob");
}

#[test]
fn base32_rejects_characters_outside_the_alphabet() {
    assert_eq!(
        base32_decode("mzxw6").unwrap_err(),
        "Invalid character in base32: m"
    );
    assert_eq!(
        base32_decode("MZ1W").unwrap_err(),
        "Invalid character in base32: 1"
    );
    // `=` only counts as padding at the end.
    assert_eq!(
        base32_decode("MY=A").unwrap_err(),
        "Invalid character in base32: ="
    );
    assert_eq!(
        base32_decode("MZ XW").unwrap_err(),
        "Invalid character in base32:  "
    );
    // The first bad character is named.
    assert_eq!(
        base32_decode("AB8c").unwrap_err(),
        "Invalid character in base32: 8"
    );
}

#[test]
fn base32_padding_is_ignored() {
    assert_eq!(base32_decode("MZXW6===").unwrap(), base32_decode("MZXW6").unwrap());
    assert_eq!(base32_decode("MZXW6=").unwrap(), base32_decode("MZXW6").unwrap());
    assert_eq!(base32_decode("====").unwrap(), b"");
}

#[test]
fn account_with_invalid_secret_has_no_code() {
    let account = Account::new("Bad".to_string(), "not base32!".to_string());
    assert!(!account.is_valid());
    assert_eq!(account.current_code().unwrap_err(), "Invalid secret");
    assert_eq!(account.code_at(59).unwrap_err(), "Invalid secret");

    let empty = Account::new("Empty".to_string(), "".to_string());
    assert!(!empty.is_valid());
}

/// The RFC 6238 SHA-1 key "12345678901234567890", in base32.
const RFC_SECRET: &str = "GEZDGNBVGY3TQOJQGEZDGNBVGY3TQOJQ";

#[test]
fn code_matches_rfc6238_vectors() {
    let account = Account::new("RFC".to_string(), RFC_SECRET.to_string());
    assert!(account.is_valid());
    // The last six digits of the eight-digit values of RFC 6238, appendix B.
    assert_eq!(account.code_at(59).unwrap(), "287082");
    assert_eq!(account.code_at(1111111109).unwrap(), "081804");
    assert_eq!(account.code_at(1111111111).unwrap(), "050471");
    assert_eq!(account.code_at(1234567890).unwrap(), "005924");
    assert_eq!(account.code_at(2000000000).unwrap(), "279037");
    assert_eq!(account.code_at(20000000000).unwrap(), "353130");
}

#[test]
fn code_is_constant_within_a_period() {
    let account = Account::new("RFC".to_string(), RFC_SECRET.to_string());
    let first = account.code_at(30).unwrap();
    for t in 30..60u64 {
        assert_eq!(account.code_at(t).unwrap(), first);
    }
    // RFC 4226, appendix D: counters 0, 1 and 2 of the same key.
    assert_eq!(account.code_at(0).unwrap(), "755224");
    assert_eq!(first, "287082");
    assert_eq!(account.code_at(60).unwrap(), "359152");
}

#[test]
fn countdown_values() {
    assert_eq!(seconds_remaining_at(0), 30);
    assert_eq!(seconds_remaining_at(1), 29);
    assert_eq!(seconds_remaining_at(29), 1);
    assert_eq!(seconds_remaining_at(30), 30);
    assert_eq!(seconds_remaining_at(59), 1);
    assert_eq!(seconds_remaining_at(u64::MAX), 30 - (u64::MAX % 30) as u32);
    for t in 0..120u64 {
        let r = seconds_remaining_at(t);
        assert!(r >= 1 && r <= 30);
        // The countdown runs out where the next period starts.
        assert_eq!(period_at(t + r as u64), period_at(t) + 1);
    }
}

#[test]
fn period_values() {
    assert_eq!(period_at(0), 0);
    assert_eq!(period_at(29), 0);
    assert_eq!(period_at(30), 1);
    assert_eq!(period_at(1111111109), 37037036);
}

#[test]
fn format_code_pads_like_format() {
    for s in ["", "1", "12", "12345", "123456", "1234567"] {
        assert_eq!(format_code(s.to_string()), format!("{:06}", s));
    }
    assert_eq!(format_code("12".to_string()), "12    ");
    assert_eq!(format_code("287082".to_string()), "287082");
}

#[test]
fn longer_input_extends_the_bytes() {
    let short = base32_decode("MZXW6").unwrap();
    let long = base32_decode("MZXW6YTBOI").unwrap();
    assert!(short.len() <= long.len());
    assert_eq!(&long[..short.len()], &short[..]);
    let padded = base32_decode("MZXW6===").unwrap();
    assert_eq!(padded, short);
}
