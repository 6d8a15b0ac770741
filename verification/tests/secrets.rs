use totp_win_app::{parse_secrets, Account};

fn names(accounts: &[Account]) -> Vec<String> {
    accounts.iter().map(|a| a.name.clone()).collect()
}

#[test]
fn readme_example() {
    let content = "# One account per line: Name=BASE32SECRET\n\
                   GitHub=JBSWY3DPEHPK3PXP\n\
                   AWS=HXDMVJECJJWSRB3H\n\
                   Google=MFRGGZDFMZTWQ2LK\n";
    let (accounts, invalid) = parse_secrets(content);
    assert_eq!(names(&accounts), vec!["GitHub", "AWS", "Google"]);
    assert_eq!(invalid, 0);
    assert!(accounts.iter().all(|a| a.is_valid()));
}

#[test]
fn blank_and_comment_lines_are_ignored() {
    let (accounts, invalid) = parse_secrets("\n   \n# comment\n  #indented comment\n\t\n");
    assert!(accounts.is_empty());
    assert_eq!(invalid, 0);
    let (accounts, invalid) = parse_secrets("");
    assert!(accounts.is_empty());
    assert_eq!(invalid, 0);
}

#[test]
fn invalid_lines_are_counted() {
    let content = "Good=JBSWY3DPEHPK3PXP\n\
                   NoEquals\n\
                   =JBSWY3DPEHPK3PXP\n\
                   Lower=jbswy3dpehpk3pxp\n\
                   Empty=\n\
                   Short=A\n\
                   Also Good = MFRGGZDFMZTWQ2LK \n";
    let (accounts, invalid) = parse_secrets(content);
    assert_eq!(names(&accounts), vec!["Good", "Also Good"]);
    assert_eq!(invalid, 5);
}

#[test]
fn names_and_secrets_are_trimmed_and_split_at_first_equals() {
    let (accounts, invalid) = parse_secrets("  Mail  =  JBSWY3DPEHPK3PXP  \r\nKey=Value=JBSWY3DPEHPK3PXP");
    assert_eq!(names(&accounts), vec!["Mail"]);
    assert_eq!(invalid, 1);
    let reference = Account::new("Mail".to_string(), "JBSWY3DPEHPK3PXP".to_string());
    assert_eq!(accounts[0].code_at(59).unwrap(), reference.code_at(59).unwrap());
}

#[test]
fn last_line_without_newline_counts() {
    let (accounts, invalid) = parse_secrets("A=JBSWY3DPEHPK3PXP\nB=MFRGGZDFMZTWQ2LK");
    assert_eq!(names(&accounts), vec!["A", "B"]);
    assert_eq!(invalid, 0);
    let (accounts, invalid) = parse_secrets("A=JBSWY3DPEHPK3PXP\nbroken");
    assert_eq!(names(&accounts), vec!["A"]);
    assert_eq!(invalid, 1);
}

#[test]
fn padded_secrets_are_accepted() {
    let (accounts, invalid) = parse_secrets("X=MZXW6===\n");
    assert_eq!(names(&accounts), vec!["X"]);
    assert_eq!(invalid, 0);
}
