//! The secrets file: one account per line, written `Name=BASE32SECRET`.
//! Blank lines and lines starting with `#` are ignored; other lines that do
//! not give a name and a valid secret are counted as invalid.

use vstd::prelude::*;

use crate::text::{chars_of, string_of, trim, trim_bounds};
use crate::totp::{Account, AccountView, decoded_secret};

verus! {

broadcast use vstd::string::group_string_axioms;

/// The lines of `s`: the pieces between its `'\n'` characters. A carriage
/// return before a line feed stays in the line; `trim` removes it.
pub open spec fn lines_of(s: Seq<char>) -> Seq<Seq<char>>
    decreases s.len(),
{
    if s.len() == 0 {
        seq![Seq::empty()]
    } else {
        let prev = lines_of(s.drop_last());
        if s.last() == '\n' {
            prev.push(Seq::empty())
        } else {
            prev.update(prev.len() - 1, prev.last().push(s.last()))
        }
    }
}

/// The index of the first `c` in `s`, if any.
pub open spec fn first_index_of(s: Seq<char>, c: char) -> Option<int>
    decreases s.len(),
{
    if s.len() == 0 {
        None
    } else if s[0] == c {
        Some(0)
    } else {
        match first_index_of(s.drop_first(), c) {
            Some(i) => Some(i + 1),
            None => None,
        }
    }
}

/// What one line of the file contributes.
pub enum Entry {
    /// A blank line or a comment.
    Skip,
    /// A line that gives no account.
    Invalid,
    /// A line that gives an account.
    Valid(AccountView),
}

/// Whether a line is blank or a comment once trimmed.
pub open spec fn is_ignored_line(line: Seq<char>) -> bool {
    let t = trim(line);
    t.len() == 0 || t[0] == '#'
}

/// What a line gives: after trimming, a blank line or one starting with `#`
/// is skipped; otherwise it must hold a `=` whose left side, trimmed, is a
/// non-empty name and whose right side, trimmed, decodes to a non-empty
/// secret.
pub open spec fn classify_line(line: Seq<char>) -> Entry {
    let t = trim(line);
    if is_ignored_line(line) {
        Entry::Skip
    } else {
        match first_index_of(t, '=') {
            None => Entry::Invalid,
            Some(e) => {
                let name = trim(t.take(e));
                let secret = decoded_secret(trim(t.skip(e + 1)));
                if name.len() == 0 || secret.len() == 0 {
                    Entry::Invalid
                } else {
                    Entry::Valid(AccountView { name, secret })
                }
            },
        }
    }
}

/// The accounts that `lines` give, in order, and the number of invalid lines.
pub open spec fn parse_lines(lines: Seq<Seq<char>>) -> (Seq<AccountView>, nat)
    decreases lines.len(),
{
    if lines.len() == 0 {
        (Seq::empty(), 0)
    } else {
        let (accounts, invalid) = parse_lines(lines.drop_last());
        match classify_line(lines.last()) {
            Entry::Skip => (accounts, invalid),
            Entry::Invalid => (accounts, invalid + 1),
            Entry::Valid(a) => (accounts.push(a), invalid),
        }
    }
}

/// The accounts and invalid-line count that the file content `content` gives.
pub open spec fn parse_content(content: Seq<char>) -> (Seq<AccountView>, nat) {
    parse_lines(lines_of(content))
}

// ----------------------------------------------------------------------------
// Lemmas
// ----------------------------------------------------------------------------

proof fn lemma_first_index_at(s: Seq<char>, c: char, i: int)
    requires
        0 <= i < s.len(),
        forall|j: int| 0 <= j < i ==> #[trigger] s[j] != c,
        s[i] == c,
    ensures
        first_index_of(s, c) == Some(i),
    decreases i,
{
    if i > 0 {
        lemma_first_index_at(s.drop_first(), c, i - 1);
    }
}

proof fn lemma_first_index_none(s: Seq<char>, c: char)
    requires
        forall|j: int| 0 <= j < s.len() ==> #[trigger] s[j] != c,
    ensures
        first_index_of(s, c) is None,
    decreases s.len(),
{
    if s.len() > 0 {
        lemma_first_index_none(s.drop_first(), c);
    }
}

/// Every account that the file gives has a non-empty name and a non-empty
/// secret.
pub proof fn parsed_accounts_are_usable(lines: Seq<Seq<char>>)
    ensures
        forall|i: int|
            0 <= i < parse_lines(lines).0.len() ==> {
                &&& (#[trigger] parse_lines(lines).0[i]).name.len() > 0
                &&& parse_lines(lines).0[i].secret.len() > 0
            },
    decreases lines.len(),
{
    if lines.len() > 0 {
        parsed_accounts_are_usable(lines.drop_last());
        let prev = parse_lines(lines.drop_last()).0;
        let cur = parse_lines(lines).0;
        assert forall|i: int| 0 <= i < cur.len() implies {
            &&& (#[trigger] cur[i]).name.len() > 0
            &&& cur[i].secret.len() > 0
        } by {
            if i < prev.len() {
                assert(cur[i] == prev[i]);
            }
        }
    }
}

/// Every line that is neither blank nor a comment is either an account or
/// counted as invalid: the two numbers add up to the number of such lines.
pub proof fn every_entry_is_accounted_for(lines: Seq<Seq<char>>)
    ensures
        parse_lines(lines).0.len() + parse_lines(lines).1 == lines.filter(
            |l: Seq<char>| !is_ignored_line(l),
        ).len(),
    decreases lines.len(),
{
    reveal_with_fuel(Seq::filter, 1);
    if lines.len() > 0 {
        every_entry_is_accounted_for(lines.drop_last());
    }
}

/// Blank and comment lines change nothing: the file parses as the lines
/// that are left once they are all removed.
pub proof fn ignored_lines_are_dropped(lines: Seq<Seq<char>>)
    ensures
        parse_lines(lines) == parse_lines(lines.filter(|l: Seq<char>| !is_ignored_line(l))),
    decreases lines.len(),
{
    reveal_with_fuel(Seq::filter, 1);
    if lines.len() > 0 {
        ignored_lines_are_dropped(lines.drop_last());
        let f = lines.drop_last().filter(|l: Seq<char>| !is_ignored_line(l));
        if !is_ignored_line(lines.last()) {
            assert(f.push(lines.last()).drop_last() == f);
        }
    }
}

/// A blank or comment line, wherever it stands, changes nothing.
pub proof fn ignored_lines_change_nothing(
    before: Seq<Seq<char>>,
    line: Seq<char>,
    after: Seq<Seq<char>>,
)
    requires
        is_ignored_line(line),
    ensures
        parse_lines(before + seq![line] + after) == parse_lines(before + after),
    decreases after.len(),
{
    let with = before + seq![line] + after;
    let without = before + after;
    if after.len() == 0 {
        assert(with.drop_last() == before);
        assert(without == before);
    } else {
        ignored_lines_change_nothing(before, line, after.drop_last());
        assert(with.drop_last() == before + seq![line] + after.drop_last());
        assert(without.drop_last() == before + after.drop_last());
    }
}

// ----------------------------------------------------------------------------
// Executable code
// ----------------------------------------------------------------------------

/// What one line gave, as the parser sees it.
enum LineOutcome {
    Skip,
    Invalid,
    Valid(Account),
}

/// Classifies the line `chars[lo..hi]`.
fn parse_line(chars: &Vec<char>, lo: usize, hi: usize) -> (res: LineOutcome)
    requires
        lo <= hi <= chars@.len(),
    ensures
        match classify_line(chars@.subrange(lo as int, hi as int)) {
            Entry::Skip => res is Skip,
            Entry::Invalid => res is Invalid,
            Entry::Valid(a) => res matches LineOutcome::Valid(acc) && acc@ == a,
        },
{
    let ghost line = chars@.subrange(lo as int, hi as int);
    let (a, b) = trim_bounds(chars, lo, hi);
    let ghost t = chars@.subrange(a as int, b as int);
    assert(t == trim(line));
    if a == b || chars[a] == '#' {
        return LineOutcome::Skip;
    }
    let mut e = a;
    while e < b && chars[e] != '='
        invariant
            a <= e <= b <= chars@.len(),
            forall|j: int| a <= j < e ==> #[trigger] chars@[j] != '=',
        decreases b - e,
    {
        e = e + 1;
    }
    if e == b {
        proof {
            assert forall|j: int| 0 <= j < t.len() implies #[trigger] t[j] != '=' by {
                assert(t[j] == chars@[a + j]);
            }
            lemma_first_index_none(t, '=');
        }
        return LineOutcome::Invalid;
    }
    proof {
        assert forall|j: int| 0 <= j < e - a implies #[trigger] t[j] != '=' by {
            assert(t[j] == chars@[a + j]);
        }
        lemma_first_index_at(t, '=', e - a);
        assert(t.take(e - a) == chars@.subrange(a as int, e as int));
        assert(t.skip(e - a + 1) == chars@.subrange(e + 1, b as int));
    }
    let (na, nb) = trim_bounds(chars, a, e);
    if na == nb {
        return LineOutcome::Invalid;
    }
    let (sa, sb) = trim_bounds(chars, e + 1, b);
    let name = string_of(chars, na, nb);
    let secret = string_of(chars, sa, sb);
    let account = Account::new(name, secret);
    if account.is_valid() {
        LineOutcome::Valid(account)
    } else {
        LineOutcome::Invalid
    }
}

/// Parses the content of a secrets file into its accounts, in file order, and
/// the number of lines that gave no account.
pub fn parse_secrets(content: &str) -> (res: (Vec<Account>, usize))
    ensures
        res.0@.map_values(|a: Account| a@) == parse_content(content@).0,
        res.1 == parse_content(content@).1,
{
    let chars = chars_of(content);
    let n = chars.len();
    let mut accounts: Vec<Account> = Vec::new();
    let mut invalid: usize = 0;
    let mut start: usize = 0;
    let mut i: usize = 0;
    proof {
        assert(chars@.take(0) == Seq::<char>::empty());
    }
    while i < n
        invariant
            n == chars@.len(),
            chars@ == content@,
            start <= i <= n,
            invalid <= start,
            lines_of(chars@.take(i as int)).len() >= 1,
            lines_of(chars@.take(i as int)).last() == chars@.subrange(start as int, i as int),
            parse_lines(lines_of(chars@.take(i as int)).drop_last()) == (
                accounts@.map_values(|a: Account| a@),
                invalid as nat,
            ),
        decreases n - i,
    {
        let ghost prev = lines_of(chars@.take(i as int));
        proof {
            assert(chars@.take(i + 1).drop_last() == chars@.take(i as int));
            assert(chars@.take(i + 1).last() == chars@[i as int]);
        }
        if chars[i] == '\n' {
            let outcome = parse_line(&chars, start, i);
            proof {
                let cur = lines_of(chars@.take(i + 1));
                assert(cur == prev.push(Seq::empty()));
                assert(cur.drop_last() == prev);
                assert(prev.drop_last().push(prev.last()) == prev);
            }
            match outcome {
                LineOutcome::Skip => {},
                LineOutcome::Invalid => {
                    invalid = invalid + 1;
                },
                LineOutcome::Valid(account) => {
                    accounts.push(account);
                },
            }
            start = i + 1;
        } else {
            proof {
                let cur = lines_of(chars@.take(i + 1));
                assert(cur.drop_last() == prev.drop_last());
                assert(cur.last() == chars@.subrange(start as int, i + 1));
            }
        }
        i = i + 1;
    }
    proof {
        assert(chars@.take(n as int) == chars@);
    }
    let outcome = parse_line(&chars, start, n);
    proof {
        let all = lines_of(chars@);
        assert(all.drop_last().push(all.last()) == all);
        if start == n {
            assert(chars@.subrange(start as int, n as int) == Seq::<char>::empty());
        }
    }
    match outcome {
        LineOutcome::Skip => {},
        LineOutcome::Invalid => {
            invalid = invalid + 1;
        },
        LineOutcome::Valid(account) => {
            accounts.push(account);
        },
    }
    (accounts, invalid)
}

} // verus!
