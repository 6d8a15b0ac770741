//! Accounts and their time-based one-time passwords (RFC 6238: HMAC-SHA1,
//! six digits, thirty-second periods).

use vstd::prelude::*;

use crate::base32::{base32_decode, spec_base32_decode};
use crate::text::push_char;

verus! {

broadcast use vstd::string::group_string_axioms;

/// Length of a TOTP period, in seconds.
pub const PERIOD_SECS: u64 = 30;

/// Number of digits in a code.
pub const CODE_DIGITS: u32 = 6;

/// The code that `totp_lite::totp_custom::<Sha1>(step, digits, secret, time)`
/// returns: the RFC 6238 one-time password for the HMAC-SHA1 key `secret` at
/// the counter `time / step`, written with `digits` decimal digits.
pub uninterp spec fn totp_sha1_code(step: u64, digits: u32, secret: Seq<u8>, time: u64) -> Seq<char>;

/// Whether every character of `s` is an ASCII decimal digit.
pub open spec fn all_ascii_digits(s: Seq<char>) -> bool {
    forall|i: int| 0 <= i < s.len() ==> '0' <= #[trigger] s[i] && s[i] <= '9'
}

/// Calls `totp_lite::totp_custom::<Sha1>`.
///
/// Trusted. Its source hashes `time / step` (eight big-endian bytes) with
/// HMAC-SHA1 under `secret`, applies the dynamic truncation of RFC 4226,
/// reduces modulo `10^digits` and formats the number zero-padded to `digits`
/// characters. The contract claims: the result is `totp_sha1_code` of the
/// arguments, it has exactly `digits` characters, all ASCII digits, and `time`
/// enters it only through `time / step`. It panics when `step` is zero or
/// `10^digits` overflows a `u64`; `requires` leaves those inputs out.
#[verifier::external_body]
fn totp_sha1(step: u64, digits: u32, secret: &[u8], time: u64) -> (res: String)
    requires
        step > 0,
        1 <= digits <= 19,
    ensures
        res@ == totp_sha1_code(step, digits, secret@, time),
        res@.len() == digits,
        all_ascii_digits(res@),
        forall|t: u64|
            t / step == time / step ==> #[trigger] totp_sha1_code(step, digits, secret@, t) == res@,
{
    totp_lite::totp_custom::<totp_lite::Sha1>(step, digits, secret, time)
}

/// The number of seconds since the Unix epoch, on the system clock.
///
/// Trusted, with no claim on the result: it reads the clock through
/// `SystemTime::now` and gives 0 when the clock is before the epoch.
#[verifier::external_body]
fn unix_time_secs() -> u64 {
    std::time::SystemTime::now().duration_since(std::time::UNIX_EPOCH).unwrap_or_default().as_secs()
}

/// `s` padded on the right with spaces to at least `width` characters, as
/// `format!("{:0width$}", s)` writes a string.
pub open spec fn pad_right(s: Seq<char>, width: nat) -> Seq<char> {
    if s.len() >= width {
        s
    } else {
        s + Seq::new((width - s.len()) as nat, |i: int| ' ')
    }
}

/// Writes a code into a field of six characters (`format!("{:06}", code)`).
pub fn format_code(code: String) -> (res: String)
    ensures
        res@ == pad_right(code@, 6),
{
    let mut res = code;
    let ghost original = res@;
    while res.as_str().unicode_len() < 6
        invariant
            original.len() <= res@.len(),
            res@.len() > original.len() ==> res@.len() <= 6,
            res@.subrange(0, original.len() as int) == original,
            forall|i: int| original.len() <= i < res@.len() ==> res@[i] == ' ',
        decreases 6 - res@.len(),
    {
        push_char(&mut res, ' ');
    }
    assert(res@ == pad_right(original, 6));
    res
}

/// The abstract content of an account: its name and its decoded secret.
pub struct AccountView {
    pub name: Seq<char>,
    pub secret: Seq<u8>,
}

/// The secret bytes that decoding `secret` gives, or none when it is not
/// valid base32.
pub open spec fn decoded_secret(secret: Seq<char>) -> Seq<u8> {
    match spec_base32_decode(secret) {
        Ok(bytes) => bytes,
        Err(_) => Seq::empty(),
    }
}

/// An account: a display name and the raw bytes of its shared secret.
#[derive(Debug, Clone)]
pub struct Account {
    pub name: String,
    secret_bytes: Vec<u8>,
}

/// The view is closed: Verus treats `Account` as opaque outside this module
/// (its secret is private), so no code there could read `name` in a
/// specification anyway. Verified callers get the name through
/// `Account::name_string`, whose contract ties it to `self@.name`.
impl View for Account {
    type V = AccountView;

    closed spec fn view(&self) -> AccountView {
        AccountView { name: self.name@, secret: self.secret_bytes@ }
    }
}

/// The code of an account with secret `secret` at time `time`.
pub open spec fn code_at_time(secret: Seq<u8>, time: u64) -> Seq<char> {
    totp_sha1_code(PERIOD_SECS, CODE_DIGITS, secret, time)
}

/// The message returned for an account whose secret did not decode.
pub open spec fn invalid_secret_message() -> Seq<char> {
    "Invalid secret"@
}

/// Seconds left in the period that contains `time`: from 30 down to 1.
pub open spec fn remaining_in_period(time: u64) -> int {
    PERIOD_SECS - time % PERIOD_SECS
}

/// The countdown runs out exactly where the next period starts.
pub proof fn countdown_ends_at_next_period(time: u64)
    ensures
        time + remaining_in_period(time) == PERIOD_SECS * (time / PERIOD_SECS + 1),
        1 <= remaining_in_period(time) <= PERIOD_SECS,
{
}

impl Account {
    /// An account named `name` whose secret is the base32 string `secret`;
    /// a secret that does not decode leaves the account without secret bytes.
    pub fn new(name: String, secret: String) -> (res: Self)
        ensures
            res@.name == name@,
            res@.secret == decoded_secret(secret@),
    {
        let secret_bytes = match base32_decode(secret.as_str()) {
            Ok(bytes) => bytes,
            Err(_) => Vec::new(),
        };
        Account { name, secret_bytes }
    }

    /// A copy of the account's name.
    pub fn name_string(&self) -> (res: String)
        ensures
            res@ == self@.name,
    {
        self.name.clone()
    }

    /// Whether the account has secret bytes to compute codes with.
    pub fn is_valid(&self) -> (res: bool)
        ensures
            res == (self@.secret.len() > 0),
    {
        self.secret_bytes.len() > 0
    }

    /// The code of the account at `time` seconds since the Unix epoch; an
    /// error when the account has no secret bytes.
    pub fn code_at(&self, time: u64) -> (res: Result<String, String>)
        ensures
            match res {
                Ok(code) => {
                    &&& self@.secret.len() > 0
                    &&& code@ == code_at_time(self@.secret, time)
                    &&& code@.len() == 6
                    &&& all_ascii_digits(code@)
                    &&& forall|t: u64|
                        t / PERIOD_SECS == time / PERIOD_SECS ==> #[trigger] code_at_time(
                            self@.secret,
                            t,
                        ) == code@
                },
                Err(msg) => self@.secret.len() == 0 && msg@ == invalid_secret_message(),
            },
    {
        if self.secret_bytes.len() == 0 {
            let msg = String::from_str("Invalid secret");
            return Err(msg);
        }
        let raw = totp_sha1(PERIOD_SECS, CODE_DIGITS, self.secret_bytes.as_slice(), time);
        Ok(format_code(raw))
    }

    /// The code of the account now; an error when the account has no secret
    /// bytes.
    pub fn current_code(&self) -> (res: Result<String, String>)
        ensures
            match res {
                Ok(code) => {
                    &&& self@.secret.len() > 0
                    &&& exists|t: u64| code@ == #[trigger] code_at_time(self@.secret, t)
                    &&& code@.len() == 6
                    &&& all_ascii_digits(code@)
                },
                Err(msg) => self@.secret.len() == 0 && msg@ == invalid_secret_message(),
            },
    {
        let now = unix_time_secs();
        self.code_at(now)
    }

    /// Seconds until the code changes, from 30 down to 1; the same for every
    /// account.
    pub fn time_remaining(&self) -> (res: u32)
        ensures
            1 <= res <= 30,
            exists|t: u64| res == #[trigger] remaining_in_period(t),
    {
        seconds_remaining_at(unix_time_secs())
    }
}

/// Seconds left at `time` until the next period starts.
pub fn seconds_remaining_at(time: u64) -> (res: u32)
    ensures
        res == remaining_in_period(time),
        1 <= res <= 30,
{
    (PERIOD_SECS - time % PERIOD_SECS) as u32
}

/// The index of the period that contains `time`.
pub open spec fn period_of(time: u64) -> int {
    (time / PERIOD_SECS) as int
}

/// The index of the period that contains `time`.
pub fn period_at(time: u64) -> (res: u64)
    ensures
        res == period_of(time),
{
    time / PERIOD_SECS
}

/// The period index of the clock now.
pub fn current_period() -> (res: u64)
    ensures
        exists|t: u64| res == #[trigger] period_of(t),
{
    period_at(unix_time_secs())
}

} // verus!
