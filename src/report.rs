use vstd::prelude::*;
use crate::text::{find_first, first_from, first_occurrence, occurs_at};

verus! {

/// What a listing shows of an account's session.
#[derive(Debug, Clone, Copy, PartialEq, Eq, Structural)]
pub enum SessionStatus {
    /// Whole minutes from the end of the session to now, rounded toward zero:
    /// negative while the session still runs.
    Minutes(i64),
    /// The account holds no session.
    NoSession,
}

/// `seconds` in whole minutes, rounded toward zero.
pub open spec fn whole_minutes(seconds: int) -> int {
    if seconds >= 0 {
        seconds / 60
    } else {
        -((-seconds) / 60)
    }
}

/// The status shown at time `now` (seconds since the Unix epoch) for a
/// session that ends at `valid_until`, if there is one.
pub open spec fn status_at(valid_until: Option<i64>, now: i64) -> SessionStatus {
    match valid_until {
        Some(t) => SessionStatus::Minutes(whole_minutes(now - t) as i64),
        None => SessionStatus::NoSession,
    }
}

/// The status shown at time `now` for a session that ends at `valid_until`:
/// the signed time from its end to `now` in whole minutes, or no session.
pub fn session_status(valid_until: Option<i64>, now: i64) -> (r: SessionStatus)
    ensures
        r == status_at(valid_until, now),
{
    match valid_until {
        Some(t) => {
            let d: i128 = now as i128 - t as i128;
            let m: i128 = if d >= 0 {
                d / 60
            } else {
                -((-d) / 60)
            };
            assert(-9223372036854775808 <= m <= 9223372036854775807) by (nonlinear_arith)
                requires
                    d >= 0 ==> m == d / 60,
                    d < 0 ==> m == -((-d) / 60),
                    -18446744073709551616 <= d <= 18446744073709551616,
            ;
            SessionStatus::Minutes(m as i64)
        },
        None => SessionStatus::NoSession,
    }
}

/// Relies on chrono's `Local::now` and `DateTime::timestamp`: the current
/// time, in whole seconds since the Unix epoch.
#[verifier::external_body]
fn now_timestamp() -> (r: i64) {
    chrono::Local::now().timestamp()
}

/// The status shown now for a session that ends at `valid_until`.
pub fn current_session_status(valid_until: Option<i64>) -> (r: SessionStatus)
    ensures
        exists|now: i64| r == status_at(valid_until, now),
        valid_until is None ==> r == SessionStatus::NoSession,
{
    let now = now_timestamp();
    session_status(valid_until, now)
}

/// The decimal digit `d` as a character.
pub open spec fn digit_char(d: int) -> char {
    if d == 0 {
        '0'
    } else if d == 1 {
        '1'
    } else if d == 2 {
        '2'
    } else if d == 3 {
        '3'
    } else if d == 4 {
        '4'
    } else if d == 5 {
        '5'
    } else if d == 6 {
        '6'
    } else if d == 7 {
        '7'
    } else if d == 8 {
        '8'
    } else {
        '9'
    }
}

/// The decimal digits of `n`, without leading zeros.
pub open spec fn digits(n: nat) -> Seq<char>
    decreases n,
{
    if n < 10 {
        seq![digit_char(n as int)]
    } else {
        digits(n / 10).push(digit_char((n % 10) as int))
    }
}

/// `n` written in decimal, with a leading `-` when negative.
pub open spec fn decimal(n: int) -> Seq<char> {
    if n < 0 {
        seq!['-'] + digits((-n) as nat)
    } else {
        digits(n as nat)
    }
}

/// The text a listing shows for `status`.
pub open spec fn status_text(status: SessionStatus) -> Seq<char> {
    match status {
        SessionStatus::Minutes(m) => decimal(m as int) + " minutes left"@,
        SessionStatus::NoSession => "no valid session"@,
    }
}

/// The one-character text of digit `d`.
fn digit_text(d: u64) -> (r: &'static str)
    requires
        d < 10,
    ensures
        r@ == seq![digit_char(d as int)],
{
    if d == 0 {
        proof { reveal_strlit("0"); }
        "0"
    } else if d == 1 {
        proof { reveal_strlit("1"); }
        "1"
    } else if d == 2 {
        proof { reveal_strlit("2"); }
        "2"
    } else if d == 3 {
        proof { reveal_strlit("3"); }
        "3"
    } else if d == 4 {
        proof { reveal_strlit("4"); }
        "4"
    } else if d == 5 {
        proof { reveal_strlit("5"); }
        "5"
    } else if d == 6 {
        proof { reveal_strlit("6"); }
        "6"
    } else if d == 7 {
        proof { reveal_strlit("7"); }
        "7"
    } else if d == 8 {
        proof { reveal_strlit("8"); }
        "8"
    } else {
        proof { reveal_strlit("9"); }
        "9"
    }
}

/// Appends the decimal digits of `m` to `out`.
fn push_digits(out: &mut String, m: u64)
    ensures
        final(out)@ == old(out)@ + digits(m as nat),
    decreases m,
{
    if m >= 10 {
        push_digits(out, m / 10);
    }
    out.append(digit_text(m % 10));
    proof {
        if m < 10 {
            assert(m % 10 == m);
        }
    }
    assert(final(out)@ =~= old(out)@ + digits(m as nat));
}

/// `n` written in decimal.
pub fn decimal_text(n: i64) -> (r: String)
    ensures
        r@ == decimal(n as int),
{
    let mut out = String::new();
    if n < 0 {
        proof { reveal_strlit("-"); }
        out.append("-");
        let m: u64 = (-(n as i128)) as u64;
        push_digits(&mut out, m);
    } else {
        push_digits(&mut out, n as u64);
    }
    assert(out@ =~= decimal(n as int));
    out
}

/// The text a listing shows for `status`: `"<m> minutes left"`, or
/// `"no valid session"`.
pub fn session_text(status: SessionStatus) -> (r: String)
    ensures
        r@ == status_text(status),
{
    match status {
        SessionStatus::Minutes(m) => {
            let mut out = decimal_text(m);
            out.append(" minutes left");
            out
        },
        SessionStatus::NoSession => "no valid session".to_owned(),
    }
}

/// A resource name shown with the account id marked out, or as it is where
/// the id does not occur in it.
pub enum ArnDisplay {
    Highlighted { prefix: String, id: String, suffix: String },
    Plain(String),
}

/// `d` shows `arn` split at the first occurrence of `id`, or `arn` unmarked
/// where `id` does not occur in it.
pub open spec fn displays(d: ArnDisplay, arn: Seq<char>, id: Seq<char>) -> bool {
    match first_occurrence(arn, id) {
        Some(k) => match d {
            ArnDisplay::Highlighted { prefix, id: shown, suffix } => {
                &&& prefix@ == arn.subrange(0, k)
                &&& shown@ == id
                &&& suffix@ == arn.subrange(k + id.len(), arn.len() as int)
            },
            ArnDisplay::Plain(_) => false,
        },
        None => match d {
            ArnDisplay::Highlighted { .. } => false,
            ArnDisplay::Plain(s) => s@ == arn,
        },
    }
}

/// The text of `d` with the marking taken away.
pub open spec fn joined(d: ArnDisplay) -> Seq<char> {
    match d {
        ArnDisplay::Highlighted { prefix, id, suffix } => prefix@ + id@ + suffix@,
        ArnDisplay::Plain(s) => s@,
    }
}

proof fn lemma_first_from_occurs(h: Seq<char>, n: Seq<char>, k: int)
    requires
        first_from(h, n, k) is Some,
    ensures
        occurs_at(h, n, first_from(h, n, k)->0),
    decreases h.len() + 1 - k,
{
    if k >= 0 && k + n.len() <= h.len() && !occurs_at(h, n, k) {
        lemma_first_from_occurs(h, n, k + 1);
    }
}

/// Splits `arn` at the first occurrence of `id`, so that the id can be shown
/// marked out; where `id` does not occur, `arn` is shown unmarked.
pub fn render_arn(arn: &str, id: &str) -> (r: ArnDisplay)
    ensures
        displays(r, arn@, id@),
{
    match find_first(arn, id) {
        Some(k) => {
            proof {
                lemma_first_from_occurs(arn@, id@, 0);
            }
            let arn_len = arn.unicode_len();
            let end = k + id.unicode_len();
            let prefix = arn.substring_char(0, k).to_owned();
            let suffix = arn.substring_char(end, arn_len).to_owned();
            ArnDisplay::Highlighted { prefix, id: id.to_owned(), suffix }
        },
        None => ArnDisplay::Plain(arn.to_owned()),
    }
}

impl ArnDisplay {
    /// The shown text with the marking taken away.
    pub fn text(&self) -> (r: String)
        ensures
            r@ == joined(*self),
    {
        match self {
            ArnDisplay::Highlighted { prefix, id, suffix } => {
                let mut out = prefix.clone();
                out.append(id.as_str());
                out.append(suffix.as_str());
                out
            },
            ArnDisplay::Plain(s) => s.clone(),
        }
    }
}

/// Taking the marking away from the way a resource name is shown gives back
/// the resource name, whether or not the account id occurs in it.
pub proof fn lemma_arn_display_round_trip(d: ArnDisplay, arn: Seq<char>, id: Seq<char>)
    requires
        displays(d, arn, id),
    ensures
        joined(d) == arn,
{
    if let Some(k) = first_occurrence(arn, id) {
        lemma_first_from_occurs(arn, id, 0);
        assert(joined(d) =~= arn);
    }
}

} // verus!
