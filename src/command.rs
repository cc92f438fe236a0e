use vstd::prelude::*;
use crate::select::{select_accounts, select_spec, Account, Selection};
use crate::store::{upserted, GroupError, GroupStore, UpsertOutcome};
use crate::text::chars_of;

verus! {

/// The session length of a group for which none, or none readable, was given.
pub const DEFAULT_SESSION_DURATION: i32 = 3600;

/// `c` is an ASCII decimal digit.
pub open spec fn is_digit(c: char) -> bool {
    '0' <= c && c <= '9'
}

/// The number that the decimal digits `s` write.
pub open spec fn digits_value(s: Seq<char>) -> int
    decreases s.len(),
{
    if s.len() == 0 {
        0
    } else {
        digits_value(s.drop_last()) * 10 + (s.last() as u32 - '0' as u32)
    }
}

/// The number that `s` writes, where `s` is one or more decimal digits.
pub open spec fn unsigned_value(s: Seq<char>) -> Option<int> {
    if s.len() > 0 && forall|i: int| 0 <= i < s.len() ==> is_digit(#[trigger] s[i]) {
        Some(digits_value(s))
    } else {
        None
    }
}

/// The integer that `s` writes: decimal digits after an optional `+` or `-`.
pub open spec fn integer_value(s: Seq<char>) -> Option<int> {
    if s.len() > 0 && s[0] == '-' {
        match unsigned_value(s.drop_first()) {
            Some(v) => Some(-v),
            None => None,
        }
    } else if s.len() > 0 && s[0] == '+' {
        unsigned_value(s.drop_first())
    } else {
        unsigned_value(s)
    }
}

/// The `i32` that `s` writes, if it writes one in range.
pub open spec fn parsed_i32(s: Seq<char>) -> Option<i32> {
    match integer_value(s) {
        Some(v) => if i32::MIN <= v <= i32::MAX {
            Some(v as i32)
        } else {
            None
        },
        None => None,
    }
}

/// The session length that the text `given` asks for: what it writes where it
/// writes an `i32`, else the default.
pub open spec fn session_duration_of(given: Option<Seq<char>>) -> i32 {
    match given {
        Some(s) => match parsed_i32(s) {
            Some(n) => n,
            None => DEFAULT_SESSION_DURATION,
        },
        None => DEFAULT_SESSION_DURATION,
    }
}

proof fn lemma_digits_value_nonneg(s: Seq<char>)
    requires
        forall|i: int| 0 <= i < s.len() ==> is_digit(#[trigger] s[i]),
    ensures
        digits_value(s) >= 0,
    decreases s.len(),
{
    if s.len() > 0 {
        lemma_digits_value_nonneg(s.drop_last());
    }
}

/// The `i32` that `s` writes, as decimal digits after an optional `+` or `-`,
/// if it writes one in range.
pub fn parse_i32(s: &str) -> (r: Option<i32>)
    ensures
        r == parsed_i32(s@),
{
    let c = chars_of(s);
    let len = c.len();
    let negative = len > 0 && c[0] == '-';
    let start: usize = if len > 0 && (c[0] == '-' || c[0] == '+') {
        1
    } else {
        0
    };
    let ghost body = s@.subrange(start as int, len as int);
    assert(start > 0 ==> body =~= s@.drop_first());
    assert(start == 0 ==> body =~= s@);
    assert(integer_value(s@) == if negative {
        match unsigned_value(body) {
            Some(v) => Some(-v),
            None => None,
        }
    } else {
        unsigned_value(body)
    });
    if start == len {
        return None;
    }
    let cap: u64 = 2147483649;
    let mut acc: u64 = 0;
    let mut i: usize = start;
    while i < len
        invariant
            c@ == s@,
            len == c@.len(),
            start < len,
            start <= i <= len,
            body == s@.subrange(start as int, len as int),
            integer_value(s@) == if negative {
                match unsigned_value(body) {
                    Some(v) => Some(-v),
                    None => None,
                }
            } else {
                unsigned_value(body)
            },
            cap == 2147483649,
            forall|j: int| start <= j < i ==> is_digit(#[trigger] c@[j]),
            acc as int == if digits_value(s@.subrange(start as int, i as int)) < cap {
                digits_value(s@.subrange(start as int, i as int))
            } else {
                cap as int
            },
        decreases len - i,
    {
        let ch = c[i];
        if !('0' <= ch && ch <= '9') {
            assert(body[i - start] == c@[i as int]);
            assert(!is_digit(body[i - start]));
            assert(unsigned_value(body) is None);
            return None;
        }
        let d: u64 = (ch as u32 - '0' as u32) as u64;
        proof {
            let prev = s@.subrange(start as int, i as int);
            let next = s@.subrange(start as int, i + 1);
            assert(next.drop_last() =~= prev);
            assert forall|j: int| 0 <= j < prev.len() implies is_digit(#[trigger] prev[j]) by {
                assert(prev[j] == c@[start + j]);
            }
            lemma_digits_value_nonneg(prev);
        }
        acc = if acc >= cap {
            cap
        } else if acc * 10 + d >= cap {
            cap
        } else {
            acc * 10 + d
        };
        i = i + 1;
    }
    proof {
        assert(s@.subrange(start as int, i as int) =~= body);
        assert forall|j: int| 0 <= j < body.len() implies is_digit(#[trigger] body[j]) by {
            assert(body[j] == c@[start + j]);
        }
    }
    if negative {
        if acc <= 2147483648 {
            Some((-(acc as i64)) as i32)
        } else {
            None
        }
    } else if acc <= 2147483647 {
        Some(acc as i32)
    } else {
        None
    }
}

/// The session length asked for by `given`: the `i32` it writes, or the
/// default of 3600 seconds where it is absent or writes none.
pub fn parse_session_duration(given: Option<&str>) -> (r: i32)
    ensures
        r == session_duration_of(match given {
            Some(s) => Some(s@),
            None => None,
        }),
{
    match given {
        Some(s) => match parse_i32(s) {
            Some(n) => n,
            None => DEFAULT_SESSION_DURATION,
        },
        None => DEFAULT_SESSION_DURATION,
    }
}

/// Exactly one of the business unit and the account names selects the accounts.
pub fn selection_from_flags(business_unit: Option<String>, account_names: Option<Vec<String>>) -> (r: Result<
    Selection,
    GroupError,
>)
    ensures
        (business_unit is Some) == (account_names is Some) <==> (r matches Err(GroupError::SelectionConflict)),
        r is Ok || (r matches Err(GroupError::SelectionConflict)),
        business_unit is Some && account_names is None ==> r == Ok::<Selection, GroupError>(
            Selection::BusinessUnit(business_unit->0),
        ),
        business_unit is None && account_names is Some ==> r == Ok::<Selection, GroupError>(
            Selection::AccountNames(account_names->0),
        ),
{
    match (business_unit, account_names) {
        (Some(bu), None) => Ok(Selection::BusinessUnit(bu)),
        (None, Some(names)) => Ok(Selection::AccountNames(names)),
        _ => Err(GroupError::SelectionConflict),
    }
}

/// Adds or replaces the group `name`. Exactly one of `business_unit` and
/// `account_names` must be given, else `SelectionConflict` comes back; a
/// failed role listing comes back as `List` with its description. Either way
/// the store is left as it was. Otherwise the group is set to the listed
/// grants that the selection keeps for `role`, with the session length that
/// `session_duration` writes, or 3600 seconds.
pub fn add_group(
    store: &mut GroupStore,
    name: &str,
    role: &str,
    session_duration: Option<&str>,
    business_unit: Option<String>,
    account_names: Option<Vec<String>>,
    listed: Result<Vec<Account>, String>,
) -> (r: Result<UpsertOutcome, GroupError>)
    requires
        old(store).wf(),
    ensures
        final(store).wf(),
        (business_unit is Some) == (account_names is Some) ==> (r matches Err(
            GroupError::SelectionConflict,
        )) && *final(store) == *old(store),
        (business_unit is Some) != (account_names is Some) && listed is Err ==> r == Err::<
            UpsertOutcome,
            GroupError,
        >(GroupError::List(listed->Err_0)) && *final(store) == *old(store),
        (business_unit is Some) != (account_names is Some) && listed is Ok ==> {
            let selection = if business_unit is Some {
                Selection::BusinessUnit(business_unit->0)
            } else {
                Selection::AccountNames(account_names->0)
            };
            let duration = session_duration_of(
                match session_duration {
                    Some(s) => Some(s@),
                    None => None,
                },
            );
            &&& final(store)@ == upserted(
                old(store)@,
                name@,
                duration,
                select_spec(selection, listed->Ok_0@, role@),
            )
            &&& r == Ok::<UpsertOutcome, GroupError>(
                if old(store)@.contains_key(name@) {
                    UpsertOutcome::Replaced
                } else {
                    UpsertOutcome::Added
                },
            )
        },
{
    let selection = match selection_from_flags(business_unit, account_names) {
        Ok(s) => s,
        Err(e) => return Err(e),
    };
    let pool = match listed {
        Ok(pool) => pool,
        Err(description) => return Err(GroupError::List(description)),
    };
    let duration = parse_session_duration(session_duration);
    let accounts = select_accounts(&selection, pool, role);
    Ok(store.upsert_group(name, duration, accounts))
}

} // verus!
