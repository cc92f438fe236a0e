use vstd::prelude::*;
use crate::text::{starts_with, ends_with, has_prefix, has_suffix};

verus! {

/// One assumable account role: the account's business name, its id, the
/// role's resource name (which embeds the id), and when the session issued
/// for it ends, in seconds since the Unix epoch, if there is one.
pub struct Account {
    pub name: String,
    pub id: String,
    pub arn: String,
    pub valid_until: Option<i64>,
}

/// How the accounts of a group are chosen.
pub enum Selection {
    /// Every account whose name begins with this business-unit prefix.
    BusinessUnit(String),
    /// Every account whose name is one of these.
    AccountNames(Vec<String>),
}

/// The resource-name suffix that a grant of role `role` ends with.
pub open spec fn role_suffix(role: Seq<char>) -> Seq<char> {
    "role/"@ + role
}

/// `a` belongs to business unit `bu` and grants role `role`.
pub open spec fn in_business_unit(a: Account, bu: Seq<char>, role: Seq<char>) -> bool {
    starts_with(a.name@, bu) && ends_with(a.arn@, role_suffix(role))
}

/// `names` lists the name `name`.
pub open spec fn lists_name(names: Seq<String>, name: Seq<char>) -> bool {
    exists|i: int| 0 <= i < names.len() && names[i]@ == name
}

/// `a` is one of the accounts named in `names` and grants role `role`.
pub open spec fn in_named_accounts(a: Account, names: Seq<String>, role: Seq<char>) -> bool {
    lists_name(names, a.name@) && ends_with(a.arn@, role_suffix(role))
}

/// The grants of `pool` that belong to business unit `bu` with role `role`, in order.
pub open spec fn select_business_unit(pool: Seq<Account>, bu: Seq<char>, role: Seq<char>) -> Seq<Account> {
    pool.filter(|a: Account| in_business_unit(a, bu, role))
}

/// The grants of `pool` whose account is named in `names` with role `role`, in order.
pub open spec fn select_named(pool: Seq<Account>, names: Seq<String>, role: Seq<char>) -> Seq<Account> {
    pool.filter(|a: Account| in_named_accounts(a, names, role))
}

/// `selection` keeps the grant `a` for role `role`.
pub open spec fn selects(selection: Selection, role: Seq<char>, a: Account) -> bool {
    match selection {
        Selection::BusinessUnit(bu) => in_business_unit(a, bu@, role),
        Selection::AccountNames(names) => in_named_accounts(a, names@, role),
    }
}

/// The grants of `pool` that `selection` keeps for role `role`, in order.
pub open spec fn select_spec(selection: Selection, pool: Seq<Account>, role: Seq<char>) -> Seq<Account> {
    pool.filter(|a: Account| selects(selection, role, a))
}

/// The text `"role/" + role`.
fn role_suffix_of(role: &str) -> (r: String)
    ensures
        r@ == role_suffix(role@),
{
    let mut r = "role/".to_owned();
    r.append(role);
    r
}

/// Whether `names` lists `name`.
fn names_contain(names: &Vec<String>, name: &String) -> (r: bool)
    ensures
        r == lists_name(names@, name@),
{
    let mut i: usize = 0;
    while i < names.len()
        invariant
            i <= names@.len(),
            forall|j: int| 0 <= j < i ==> names@[j]@ != name@,
        decreases names@.len() - i,
    {
        if names[i] == *name {
            return true;
        }
        i = i + 1;
    }
    false
}

/// Whether `a` is kept by `selection` for role `role`.
fn keeps(selection: &Selection, a: &Account, suffix: &String, role: &str) -> (r: bool)
    requires
        suffix@ == role_suffix(role@),
    ensures
        r == selects(*selection, role@, *a),
{
    if !has_suffix(a.arn.as_str(), suffix.as_str()) {
        return false;
    }
    match selection {
        Selection::BusinessUnit(bu) => has_prefix(a.name.as_str(), bu.as_str()),
        Selection::AccountNames(names) => names_contain(names, &a.name),
    }
}

/// The grants of `pool` that `selection` keeps for role `role`, in the order
/// the pool lists them: those whose resource name ends with `"role/" + role`
/// and whose account name begins with the business-unit prefix, or is one of
/// the given names.
pub fn select_accounts(selection: &Selection, pool: Vec<Account>, role: &str) -> (r: Vec<Account>)
    ensures
        r@ == select_spec(*selection, pool@, role@),
{
    let ghost original = pool@;
    let ghost keep = |a: Account| selects(*selection, role@, a);
    let suffix = role_suffix_of(role);
    let mut rest = pool;
    let mut kept: Vec<Account> = Vec::new();
    let ghost mut taken: int = 0;
    while rest.len() > 0
        invariant
            suffix@ == role_suffix(role@),
            keep == (|a: Account| selects(*selection, role@, a)),
            0 <= taken <= original.len(),
            rest@ == original.subrange(taken, original.len() as int),
            kept@ == original.subrange(0, taken).filter(keep),
        decreases rest@.len(),
    {
        let a = rest.remove(0);
        let keep_it = keeps(selection, &a, &suffix, role);
        proof {
            reveal(Seq::filter);
            let next = original.subrange(0, taken + 1);
            assert(next.drop_last() =~= original.subrange(0, taken));
            assert(next.last() == a);
            assert(keep(a) == keep_it);
            assert(next.filter(keep) == if keep_it {
                kept@.push(a)
            } else {
                kept@
            });
        }
        if keep_it {
            kept.push(a);
        }
        proof {
            taken = taken + 1;
        }
        assert(rest@ =~= original.subrange(taken, original.len() as int));
    }
    assert(original.subrange(0, taken) =~= original);
    kept
}

/// The grants of `pool` whose account name begins with `business_unit` and
/// whose resource name ends with `"role/" + role`, in the order of `pool`.
pub fn select_by_business_unit(pool: Vec<Account>, business_unit: &str, role: &str) -> (r: Vec<Account>)
    ensures
        r@ == select_business_unit(pool@, business_unit@, role@),
{
    let selection = Selection::BusinessUnit(business_unit.to_owned());
    let r = select_accounts(&selection, pool, role);
    proof {
        let bu = business_unit@;
        assert((|a: Account| selects(selection, role@, a)) =~= (|a: Account| in_business_unit(a, bu, role@)));
    }
    r
}

/// The grants of `pool` whose account name is one of `names` and whose
/// resource name ends with `"role/" + role`, in the order of `pool`.
pub fn select_by_names(pool: Vec<Account>, names: Vec<String>, role: &str) -> (r: Vec<Account>)
    ensures
        r@ == select_named(pool@, names@, role@),
{
    let ghost names_seq = names@;
    let selection = Selection::AccountNames(names);
    let r = select_accounts(&selection, pool, role);
    proof {
        assert((|a: Account| selects(selection, role@, a)) =~= (|a: Account| in_named_accounts(a, names_seq, role@)));
    }
    r
}

} // verus!
