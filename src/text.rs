use vstd::prelude::*;

verus! {

/// `p` is a prefix of `s`.
pub open spec fn starts_with(s: Seq<char>, p: Seq<char>) -> bool {
    p.len() <= s.len() && s.subrange(0, p.len() as int) == p
}

/// `p` is a suffix of `s`.
pub open spec fn ends_with(s: Seq<char>, p: Seq<char>) -> bool {
    p.len() <= s.len() && s.subrange(s.len() - p.len(), s.len() as int) == p
}

/// `n` stands in `h` from position `k` on.
pub open spec fn occurs_at(h: Seq<char>, n: Seq<char>, k: int) -> bool {
    0 <= k && k + n.len() <= h.len() && h.subrange(k, k + n.len()) == n
}

/// The first position at or after `k` where `n` stands in `h`.
pub open spec fn first_from(h: Seq<char>, n: Seq<char>, k: int) -> Option<int>
    decreases h.len() + 1 - k,
{
    if k < 0 || k + n.len() > h.len() {
        None
    } else if occurs_at(h, n, k) {
        Some(k)
    } else {
        first_from(h, n, k + 1)
    }
}

/// The first position where `n` stands in `h`, if any.
pub open spec fn first_occurrence(h: Seq<char>, n: Seq<char>) -> Option<int> {
    first_from(h, n, 0)
}

/// The characters of `s`, one per element.
pub fn chars_of(s: &str) -> (r: Vec<char>)
    ensures
        r@ == s@,
{
    let n = s.unicode_len();
    let mut r: Vec<char> = Vec::new();
    let mut i: usize = 0;
    while i < n
        invariant
            n == s@.len(),
            i <= n,
            r@ == s@.subrange(0, i as int),
        decreases n - i,
    {
        r.push(s.get_char(i));
        i = i + 1;
    }
    assert(r@ =~= s@);
    r
}

/// Whether `n` stands in `h` from position `k` on.
fn matches_at(h: &Vec<char>, n: &Vec<char>, k: usize) -> (r: bool)
    requires
        k + n@.len() <= h@.len(),
    ensures
        r == occurs_at(h@, n@, k as int),
{
    let mut j: usize = 0;
    proof {
        assert(h@.len() == h.len());
    }
    while j < n.len()
        invariant
            k + n@.len() <= h@.len(),
            h@.len() <= usize::MAX,
            j <= n@.len(),
            forall|t: int| 0 <= t < j ==> h@[k + t] == n@[t],
        decreases n@.len() - j,
    {
        if h[k + j] != n[j] {
            assert(h@.subrange(k as int, k + n@.len())[j as int] != n@[j as int]);
            return false;
        }
        j = j + 1;
    }
    assert(h@.subrange(k as int, k + n@.len()) =~= n@);
    true
}

/// Whether `s` begins with `p`.
pub fn has_prefix(s: &str, p: &str) -> (r: bool)
    ensures
        r == starts_with(s@, p@),
{
    let sc = chars_of(s);
    let pc = chars_of(p);
    if pc.len() > sc.len() {
        return false;
    }
    matches_at(&sc, &pc, 0)
}

/// Whether `s` ends with `p`.
pub fn has_suffix(s: &str, p: &str) -> (r: bool)
    ensures
        r == ends_with(s@, p@),
{
    let sc = chars_of(s);
    let pc = chars_of(p);
    if pc.len() > sc.len() {
        return false;
    }
    matches_at(&sc, &pc, sc.len() - pc.len())
}

/// The first position (in characters) where `n` stands in `h`.
pub fn find_first(h: &str, n: &str) -> (r: Option<usize>)
    ensures
        match r {
            Some(k) => first_occurrence(h@, n@) == Some(k as int),
            None => first_occurrence(h@, n@) is None,
        },
{
    let hc = chars_of(h);
    let nc = chars_of(n);
    if nc.len() > hc.len() {
        return None;
    }
    let last = hc.len() - nc.len();
    let mut k: usize = 0;
    loop
        invariant
            k <= last,
            last == hc@.len() - nc@.len(),
            hc@ == h@,
            nc@ == n@,
            first_occurrence(h@, n@) == first_from(h@, n@, k as int),
        decreases last + 1 - k,
    {
        if matches_at(&hc, &nc, k) {
            return Some(k);
        }
        if k == last {
            assert(first_from(h@, n@, k + 1) is None);
            return None;
        }
        k = k + 1;
    }
}

} // verus!
