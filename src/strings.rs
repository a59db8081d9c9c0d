//! Character-level string predicates used by the reconciliation rules.

use vstd::prelude::*;

verus! {

/// `s` ends with `suffix`.
pub open spec fn ends_with(s: Seq<char>, suffix: Seq<char>) -> bool {
    suffix.len() <= s.len() && s.subrange(s.len() - suffix.len(), s.len() as int) == suffix
}

/// `s` starts with `prefix`.
pub open spec fn starts_with(s: Seq<char>, prefix: Seq<char>) -> bool {
    prefix.len() <= s.len() && s.subrange(0, prefix.len() as int) == prefix
}

/// The suffix of a calendar object's file name.
pub open spec fn ics_suffix() -> Seq<char> {
    seq!['.', 'i', 'c', 's']
}

/// Whether `s` ends with `suffix`.
pub fn str_ends_with(s: &str, suffix: &str) -> (r: bool)
    ensures
        r == ends_with(s@, suffix@),
{
    let n = s.unicode_len();
    let m = suffix.unicode_len();
    if m > n {
        return false;
    }
    let off = n - m;
    let mut k: usize = 0;
    while k < m
        invariant
            n == s@.len(),
            m == suffix@.len(),
            off == n - m,
            k <= m,
            forall|j: int| 0 <= j < k ==> s@[off + j] == suffix@[j],
        decreases m - k,
    {
        if s.get_char(off + k) != suffix.get_char(k) {
            assert(s@.subrange(off as int, n as int)[k as int] != suffix@[k as int]);
            return false;
        }
        k = k + 1;
    }
    assert(s@.subrange(off as int, n as int) =~= suffix@);
    true
}

/// Whether `s` starts with `prefix`.
pub fn str_starts_with(s: &str, prefix: &str) -> (r: bool)
    ensures
        r == starts_with(s@, prefix@),
{
    let n = s.unicode_len();
    let m = prefix.unicode_len();
    if m > n {
        return false;
    }
    let mut k: usize = 0;
    while k < m
        invariant
            n == s@.len(),
            m == prefix@.len(),
            k <= m,
            m <= n,
            forall|j: int| 0 <= j < k ==> s@[j] == prefix@[j],
        decreases m - k,
    {
        if s.get_char(k) != prefix.get_char(k) {
            assert(s@.subrange(0, m as int)[k as int] != prefix@[k as int]);
            return false;
        }
        k = k + 1;
    }
    assert(s@.subrange(0, m as int) =~= prefix@);
    true
}

/// Whether `href` names the object `<uid>.ics`, that is, ends with the uid
/// followed by `.ics`.
pub fn names_object(href: &str, uid: &str) -> (r: bool)
    ensures
        r == ends_with(href@, uid@ + ics_suffix()),
{
    proof {
        reveal_strlit(".ics");
    }
    let n = href.unicode_len();
    let ics = ".ics";
    assert(ics@ =~= ics_suffix());
    if !str_ends_with(href, ics) {
        proof {
            let full = uid@ + ics_suffix();
            if ends_with(href@, full) {
                assert(href@.subrange(n - 4, n as int) =~= full.subrange(
                    full.len() - 4,
                    full.len() as int,
                ));
                assert(full.subrange(full.len() - 4, full.len() as int) =~= ics_suffix());
            }
        }
        return false;
    }
    let stem = href.substring_char(0, n - 4);
    let r = str_ends_with(stem, uid);
    proof {
        let full = uid@ + ics_suffix();
        let u = uid@.len();
        if r {
            assert(href@.subrange(n - full.len(), n as int) =~= full);
        }
        if ends_with(href@, full) {
            assert(stem@.subrange(stem@.len() - u, stem@.len() as int) =~= href@.subrange(
                n - full.len(),
                n - 4,
            ));
            assert(href@.subrange(n - full.len(), n - 4) =~= full.subrange(0, u as int));
            assert(full.subrange(0, u as int) =~= uid@);
        }
    }
    r
}

} // verus!
