//! Identifier validation and small string sets kept in vectors.
use vstd::prelude::*;
use vstd::string::StrSliceExecFns;

use crate::order::{lemma_seq_lt_irreflexive, lemma_seq_lt_total, lemma_seq_lt_transitive, seq_lt, str_lt};

verus! {

broadcast use vstd::string::is_ascii_spec_bytes;

/// Characters allowed in user names and file names.
pub open spec fn is_name_char(c: char) -> bool {
    ('a' <= c <= 'z') || ('A' <= c <= 'Z') || ('0' <= c <= '9') || c == '_' || c == '-'
}

/// `s` has between `lo` and `hi` characters, all of them name characters.
pub open spec fn is_name(s: Seq<char>, lo: nat, hi: nat) -> bool {
    lo <= s.len() <= hi && forall|i: int| 0 <= i < s.len() ==> is_name_char(#[trigger] s[i])
}

/// A valid user name: 3 to 24 name characters.
pub open spec fn valid_username(s: Seq<char>) -> bool {
    is_name(s, 3, 24)
}

/// A valid page file name: 1 to 120 name characters.
pub open spec fn valid_filename(s: Seq<char>) -> bool {
    is_name(s, 1, 120)
}

fn check_name(s: &str, lo: usize, hi: usize) -> (r: bool)
    ensures
        r == is_name(s@, lo as nat, hi as nat),
{
    if !s.is_ascii() {
        proof {
            if lo <= s@.len() && s@.len() <= hi {
                let j = choose|j: int| 0 <= j < s@.len() && !('\0' <= #[trigger] s@[j] <= '\u{7f}');
                assert(!is_name_char(s@[j]));
            }
        }
        return false;
    }
    let n = s.unicode_len();
    if n < lo || n > hi {
        return false;
    }
    let mut i: usize = 0;
    while i < n
        invariant
            n == s@.len(),
            s.is_ascii(),
            i <= n,
            forall|j: int| 0 <= j < i ==> is_name_char(#[trigger] s@[j]),
        decreases n - i,
    {
        let b = s.get_ascii(i);
        let ok = (97 <= b && b <= 122) || (65 <= b && b <= 90) || (48 <= b && b <= 57) || b == 95
            || b == 45;
        assert(s@[i as int] as u8 == b);
        if !ok {
            assert(!is_name_char(s@[i as int]));
            return false;
        }
        i = i + 1;
    }
    true
}

/// Checks the user name rule.
pub fn validate_username(s: &str) -> (r: bool)
    ensures
        r == valid_username(s@),
{
    check_name(s, 3, 24)
}

/// Checks the page file name rule.
pub fn validate_filename(s: &str) -> (r: bool)
    ensures
        r == valid_filename(s@),
{
    check_name(s, 1, 120)
}

/// The set of strings held in `v`.
pub open spec fn set_of(v: Seq<String>) -> Set<Seq<char>> {
    Set::new(|s: Seq<char>| exists|i: int| 0 <= i < v.len() && #[trigger] v[i]@ == s)
}

/// No string occurs twice in `v`.
pub open spec fn distinct(v: Seq<String>) -> bool {
    forall|i: int, j: int| 0 <= i < j < v.len() ==> #[trigger] v[i]@ != #[trigger] v[j]@
}

/// Whether `v` holds `s`.
pub fn set_contains(v: &Vec<String>, s: &str) -> (r: bool)
    ensures
        r == set_of(v@).contains(s@),
{
    let target = s.to_owned();
    let mut i: usize = 0;
    while i < v.len()
        invariant
            i <= v@.len(),
            target@ == s@,
            forall|j: int| 0 <= j < i ==> v@[j]@ != s@,
        decreases v@.len() - i,
    {
        if v[i] == target {
            assert(v@[i as int]@ == s@);
            return true;
        }
        i = i + 1;
    }
    false
}

/// The strings of `v` are in strictly ascending code-point order, so none repeats.
pub open spec fn sorted(v: Seq<String>) -> bool {
    forall|i: int, j: int| 0 <= i < j < v.len() ==> seq_lt(#[trigger] v[i]@, #[trigger] v[j]@)
}

/// A strictly ascending sequence holds no string twice.
pub proof fn lemma_sorted_distinct(v: Seq<String>)
    requires
        sorted(v),
    ensures
        distinct(v),
{
    assert forall|i: int, j: int| 0 <= i < j < v.len() implies #[trigger] v[i]@ != #[trigger] v[j]@ by {
        lemma_seq_lt_irreflexive(v[i]@);
    }
}

/// Adds `s` to the set held in `v`, at its place in the order.
pub fn set_insert(v: &mut Vec<String>, s: &str)
    requires
        sorted(old(v)@),
    ensures
        sorted(final(v)@),
        set_of(final(v)@) == set_of(old(v)@).insert(s@),
{
    let mut i: usize = 0;
    let mut done = false;
    while !done && i < v.len()
        invariant
            i <= v@.len(),
            sorted(v@),
            forall|j: int| 0 <= j < i ==> seq_lt(#[trigger] v@[j]@, s@),
            done ==> i < v@.len() && !seq_lt(v@[i as int]@, s@),
        decreases v@.len() - i + (if done { 0int } else { 1int }),
    {
        if str_lt(v[i].as_str(), s) {
            i = i + 1;
        } else {
            done = true;
        }
    }
    let target = s.to_owned();
    if i < v.len() && v[i] == target {
        proof {
            assert(set_of(v@).contains(s@)) by {
                assert(v@[i as int]@ == s@);
            }
            assert(set_of(v@) =~= set_of(v@).insert(s@));
        }
        return;
    }
    let ghost prev = v@;
    v.insert(i, target);
    proof {
        if i < prev.len() {
            lemma_seq_lt_total(prev[i as int]@, s@);
        }
        assert forall|a: int, b: int| 0 <= a < b < v@.len() implies seq_lt(#[trigger] v@[a]@, #[trigger] v@[b]@) by {
            if b < i {
                assert(v@[a] == prev[a] && v@[b] == prev[b]);
            } else if b == i {
                assert(v@[a] == prev[a]);
            } else if a == i {
                assert(v@[b] == prev[b - 1]);
                if b - 1 > i {
                    lemma_seq_lt_transitive(s@, prev[i as int]@, prev[b - 1]@);
                }
            } else if a < i {
                assert(v@[a] == prev[a] && v@[b] == prev[b - 1]);
            } else {
                assert(v@[a] == prev[a - 1] && v@[b] == prev[b - 1]);
            }
        }
        assert forall|x: Seq<char>| #[trigger] set_of(v@).contains(x) == set_of(prev).insert(s@).contains(x) by {
            if set_of(v@).contains(x) {
                let k = choose|k: int| 0 <= k < v@.len() && #[trigger] v@[k]@ == x;
                if k < i {
                    assert(prev[k]@ == x);
                } else if k > i {
                    assert(prev[k - 1]@ == x);
                }
            }
            if set_of(prev).insert(s@).contains(x) {
                if x == s@ {
                    assert(v@[i as int]@ == x);
                } else {
                    let k = choose|k: int| 0 <= k < prev.len() && #[trigger] prev[k]@ == x;
                    if k < i {
                        assert(v@[k]@ == x);
                    } else {
                        assert(v@[k + 1]@ == x);
                    }
                }
            }
        }
        assert(set_of(v@) =~= set_of(prev).insert(s@));
    }
}

/// Removes `s` from the set held in `v`.
pub fn set_remove(v: &mut Vec<String>, s: &str)
    requires
        sorted(old(v)@),
    ensures
        sorted(final(v)@),
        set_of(final(v)@) == set_of(old(v)@).remove(s@),
{
    let target = s.to_owned();
    let mut kept: Vec<String> = Vec::new();
    let mut i: usize = 0;
    while i < v.len()
        invariant
            i <= v@.len(),
            target@ == s@,
            sorted(v@),
            sorted(kept@),
            forall|x: Seq<char>| #[trigger] set_of(kept@).contains(x) <==> (x != s@ && exists|j: int|
                0 <= j < i && v@[j]@ == x),
        decreases v@.len() - i,
    {
        if !(v[i] == target) {
            let ghost before = kept@;
            let e = v[i].clone();
            kept.push(e);
            assert forall|x: Seq<char>| #[trigger] set_of(kept@).contains(x) <==> (x != s@
                && exists|j: int| 0 <= j < i + 1 && v@[j]@ == x) by {
                if set_of(kept@).contains(x) {
                    let k = choose|k: int| 0 <= k < kept@.len() && kept@[k]@ == x;
                    if k < before.len() {
                        assert(set_of(before).contains(x));
                    }
                }
                if x != s@ && exists|j: int| 0 <= j < i + 1 && v@[j]@ == x {
                    let j = choose|j: int| 0 <= j < i + 1 && v@[j]@ == x;
                    if j < i {
                        assert(set_of(before).contains(x));
                        let k = choose|k: int| 0 <= k < before.len() && before[k]@ == x;
                        assert(kept@[k]@ == x);
                    } else {
                        assert(kept@[before.len() as int]@ == x);
                    }
                }
            }
            assert forall|a: int, b: int| 0 <= a < b < kept@.len() implies seq_lt(#[trigger] kept@[a]@,
                #[trigger] kept@[b]@) by {
                if b == before.len() {
                    assert(before[a] == kept@[a]);
                    assert(set_of(before).contains(kept@[a]@));
                    let j = choose|j: int| 0 <= j < i && v@[j]@ == kept@[a]@;
                    assert(seq_lt(v@[j]@, v@[i as int]@));
                } else {
                    assert(before[a] == kept@[a] && before[b] == kept@[b]);
                }
            }
        } else {
            assert forall|x: Seq<char>| #[trigger] set_of(kept@).contains(x) <==> (x != s@
                && exists|j: int| 0 <= j < i + 1 && v@[j]@ == x) by {
                if x != s@ && exists|j: int| 0 <= j < i + 1 && v@[j]@ == x {
                    let j = choose|j: int| 0 <= j < i + 1 && v@[j]@ == x;
                }
            }
        }
        i = i + 1;
    }
    assert(set_of(kept@) =~= set_of(v@).remove(s@));
    *v = kept;
}

/// The set of `v`'s strings, with duplicates dropped.
pub fn set_from(v: &Vec<String>) -> (r: Vec<String>)
    ensures
        sorted(r@),
        set_of(r@) == set_of(v@),
{
    let mut r: Vec<String> = Vec::new();
    let mut i: usize = 0;
    while i < v.len()
        invariant
            i <= v@.len(),
            sorted(r@),
            set_of(r@) == set_of(v@.subrange(0, i as int)),
        decreases v@.len() - i,
    {
        let ghost before = r@;
        set_insert(&mut r, v[i].as_str());
        assert(set_of(v@.subrange(0, i + 1)) =~= set_of(v@.subrange(0, i as int)).insert(v@[i as int]@)) by {
            let s1 = v@.subrange(0, i + 1);
            let s0 = v@.subrange(0, i as int);
            assert forall|x: Seq<char>| set_of(s1).contains(x) implies set_of(s0).insert(v@[i as int]@).contains(x) by {
                let j = choose|j: int| 0 <= j < s1.len() && s1[j]@ == x;
                if j < i {
                    assert(s0[j]@ == x);
                }
            }
            assert forall|x: Seq<char>| set_of(s0).insert(v@[i as int]@).contains(x) implies set_of(s1).contains(x) by {
                if x == v@[i as int]@ {
                    assert(s1[i as int]@ == x);
                } else {
                    let j = choose|j: int| 0 <= j < s0.len() && s0[j]@ == x;
                    assert(s1[j]@ == x);
                }
            }
        }
        i = i + 1;
    }
    assert(v@.subrange(0, v@.len() as int) =~= v@);
    r
}

} // verus!
