//! The order in which names are listed: code point by code point, the
//! shorter of two names first where one begins the other.

use vstd::prelude::*;

verus! {

/// `a` and `b` hold the same characters at every position below `k`.
pub open spec fn agree_before(a: Seq<char>, b: Seq<char>, k: int) -> bool {
    forall|j: int| 0 <= j < k ==> a[j] == b[j]
}

/// Position `k` is the first at which `a` and `b` differ, and it puts `a`
/// first: either `a` ends there and `b` goes on, or `a` holds the smaller code
/// point.
pub open spec fn precedes_at(a: Seq<char>, b: Seq<char>, k: int) -> bool {
    &&& 0 <= k <= a.len()
    &&& k < b.len()
    &&& agree_before(a, b, k)
    &&& k < a.len() ==> (a[k] as u32) < (b[k] as u32)
}

/// `a` comes strictly before `b` in lexicographic order of code points.
pub open spec fn key_lt(a: Seq<char>, b: Seq<char>) -> bool {
    exists|k: int| precedes_at(a, b, k)
}

/// No key comes before itself, and of two keys at most one comes before the
/// other.
pub proof fn lemma_key_lt_asymmetric(a: Seq<char>, b: Seq<char>)
    ensures
        !(key_lt(a, b) && key_lt(b, a)),
        !key_lt(a, a),
{
    if key_lt(a, b) && key_lt(b, a) {
        let k1 = choose|k: int| precedes_at(a, b, k);
        let k2 = choose|k: int| precedes_at(b, a, k);
        if k1 < k2 {
            assert(b[k1] == a[k1]);
        } else if k2 < k1 {
            assert(a[k2] == b[k2]);
        }
    }
    if key_lt(a, a) {
        let k = choose|k: int| precedes_at(a, a, k);
        assert(k < a.len());
    }
}

/// The order passes along: a key before a second that is before a third is
/// before the third.
pub proof fn lemma_key_lt_transitive(a: Seq<char>, b: Seq<char>, c: Seq<char>)
    requires
        key_lt(a, b),
        key_lt(b, c),
    ensures
        key_lt(a, c),
{
    let k1 = choose|k: int| precedes_at(a, b, k);
    let k2 = choose|k: int| precedes_at(b, c, k);
    let k = if k1 <= k2 { k1 } else { k2 };
    assert forall|j: int| 0 <= j < k implies a[j] == c[j] by {
        assert(a[j] == b[j]);
        assert(b[j] == c[j]);
    }
    if k < a.len() {
        if k1 < k2 {
            assert(b[k1] == c[k1]);
        } else if k2 < k1 {
            assert(a[k2] == b[k2]);
        }
    }
    assert(precedes_at(a, c, k));
}

/// Different characters have different code points.
proof fn lemma_code_points_differ(c: char, d: char)
    requires
        c != d,
    ensures
        c as u32 != d as u32,
{
    vstd::utf8::char_u32_cast(c, c as u32);
    vstd::utf8::char_u32_cast(d, d as u32);
}

/// Two keys that agree below `k` are equal, or one of them comes before the
/// other.
proof fn lemma_decided_from(a: Seq<char>, b: Seq<char>, k: int)
    requires
        0 <= k <= a.len(),
        k <= b.len(),
        agree_before(a, b, k),
    ensures
        a == b || key_lt(a, b) || key_lt(b, a),
    decreases a.len() - k,
{
    if k == a.len() && k == b.len() {
        assert(a =~= b);
    } else if k == a.len() {
        assert(precedes_at(a, b, k));
    } else if k == b.len() {
        assert(agree_before(b, a, k));
        assert(precedes_at(b, a, k));
    } else if a[k] != b[k] {
        lemma_code_points_differ(a[k], b[k]);
        if (a[k] as u32) < (b[k] as u32) {
            assert(precedes_at(a, b, k));
        } else {
            assert(agree_before(b, a, k));
            assert(precedes_at(b, a, k));
        }
    } else {
        lemma_decided_from(a, b, k + 1);
    }
}

/// Any two keys are equal, or one of them comes before the other.
pub proof fn lemma_key_lt_total(a: Seq<char>, b: Seq<char>)
    ensures
        a == b || key_lt(a, b) || key_lt(b, a),
{
    lemma_decided_from(a, b, 0);
}

/// Whether `a` comes strictly before `b`.
pub fn key_less(a: &Vec<char>, b: &Vec<char>) -> (less: bool)
    ensures
        less == key_lt(a@, b@),
{
    let mut i: usize = 0;
    while i < a.len() && i < b.len() && a[i] == b[i]
        invariant
            i <= a.len(),
            i <= b.len(),
            agree_before(a@, b@, i as int),
        decreases a.len() - i,
    {
        i += 1;
    }
    let less = if i == b.len() {
        false
    } else if i == a.len() {
        true
    } else {
        (a[i] as u32) < (b[i] as u32)
    };
    proof {
        if less {
            assert(precedes_at(a@, b@, i as int));
        } else {
            assert forall|k: int| !precedes_at(a@, b@, k) by {
                if precedes_at(a@, b@, k) {
                    if k < i {
                        assert(a@[k] == b@[k]);
                    } else if k > i {
                        assert(a@[i as int] == b@[i as int]);
                    }
                }
            }
        }
    }
    less
}

/// The characters of `s`, one by one.
pub fn chars_of(s: &str) -> (chars: Vec<char>)
    ensures
        chars@ == s@,
{
    let mut chars: Vec<char> = Vec::new();
    for c in it: s.chars()
        invariant
            it.seq() == s@,
            chars@ == it.seq().take(it.index() as int),
    {
        chars.push(c);
        assert(it.seq().take(it.index() + 1) =~= it.seq().take(it.index() as int).push(c));
    }
    assert(chars@ =~= s@);
    chars
}

} // verus!
