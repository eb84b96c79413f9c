//! Small building blocks: association lists keyed by name, the order of
//! texts, and trimming.
use vstd::prelude::*;
use crate::text::{chars_of, is_whitespace, str_eq, string_of_range, unicode_whitespace};

verus! {

broadcast use vstd::string::group_string_axioms;

/// The position of the first entry named `k` at or after `i`, if any.
pub open spec fn first_key_from<T>(v: Seq<(String, T)>, k: Seq<char>, i: int) -> Option<int>
    decreases v.len() - i,
{
    if i < 0 || i >= v.len() {
        None
    } else if v[i].0@ == k {
        Some(i)
    } else {
        first_key_from(v, k, i + 1)
    }
}

/// The position of the first entry named `k`, if any.
pub open spec fn first_key<T>(v: Seq<(String, T)>, k: Seq<char>) -> Option<int> {
    first_key_from(v, k, 0)
}

proof fn lemma_first_key_from<T>(v: Seq<(String, T)>, k: Seq<char>, i: int)
    requires
        0 <= i,
        forall|l: int| 0 <= l < i && l < v.len() ==> #[trigger] v[l].0@ != k,
    ensures
        match first_key_from(v, k, i) {
            Some(j) => i <= j < v.len() && v[j].0@ == k && forall|l: int| 0 <= l < j ==> #[trigger] v[l].0@ != k,
            None => forall|l: int| 0 <= l < v.len() ==> #[trigger] v[l].0@ != k,
        },
    decreases v.len() - i,
{
    if i < v.len() && v[i].0@ != k {
        lemma_first_key_from(v, k, i + 1);
    }
}

/// What the first entry named `k` is: where it is, and that no entry before
/// it has the name; or that no entry has it.
pub proof fn lemma_first_key<T>(v: Seq<(String, T)>, k: Seq<char>)
    ensures
        match first_key(v, k) {
            Some(j) => 0 <= j < v.len() && v[j].0@ == k && forall|l: int| 0 <= l < j ==> #[trigger] v[l].0@ != k,
            None => forall|l: int| 0 <= l < v.len() ==> #[trigger] v[l].0@ != k,
        },
{
    lemma_first_key_from(v, k, 0);
}

/// Finds the first entry named `k`.
pub fn find_key<T>(v: &Vec<(String, T)>, k: &str) -> (r: Option<usize>)
    ensures
        match r {
            Some(i) => i < v@.len() && v@[i as int].0@ == k@ && forall|j: int| 0 <= j < i ==> #[trigger] v@[j].0@ != k@,
            None => forall|j: int| 0 <= j < v@.len() ==> #[trigger] v@[j].0@ != k@,
        },
        r == match first_key(v@, k@) { Some(i) => Some(i as usize), None => None::<usize> },
{
    let mut i: usize = 0;
    while i < v.len()
        invariant
            0 <= i <= v@.len(),
            forall|j: int| 0 <= j < i ==> #[trigger] v@[j].0@ != k@,
            first_key(v@, k@) == first_key_from(v@, k@, i as int),
        decreases v@.len() - i,
    {
        if str_eq(v[i].0.as_str(), k) {
            return Some(i);
        }
        i = i + 1;
    }
    None
}

/// Binds `k` to `x`: the first entry of that name gets the new value, or the
/// binding is added at the end.
pub fn set_key<T>(v: &mut Vec<(String, T)>, k: String, x: T)
    ensures
        match first_key(old(v)@, k@) {
            Some(i) => final(v)@ == old(v)@.update(i, (old(v)@[i].0, x)),
            None => final(v)@ == old(v)@.push((k, x)),
        },
{
    proof { lemma_first_key(old(v)@, k@); }
    match find_key(v, k.as_str()) {
        Some(i) => {
            let (name, _previous) = v.remove(i);
            v.insert(i, (name, x));
            assert(v@ =~= old(v)@.update(i as int, (old(v)@[i as int].0, x)));
        },
        None => {
            v.push((k, x));
        },
    }
}

/// After `k` is bound to `x` (as `set_key` does), the first entry named `k`
/// holds `x`.
pub proof fn lemma_set_key_reads_back<T>(before: Seq<(String, T)>, after: Seq<(String, T)>, k: Seq<char>, x: T)
    requires
        match first_key(before, k) {
            Some(i) => after == before.update(i, (before[i].0, x)),
            None => after.len() == before.len() + 1 && after.drop_last() == before && after.last().0@ == k
                && after.last().1 == x,
        },
    ensures
        first_key(after, k) matches Some(j) && after[j].1 == x,
{
    lemma_first_key(before, k);
    lemma_first_key(after, k);
    let j: int = match first_key(before, k) { Some(i) => i, None => before.len() as int };
    assert(after[j].0@ == k && after[j].1 == x);
    assert forall|q: int| 0 <= q < j implies #[trigger] after[q].0@ != k by {
        assert(after[q] == before[q]);
    }
    match first_key(after, k) {
        Some(w) => {
            if w < j {
                assert(after[w].0@ != k);
            } else if w > j {
                assert(after[j].0@ != k);
            }
        },
        None => {
            assert(after[j].0@ != k);
        },
    }
}

/// Whether the text `a` comes no later than `b` in the order of `String`:
/// character by character, a prefix first.
pub open spec fn text_le(a: Seq<char>, b: Seq<char>) -> bool
    decreases a.len(),
{
    if a.len() == 0 {
        true
    } else if b.len() == 0 {
        false
    } else if (a[0] as u32) < (b[0] as u32) {
        true
    } else if (a[0] as u32) > (b[0] as u32) {
        false
    } else {
        text_le(a.drop_first(), b.drop_first())
    }
}

/// Of two texts, one comes no later than the other.
pub proof fn lemma_text_le_total(a: Seq<char>, b: Seq<char>)
    ensures
        text_le(a, b) || text_le(b, a),
    decreases a.len(),
{
    if a.len() > 0 && b.len() > 0 && (a[0] as u32) == (b[0] as u32) {
        lemma_text_le_total(a.drop_first(), b.drop_first());
    }
}

/// Compares two texts in the order of `String`.
pub fn text_le_exec(a: &Vec<char>, b: &Vec<char>) -> (r: bool)
    ensures
        r == text_le(a@, b@),
{
    let mut i: usize = 0;
    assert(a@.subrange(0, a@.len() as int) =~= a@);
    assert(b@.subrange(0, b@.len() as int) =~= b@);
    while i < a.len() && i < b.len()
        invariant
            0 <= i <= a@.len(),
            0 <= i <= b@.len(),
            text_le(a@, b@) == text_le(a@.subrange(i as int, a@.len() as int), b@.subrange(i as int, b@.len() as int)),
        decreases a@.len() - i,
    {
        let ca = a[i] as u32;
        let cb = b[i] as u32;
        if ca < cb {
            return true;
        }
        if ca > cb {
            return false;
        }
        proof {
            let sa = a@.subrange(i as int, a@.len() as int);
            let sb = b@.subrange(i as int, b@.len() as int);
            assert(sa.drop_first() =~= a@.subrange(i + 1, a@.len() as int));
            assert(sb.drop_first() =~= b@.subrange(i + 1, b@.len() as int));
        }
        i = i + 1;
    }
    proof {
        let sa = a@.subrange(i as int, a@.len() as int);
        let sb = b@.subrange(i as int, b@.len() as int);
        if i == a@.len() {
            assert(sa.len() == 0);
        } else {
            assert(sb.len() == 0);
        }
    }
    i == a.len()
}

/// The positions `0..names.len()` in the order of the names: each once, the
/// names in order along the result.
pub fn sorted_positions(names: &Vec<Vec<char>>) -> (r: Vec<usize>)
    ensures
        r@.len() == names@.len(),
        forall|i: int| 0 <= i < r@.len() ==> #[trigger] r@[i] < names@.len(),
        forall|i: int, j: int| 0 <= i < j < r@.len() ==> r@[i] != r@[j],
        forall|i: int| 0 <= i < r@.len() - 1 ==> text_le(names@[#[trigger] r@[i] as int]@, names@[r@[i + 1] as int]@),
{
    let mut r: Vec<usize> = Vec::new();
    let mut k: usize = 0;
    while k < names.len()
        invariant
            0 <= k <= names@.len(),
            r@.len() == k,
            forall|i: int| 0 <= i < r@.len() ==> #[trigger] r@[i] < k,
            forall|i: int, j: int| 0 <= i < j < r@.len() ==> r@[i] != r@[j],
            forall|i: int| 0 <= i < r@.len() - 1 ==> text_le(names@[#[trigger] r@[i] as int]@, names@[r@[i + 1] as int]@),
        decreases names@.len() - k,
    {
        let mut p: usize = 0;
        while p < r.len() && text_le_exec(&names[r[p]], &names[k])
            invariant
                0 <= p <= r@.len(),
                r@.len() == k,
                k < names@.len(),
                forall|i: int| 0 <= i < r@.len() ==> #[trigger] r@[i] < k,
                forall|i: int| 0 <= i < p ==> text_le(names@[#[trigger] r@[i] as int]@, names@[k as int]@),
            decreases r@.len() - p,
        {
            p = p + 1;
        }
        proof {
            if p < r@.len() {
                lemma_text_le_total(names@[r@[p as int] as int]@, names@[k as int]@);
            }
        }
        let ghost before = r@;
        r.insert(p, k);
        proof {
            assert(r@ == before.insert(p as int, k));
            assert forall|i: int| 0 <= i < r@.len() - 1 implies text_le(names@[#[trigger] r@[i] as int]@, names@[r@[i + 1] as int]@) by {
                if i < p - 1 {
                    assert(r@[i] == before[i] && r@[i + 1] == before[i + 1]);
                } else if i == p - 1 {
                    assert(r@[i] == before[i] && r@[i + 1] == k);
                } else if i == p {
                    assert(r@[i] == k && r@[i + 1] == before[i]);
                } else {
                    assert(r@[i] == before[i - 1] && r@[i + 1] == before[i]);
                }
            }
            assert forall|i: int, j: int| 0 <= i < j < r@.len() implies r@[i] != r@[j] by {
                if j < p {
                    assert(r@[i] == before[i] && r@[j] == before[j]);
                } else if j == p {
                    assert(r@[j] == k && r@[i] == before[i]);
                } else if i < p {
                    assert(r@[i] == before[i] && r@[j] == before[j - 1]);
                } else if i == p {
                    assert(r@[i] == k && r@[j] == before[j - 1]);
                } else {
                    assert(r@[i] == before[i - 1] && r@[j] == before[j - 1]);
                }
            }
            assert forall|i: int| 0 <= i < r@.len() implies #[trigger] r@[i] < k + 1 by {
                if i < p {
                    assert(r@[i] == before[i]);
                } else if i > p {
                    assert(r@[i] == before[i - 1]);
                }
            }
        }
        k = k + 1;
    }
    r
}

/// The text `s` without white space at either end (`str::trim`).
pub open spec fn trimmed(s: Seq<char>) -> Seq<char>
    decreases s.len(),
{
    if s.len() > 0 && unicode_whitespace(s[0]) {
        trimmed(s.drop_first())
    } else if s.len() > 0 && unicode_whitespace(s.last()) {
        trimmed(s.drop_last())
    } else {
        s
    }
}

/// Removes white space at both ends of `s`.
pub fn trim(s: &str) -> (r: String)
    ensures
        r@ == trimmed(s@),
{
    let cs = chars_of(s);
    let mut lo: usize = 0;
    let mut hi: usize = cs.len();
    assert(cs@.subrange(0, cs@.len() as int) =~= cs@);
    while lo < hi && is_whitespace(cs[lo])
        invariant
            0 <= lo <= hi == cs@.len(),
            cs@ == s@,
            trimmed(s@) == trimmed(cs@.subrange(lo as int, hi as int)),
        decreases hi - lo,
    {
        assert(cs@.subrange(lo as int, hi as int).drop_first() =~= cs@.subrange(lo + 1, hi as int));
        lo = lo + 1;
    }
    while lo < hi && is_whitespace(cs[hi - 1])
        invariant
            0 <= lo <= hi <= cs@.len(),
            cs@ == s@,
            lo < hi ==> !unicode_whitespace(cs@[lo as int]),
            trimmed(s@) == trimmed(cs@.subrange(lo as int, hi as int)),
        decreases hi - lo,
    {
        let ghost t = cs@.subrange(lo as int, hi as int);
        assert(t.drop_last() =~= cs@.subrange(lo as int, hi - 1));
        assert(t[0] == cs@[lo as int]);
        hi = hi - 1;
    }
    let ghost t = cs@.subrange(lo as int, hi as int);
    proof {
        if t.len() > 0 {
            assert(t[0] == cs@[lo as int]);
            assert(t.last() == cs@[hi - 1]);
        }
    }
    string_of_range(&cs, lo, hi)
}

} // verus!
