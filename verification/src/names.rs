//! Which characters a name of the language may hold.
use vstd::prelude::*;
use crate::text::chars_of;

verus! {

broadcast use vstd::string::group_string_axioms;

/// The characters a name may be made of: the Latin letters of the
/// language's alphabet (with `ö` and `ü`), `_` and the ten digits.
pub open spec fn name_chars() -> Seq<char> {
    "abcdefghijklmnoöprstuüvyzwxqABCDEFGHIJKLMNOÖPRSTUÜVYZWXQ_1234567890"@
}

/// Whether every character of `s` may stand in a name.
pub fn check_string(s: &str) -> (r: bool)
    ensures
        r == (forall|i: int| 0 <= i < s@.len() ==> name_chars().contains(#[trigger] s@[i])),
{
    let allowed = chars_of("abcdefghijklmnoöprstuüvyzwxqABCDEFGHIJKLMNOÖPRSTUÜVYZWXQ_1234567890");
    let cs = chars_of(s);
    let mut i: usize = 0;
    while i < cs.len()
        invariant
            allowed@ == name_chars(),
            cs@ == s@,
            0 <= i <= cs@.len(),
            forall|k: int| 0 <= k < i ==> name_chars().contains(#[trigger] s@[k]),
        decreases cs@.len() - i,
    {
        let c = cs[i];
        let mut j: usize = 0;
        let mut found = false;
        while j < allowed.len()
            invariant
                allowed@ == name_chars(),
                0 <= j <= allowed@.len(),
                found == exists|k: int| 0 <= k < j && allowed@[k] == c,
            decreases allowed@.len() - j,
        {
            if allowed[j] == c {
                found = true;
            }
            j = j + 1;
        }
        if !found {
            assert(!name_chars().contains(s@[i as int]));
            return false;
        }
        i = i + 1;
    }
    true
}

} // verus!
