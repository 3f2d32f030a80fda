//! Small verified helpers on strings.

use vstd::prelude::*;
use vstd::string::StringExecFns;

verus! {

/// Character-wise equality of two string slices.
pub fn str_eq(a: &str, b: &str) -> (r: bool)
    ensures
        r == (a@ == b@),
{
    let x: String = a.to_owned();
    let y: String = b.to_owned();
    x == y
}

/// Whether `s` begins with `prefix`.
pub open spec fn spec_has_prefix(s: Seq<char>, prefix: Seq<char>) -> bool {
    s.len() >= prefix.len() && s.subrange(0, prefix.len() as int) == prefix
}

/// The value of the first pair whose key is `key`.
pub open spec fn spec_assoc_lookup(pairs: Seq<(String, String)>, key: Seq<char>) -> Option<
    Seq<char>,
>
    decreases pairs.len(),
{
    if pairs.len() == 0 {
        None
    } else if pairs[0].0@ == key {
        Some(pairs[0].1@)
    } else {
        spec_assoc_lookup(pairs.skip(1), key)
    }
}

/// Helper: `spec_assoc_lookup` is unchanged by skipping keyless prefixes.
proof fn lemma_assoc_lookup_skip(pairs: Seq<(String, String)>, key: Seq<char>, i: int)
    requires
        0 <= i <= pairs.len(),
        forall|j: int| 0 <= j < i ==> (#[trigger] pairs[j]).0@ != key,
    ensures
        spec_assoc_lookup(pairs, key) == spec_assoc_lookup(pairs.skip(i), key),
    decreases i,
{
    if i > 0 {
        assert(pairs[0].0@ != key);
        let rest = pairs.skip(1);
        assert(spec_assoc_lookup(pairs, key) == spec_assoc_lookup(rest, key));
        assert(forall|j: int| 0 <= j < i - 1 ==> (#[trigger] rest[j]) == pairs[j + 1]);
        lemma_assoc_lookup_skip(rest, key, i - 1);
        assert(rest.skip(i - 1) =~= pairs.skip(i));
        assert(spec_assoc_lookup(rest.skip(i - 1), key) == spec_assoc_lookup(pairs.skip(i), key));
    } else {
        assert(pairs.skip(0) =~= pairs);
    }
}

/// Look up the first pair whose key is `key` and return a copy of its value.
pub fn assoc_lookup(pairs: &Vec<(String, String)>, key: &str) -> (r: Option<String>)
    ensures
        (match r {
            Some(v) => spec_assoc_lookup(pairs@, key@) == Some(v@),
            None => spec_assoc_lookup(pairs@, key@) is None,
        }),
{
    let mut i: usize = 0;
    #[verifier::loop_isolation(false)]
    while i < pairs.len()
        invariant
            i <= pairs@.len(),
            forall|j: int| 0 <= j < i ==> (#[trigger] pairs@[j]).0@ != key@,
        decreases pairs@.len() - i,
    {
        if str_eq(pairs[i].0.as_str(), key) {
            proof {
                lemma_assoc_lookup_skip(pairs@, key@, i as int);
                let tail = pairs@.skip(i as int);
                assert(tail.len() > 0 && tail[0] == pairs@[i as int]);
                assert(spec_assoc_lookup(tail, key@) == Some(pairs@[i as int].1@));
            }
            return Some(pairs[i].1.clone());
        }
        i = i + 1;
    }
    proof {
        lemma_assoc_lookup_skip(pairs@, key@, pairs@.len() as int);
        assert(pairs@.skip(pairs@.len() as int).len() == 0);
    }
    None
}

} // verus!
