//! Facts about appending to a sequence.

use vstd::prelude::*;

verus! {

/// What a sequence contains after one more element is appended.
pub proof fn lemma_push_contains<T>(s: Seq<T>, value: T, probe: T)
    ensures
        s.push(value).contains(probe) <==> s.contains(probe) || probe == value,
{
    let extended = s.push(value);
    if extended.contains(probe) {
        let j = choose|j: int| 0 <= j < extended.len() && extended[j] == probe;
        if j < s.len() {
            assert(s[j] == probe);
        }
    }
    if s.contains(probe) {
        let j = choose|j: int| 0 <= j < s.len() && s[j] == probe;
        assert(extended[j] == probe);
    }
    if probe == value {
        assert(extended[s.len() as int] == probe);
    }
}

/// Appending an element that a sequence without repetitions does not
/// contain gives a sequence without repetitions.
pub proof fn lemma_push_distinct<T>(s: Seq<T>, value: T)
    requires
        s.no_duplicates(),
    ensures
        !s.contains(value) ==> s.push(value).no_duplicates(),
{
}

} // verus!
