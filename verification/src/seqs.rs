//! Facts about membership in sequences that grow one element at a time.
use vstd::prelude::*;

verus! {

/// What a sequence holds after a push.
pub proof fn lemma_push_contains<T>(s: Seq<T>, x: T)
    ensures
        forall|k: T| #[trigger] s.push(x).contains(k) <==> s.contains(k) || k == x,
{
    assert forall|k: T| #[trigger] s.push(x).contains(k) <==> s.contains(k) || k == x by {
        let more = s.push(x);
        if s.contains(k) {
            let j = choose|j: int| 0 <= j < s.len() && s[j] == k;
            assert(more[j] == k);
        }
        assert(more[s.len() as int] == x);
        if more.contains(k) {
            let j = choose|j: int| 0 <= j < more.len() && more[j] == k;
            if j < s.len() {
                assert(s[j] == k);
            }
        }
    }
}

/// What a longer prefix holds.
pub proof fn lemma_prefix_contains<T>(s: Seq<T>, i: int)
    requires
        0 <= i < s.len(),
    ensures
        s.subrange(0, i + 1) == s.subrange(0, i).push(s[i]),
        forall|k: T| #[trigger]
            s.subrange(0, i + 1).contains(k) <==> s.subrange(0, i).contains(k) || k == s[i],
{
    assert(s.subrange(0, i + 1) =~= s.subrange(0, i).push(s[i]));
    lemma_push_contains(s.subrange(0, i), s[i]);
}

/// What a sequence held before its last element was taken.
pub proof fn lemma_pop_contains<T>(s: Seq<T>)
    requires
        s.len() > 0,
    ensures
        s.contains(s.last()),
        forall|k: T|
            #![trigger s.contains(k)]
            #![trigger s.drop_last().contains(k)]
            s.contains(k) <==> s.drop_last().contains(k) || k == s.last(),
        s.subrange(0, s.len() - 1) == s.drop_last(),
{
    assert(s =~= s.drop_last().push(s.last()));
    lemma_push_contains(s.drop_last(), s.last());
    assert(s.subrange(0, s.len() - 1) =~= s.drop_last());
}

} // verus!
