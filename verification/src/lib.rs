//! Core of a tick-based multiplayer world simulation: a grid-bucketed
//! spatial index with incremental adjacency deltas, a tick-scoped event
//! channel, per-player movement buffering, per-map instance simulation,
//! and the session manager that multiplexes players across instances.

pub mod checker;
pub mod collision;
pub mod entity;
pub mod events;
pub mod instance;
pub mod item;
pub mod manager;
pub mod player;
pub mod playerdata;
pub mod skills;
pub mod spatial;

use vstd::prelude::*;

verus! {

/// The sum of two integers, clamped to the `i32` range.
pub open spec fn clamped(v: int) -> int {
    if v > i32::MAX {
        i32::MAX as int
    } else if v < i32::MIN {
        i32::MIN as int
    } else {
        v
    }
}

/// `i32` addition that clamps at the ends of the range instead of wrapping.
pub fn add_clamped(a: i32, b: i32) -> (r: i32)
    ensures
        r as int == clamped(a + b),
{
    let s = a as i64 + b as i64;
    if s > i32::MAX as i64 {
        i32::MAX
    } else if s < i32::MIN as i64 {
        i32::MIN
    } else {
        s as i32
    }
}

/// `i32` subtraction that clamps at the ends of the range instead of wrapping.
pub fn sub_clamped(a: i32, b: i32) -> (r: i32)
    ensures
        r as int == clamped(a - b),
{
    let s = a as i64 - b as i64;
    if s > i32::MAX as i64 {
        i32::MAX
    } else if s < i32::MIN as i64 {
        i32::MIN
    } else {
        s as i32
    }
}

/// Index of the first element satisfying `pred`, if any.
pub open spec fn find_first<A>(s: Seq<A>, pred: spec_fn(A) -> bool) -> Option<int>
    decreases s.len(),
{
    if s.len() == 0 {
        None
    } else if pred(s[0]) {
        Some(0int)
    } else {
        match find_first(s.skip(1), pred) {
            Some(j) => Some(j + 1),
            None => None,
        }
    }
}

/// `find_first` returns the first satisfying index, and `None` exactly when
/// no element satisfies the predicate.
pub proof fn lemma_find_first_spec<A>(s: Seq<A>, pred: spec_fn(A) -> bool)
    ensures
        match find_first(s, pred) {
            Some(j) => 0 <= j < s.len() && pred(s[j])
                && (forall|k: int| 0 <= k < j ==> !pred(#[trigger] s[k])),
            None => forall|k: int| 0 <= k < s.len() ==> !pred(#[trigger] s[k]),
        },
    decreases s.len(),
{
    if s.len() > 0 && !pred(s[0]) {
        lemma_find_first_spec(s.skip(1), pred);
        let tail = s.skip(1);
        match find_first(tail, pred) {
            Some(j) => {
                assert(tail[j] == s[j + 1]);
                assert forall|k: int| 0 <= k < j + 1 implies !pred(#[trigger] s[k]) by {
                    if k >= 1 {
                        assert(tail[k - 1] == s[k]);
                    }
                }
            },
            None => {
                assert forall|k: int| 0 <= k < s.len() implies !pred(#[trigger] s[k]) by {
                    if k >= 1 {
                        assert(tail[k - 1] == s[k]);
                    }
                }
            },
        }
    }
}

/// Concatenation of `f` over the first `k` elements of `s`.
pub open spec fn concat_map_prefix<A, B>(s: Seq<A>, f: spec_fn(A) -> Seq<B>, k: nat) -> Seq<B>
    decreases k,
{
    if k == 0 {
        Seq::empty()
    } else {
        concat_map_prefix(s, f, (k - 1) as nat) + f(s[k - 1])
    }
}

/// A concatenation prefix only looks at the elements it covers.
pub proof fn lemma_concat_map_prefix_agree<A, B>(s1: Seq<A>, s2: Seq<A>, f: spec_fn(A) -> Seq<B>, k: nat)
    requires
        k <= s1.len(),
        k <= s2.len(),
        forall|i: int| 0 <= i < k ==> s1[i] == s2[i],
    ensures
        concat_map_prefix(s1, f, k) == concat_map_prefix(s2, f, k),
    decreases k,
{
    if k > 0 {
        lemma_concat_map_prefix_agree(s1, s2, f, (k - 1) as nat);
    }
}

/// Concatenation of `f` over all elements of `s`, in order.
pub open spec fn concat_map<A, B>(s: Seq<A>, f: spec_fn(A) -> Seq<B>) -> Seq<B> {
    concat_map_prefix(s, f, s.len())
}

/// A prefix stays a prefix when the longer sequence grows at its end.
pub proof fn lemma_prefix_extend<A>(a: Seq<A>, b: Seq<A>, c: Seq<A>)
    requires
        a.is_prefix_of(b),
    ensures
        a.is_prefix_of(b + c),
{
    assert(a =~= (b + c).subrange(0, a.len() as int));
}

/// A prefix stays a prefix when one element is pushed.
pub proof fn lemma_prefix_push<A>(a: Seq<A>, b: Seq<A>, x: A)
    requires
        a.is_prefix_of(b),
    ensures
        a.is_prefix_of(b.push(x)),
{
    assert(b.push(x) =~= b + seq![x]);
    lemma_prefix_extend(a, b, seq![x]);
}

/// Prefixes chain.
pub proof fn lemma_prefix_trans<A>(a: Seq<A>, b: Seq<A>, c: Seq<A>)
    requires
        a.is_prefix_of(b),
        b.is_prefix_of(c),
    ensures
        a.is_prefix_of(c),
{
    assert(a =~= c.subrange(0, a.len() as int));
}

/// Copies a vector of copyable values.
pub fn clone_vec_copy<T: Copy>(v: &Vec<T>) -> (r: Vec<T>)
    ensures
        r@ == v@,
{
    let mut r: Vec<T> = Vec::new();
    let mut i: usize = 0;
    while i < v.len()
        invariant
            i <= v.len(),
            r@ == v@.take(i as int),
        decreases v.len() - i,
    {
        r.push(v[i]);
        proof {
            assert(v@.take(i + 1) =~= v@.take(i as int).push(v@[i as int]));
        }
        i = i + 1;
    }
    proof {
        assert(v@.take(v@.len() as int) =~= v@);
    }
    r
}

/// Relies on str's `PartialEq`: two string slices compare equal exactly when
/// their character sequences are equal.
#[verifier::external_body]
pub(crate) fn str_eq(a: &str, b: &str) -> (r: bool)
    ensures
        r == (a@ == b@),
{
    a == b
}

} // verus!
