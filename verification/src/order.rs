//! Orderings and sorting for the value shapes the adapter works with:
//! plain strings, `(flag, optional value)` argument pairs, and
//! `(name, value)` environment pairs.  Each sort is an insertion sort whose
//! result is proved equal to the specification-level `Seq::sort_by`.

use vstd::prelude::*;

verus! {

use vstd::relations::{total_ordering, sorted_by};
use vstd::seq_lib::lemma_sorted_unique;
use crate::strkit::{
    str_le, str_leq, str_le_exec, str_eq, lemma_str_le_total_ordering, lemma_str_le_refl,
    lemma_str_le_antisym, lemma_str_le_trans, lemma_str_le_connected,
};

/// The view of a sequence of strings, as a sequence of character sequences.
pub open spec fn views(v: Seq<String>) -> Seq<Seq<char>> {
    v.map_values(|s: String| s@)
}

/// The view of one `(flag, optional value)` argument pair.
pub open spec fn pair_view(p: (String, Option<String>)) -> (Seq<char>, Option<Seq<char>>) {
    (
        p.0@,
        match p.1 {
            Some(s) => Some(s@),
            None => None,
        },
    )
}

/// The view of a sequence of argument pairs.
pub open spec fn pair_views(v: Seq<(String, Option<String>)>) -> Seq<
    (Seq<char>, Option<Seq<char>>),
> {
    v.map_values(|p: (String, Option<String>)| pair_view(p))
}

/// The view of one `(name, value)` environment pair.
pub open spec fn env_view(p: (String, String)) -> (Seq<char>, Seq<char>) {
    (p.0@, p.1@)
}

/// The view of a sequence of environment pairs.
pub open spec fn env_views(v: Seq<(String, String)>) -> Seq<(Seq<char>, Seq<char>)> {
    v.map_values(|p: (String, String)| env_view(p))
}

/// Order on optional strings: absent sorts before present, as in the
/// standard ordering on options.
pub open spec fn opt_le(a: Option<Seq<char>>, b: Option<Seq<char>>) -> bool {
    match (a, b) {
        (Option::None, _) => true,
        (Option::Some(_), Option::None) => false,
        (Option::Some(x), Option::Some(y)) => str_le(x, y),
    }
}

/// Lexicographic order on argument pairs: by flag, then by value.
pub open spec fn pair_le(
    a: (Seq<char>, Option<Seq<char>>),
    b: (Seq<char>, Option<Seq<char>>),
) -> bool {
    if a.0 == b.0 {
        opt_le(a.1, b.1)
    } else {
        str_le(a.0, b.0)
    }
}

/// The order `pair_le` as a relation value.
pub open spec fn pair_leq() -> spec_fn(
    (Seq<char>, Option<Seq<char>>),
    (Seq<char>, Option<Seq<char>>),
) -> bool {
    |a: (Seq<char>, Option<Seq<char>>), b: (Seq<char>, Option<Seq<char>>)| pair_le(a, b)
}

/// Lexicographic order on environment pairs: by name, then by value.
pub open spec fn env_le(a: (Seq<char>, Seq<char>), b: (Seq<char>, Seq<char>)) -> bool {
    if a.0 == b.0 {
        str_le(a.1, b.1)
    } else {
        str_le(a.0, b.0)
    }
}

/// The order `env_le` as a relation value.
pub open spec fn env_leq() -> spec_fn((Seq<char>, Seq<char>), (Seq<char>, Seq<char>)) -> bool {
    |a: (Seq<char>, Seq<char>), b: (Seq<char>, Seq<char>)| env_le(a, b)
}

/// `pair_le` is a total ordering.
pub proof fn lemma_pair_le_total_ordering()
    ensures
        total_ordering(pair_leq()),
{
    let r = pair_leq();
    assert forall|x: (Seq<char>, Option<Seq<char>>)| #[trigger] r(x, x) by {
        lemma_str_le_refl(x.0);
        if x.1 is Some {
            lemma_str_le_refl(x.1->0);
        }
    }
    assert forall|x: (Seq<char>, Option<Seq<char>>), y: (Seq<char>, Option<Seq<char>>)|
        #[trigger] r(x, y) && #[trigger] r(y, x) implies x == y by {
        if x.0 == y.0 {
            match (x.1, y.1) {
                (Option::Some(a), Option::Some(b)) => {
                    lemma_str_le_antisym(a, b);
                },
                _ => {},
            }
        } else {
            lemma_str_le_antisym(x.0, y.0);
        }
    }
    assert forall|
        x: (Seq<char>, Option<Seq<char>>),
        y: (Seq<char>, Option<Seq<char>>),
        z: (Seq<char>, Option<Seq<char>>),
    |
        #[trigger] r(x, y) && #[trigger] r(y, z) implies r(x, z) by {
        if x.0 == y.0 && y.0 == z.0 {
            match (x.1, y.1, z.1) {
                (Option::Some(a), Option::Some(b), Option::Some(c)) => {
                    lemma_str_le_trans(a, b, c);
                },
                _ => {},
            }
        } else if x.0 == y.0 {
            assert(str_le(y.0, z.0));
        } else if y.0 == z.0 {
            assert(str_le(x.0, y.0));
        } else {
            lemma_str_le_trans(x.0, y.0, z.0);
            if x.0 == z.0 {
                lemma_str_le_antisym(x.0, y.0);
            }
        }
    }
    assert forall|x: (Seq<char>, Option<Seq<char>>), y: (Seq<char>, Option<Seq<char>>)|
        #[trigger] r(x, y) || #[trigger] r(y, x) by {
        if x.0 == y.0 {
            match (x.1, y.1) {
                (Option::Some(a), Option::Some(b)) => {
                    lemma_str_le_connected(a, b);
                },
                _ => {},
            }
        } else {
            lemma_str_le_connected(x.0, y.0);
        }
    }
}

/// `env_le` is a total ordering.
pub proof fn lemma_env_le_total_ordering()
    ensures
        total_ordering(env_leq()),
{
    let r = env_leq();
    assert forall|x: (Seq<char>, Seq<char>)| #[trigger] r(x, x) by {
        lemma_str_le_refl(x.0);
        lemma_str_le_refl(x.1);
    }
    assert forall|x: (Seq<char>, Seq<char>), y: (Seq<char>, Seq<char>)|
        #[trigger] r(x, y) && #[trigger] r(y, x) implies x == y by {
        if x.0 == y.0 {
            lemma_str_le_antisym(x.1, y.1);
        } else {
            lemma_str_le_antisym(x.0, y.0);
        }
    }
    assert forall|x: (Seq<char>, Seq<char>), y: (Seq<char>, Seq<char>), z: (Seq<char>, Seq<char>)|
        #[trigger] r(x, y) && #[trigger] r(y, z) implies r(x, z) by {
        if x.0 == y.0 && y.0 == z.0 {
            lemma_str_le_trans(x.1, y.1, z.1);
        } else if x.0 == y.0 {
            assert(str_le(y.0, z.0));
        } else if y.0 == z.0 {
            assert(str_le(x.0, y.0));
        } else {
            lemma_str_le_trans(x.0, y.0, z.0);
            if x.0 == z.0 {
                lemma_str_le_antisym(x.0, y.0);
            }
        }
    }
    assert forall|x: (Seq<char>, Seq<char>), y: (Seq<char>, Seq<char>)|
        #[trigger] r(x, y) || #[trigger] r(y, x) by {
        if x.0 == y.0 {
            lemma_str_le_connected(x.1, y.1);
        } else {
            lemma_str_le_connected(x.0, y.0);
        }
    }
}

/// A sorted sequence with the same elements as `orig.sort_by(leq)` is that
/// very sequence: sorting under a total order has a unique result.
pub proof fn lemma_unique_sort<A>(actual: Seq<A>, orig: Seq<A>, leq: spec_fn(A, A) -> bool)
    requires
        total_ordering(leq),
        sorted_by(actual, leq),
        actual.to_multiset() == orig.to_multiset(),
    ensures
        actual == orig.sort_by(leq),
{
    orig.lemma_sort_by_ensures(leq);
    lemma_sorted_unique(actual, orig.sort_by(leq), leq);
}

/// Decides `pair_le` on argument pairs.
fn pair_le_exec(a: &(String, Option<String>), b: &(String, Option<String>)) -> (r: bool)
    ensures
        r == pair_le(pair_view(*a), pair_view(*b)),
{
    if str_eq(a.0.as_str(), b.0.as_str()) {
        match (&a.1, &b.1) {
            (Option::None, _) => true,
            (Option::Some(_), Option::None) => false,
            (Option::Some(x), Option::Some(y)) => str_le_exec(x.as_str(), y.as_str()),
        }
    } else {
        str_le_exec(a.0.as_str(), b.0.as_str())
    }
}

/// Decides `env_le` on environment pairs.
fn env_le_exec(a: &(String, String), b: &(String, String)) -> (r: bool)
    ensures
        r == env_le(env_view(*a), env_view(*b)),
{
    if str_eq(a.0.as_str(), b.0.as_str()) {
        str_le_exec(a.1.as_str(), b.1.as_str())
    } else {
        str_le_exec(a.0.as_str(), b.0.as_str())
    }
}

/// Sorts strings lexicographically; the result is exactly
/// `views(v).sort_by(str_leq())`.
pub fn sort_strings(v: &Vec<String>) -> (r: Vec<String>)
    ensures
        views(r@) == views(v@).sort_by(str_leq()),
{
    proof {
        lemma_str_le_total_ordering();
        vstd::seq_lib::lemma_multiset_commutative(Seq::<Seq<char>>::empty(), Seq::<Seq<char>>::empty());
    }
    let mut r: Vec<String> = Vec::new();
    let mut i: usize = 0;
    proof {
        assert(views(r@) =~~= Seq::<Seq<char>>::empty());
        assert(views(v@.take(0)) =~~= Seq::<Seq<char>>::empty());
        assert(views(r@).to_multiset() =~= views(v@.take(0)).to_multiset());
    }
    while i < v.len()
        invariant
            i <= v@.len(),
            sorted_by(views(r@), str_leq()),
            views(r@).to_multiset() == views(v@.take(i as int)).to_multiset(),
        decreases v@.len() - i,
    {
        let x = v[i].clone();
        let ghost old_r = r@;
        let mut k: usize = 0;
        while k < r.len() && str_le_exec(r[k].as_str(), x.as_str())
            invariant
                k <= r@.len(),
                r@ == old_r,
                x@ == v@[i as int]@,
                forall|j: int| 0 <= j < k ==> str_le(#[trigger] views(r@)[j], x@),
            decreases r@.len() - k,
    {
            k = k + 1;
        }
        proof {
            lemma_str_le_total_ordering();
            if k < r@.len() {
                assert(!str_le(views(r@)[k as int], x@));
                lemma_str_le_connected(views(r@)[k as int], x@);
            }
        }
        r.insert(k, x);
        proof {
            let m = views(old_r).insert(k as int, v@[i as int]@);
            assert(views(r@) =~~= m);
            assert forall|p: int, q: int| 0 <= p < q < views(r@).len() implies #[trigger] str_leq()(
                views(r@)[p],
                views(r@)[q],
            ) by {
                let vk = v@[i as int]@;
                if q < k {
                    assert(str_leq()(views(old_r)[p], views(old_r)[q]));
                } else if p < k && q == k {
                    assert(str_le(views(old_r)[p], vk));
                } else if p < k && q > k {
                    assert(str_leq()(views(old_r)[p], views(old_r)[q - 1]));
                } else if p == k && q > k {
                    if k < views(old_r).len() {
                        assert(str_le(vk, views(old_r)[k as int]));
                        if q - 1 > k {
                            assert(str_leq()(views(old_r)[k as int], views(old_r)[q - 1]));
                            lemma_str_le_trans(vk, views(old_r)[k as int], views(old_r)[q - 1]);
                        }
                    }
                } else {
                    assert(str_leq()(views(old_r)[p - 1], views(old_r)[q - 1]));
                }
            }
            vstd::seq_lib::to_multiset_insert(views(old_r), k as int, v@[i as int]@);
            assert(v@.take(i + 1).drop_last() =~= v@.take(i as int));
            assert(views(v@.take(i + 1)).drop_last() =~~= views(v@.take(i as int)));
            vstd::seq_lib::to_multiset_build::<Seq<char>>(
                views(v@.take(i + 1)).drop_last(),
                v@[i as int]@,
            );
            assert(views(v@.take(i + 1)).drop_last().push(v@[i as int]@) =~~= views(
                v@.take(i + 1),
            ));
        }
        i = i + 1;
    }
    proof {
        assert(v@.take(i as int) =~= v@);
        lemma_str_le_total_ordering();
        lemma_unique_sort(views(r@), views(v@), str_leq());
    }
    r
}


/// Clones a vector of strings.
pub fn clone_strings(v: &Vec<String>) -> (r: Vec<String>)
    ensures
        r@ == v@,
{
    let mut r: Vec<String> = Vec::new();
    let mut i: usize = 0;
    while i < v.len()
        invariant
            i <= v@.len(),
            r@ == v@.take(i as int),
        decreases v@.len() - i,
    {
        r.push(v[i].clone());
        proof {
            assert(r@ =~= v@.take(i as int + 1));
        }
        i = i + 1;
    }
    proof {
        assert(v@.take(i as int) =~= v@);
    }
    r
}

/// Clones one argument pair.
pub fn clone_pair(p: &(String, Option<String>)) -> (r: (String, Option<String>))
    ensures
        r == *p,
{
    (
        p.0.clone(),
        match &p.1 {
            Option::Some(s) => Option::Some(s.clone()),
            Option::None => Option::None,
        },
    )
}

/// Sorts argument pairs by `pair_le`; the result is exactly
/// `pair_views(v).sort_by(pair_leq())`.
pub fn sort_pairs(v: &Vec<(String, Option<String>)>) -> (r: Vec<(String, Option<String>)>)
    ensures
        pair_views(r@) == pair_views(v@).sort_by(pair_leq()),
{
    proof {
        lemma_pair_le_total_ordering();
    }
    let mut r: Vec<(String, Option<String>)> = Vec::new();
    let mut i: usize = 0;
    proof {
        assert(pair_views(r@) =~~= Seq::<(Seq<char>, Option<Seq<char>>)>::empty());
        assert(pair_views(v@.take(0)) =~~= Seq::<(Seq<char>, Option<Seq<char>>)>::empty());
        assert(pair_views(r@).to_multiset() =~= pair_views(v@.take(0)).to_multiset());
    }
    while i < v.len()
        invariant
            i <= v@.len(),
            sorted_by(pair_views(r@), pair_leq()),
            pair_views(r@).to_multiset() == pair_views(v@.take(i as int)).to_multiset(),
        decreases v@.len() - i,
    {
        let x = clone_pair(&v[i]);
        let ghost old_r = r@;
        let mut k: usize = 0;
        while k < r.len() && pair_le_exec(&r[k], &x)
            invariant
                k <= r@.len(),
                r@ == old_r,
                x == v@[i as int],
                forall|j: int| 0 <= j < k ==> pair_le(#[trigger] pair_views(r@)[j], pair_view(x)),
            decreases r@.len() - k,
        {
            k = k + 1;
        }
        proof {
            lemma_pair_le_total_ordering();
            if k < r@.len() {
                assert(!pair_le(pair_views(r@)[k as int], pair_view(x)));
                assert(pair_leq()(pair_views(r@)[k as int], pair_view(x)) || pair_leq()(
                    pair_view(x),
                    pair_views(r@)[k as int],
                ));
            }
        }
        r.insert(k, x);
        proof {
            let vk = pair_view(v@[i as int]);
            let m = pair_views(old_r).insert(k as int, vk);
            assert(pair_views(r@) =~~= m);
            assert forall|p: int, q: int| 0 <= p < q < pair_views(r@).len() implies #[trigger] pair_leq()(
                pair_views(r@)[p],
                pair_views(r@)[q],
            ) by {
                if q < k {
                    assert(pair_leq()(pair_views(old_r)[p], pair_views(old_r)[q]));
                } else if p < k && q == k {
                    assert(pair_le(pair_views(old_r)[p], vk));
                } else if p < k && q > k {
                    assert(pair_leq()(pair_views(old_r)[p], pair_views(old_r)[q - 1]));
                } else if p == k && q > k {
                    if k < pair_views(old_r).len() {
                        assert(pair_le(vk, pair_views(old_r)[k as int]));
                        if q - 1 > k {
                            assert(pair_leq()(pair_views(old_r)[k as int], pair_views(old_r)[q - 1]));
                        }
                    }
                } else {
                    assert(pair_leq()(pair_views(old_r)[p - 1], pair_views(old_r)[q - 1]));
                }
            }
            vstd::seq_lib::to_multiset_insert(pair_views(old_r), k as int, vk);
            assert(v@.take(i + 1).drop_last() =~= v@.take(i as int));
            assert(pair_views(v@.take(i + 1)).drop_last() =~~= pair_views(v@.take(i as int)));
            vstd::seq_lib::to_multiset_build::<(Seq<char>, Option<Seq<char>>)>(
                pair_views(v@.take(i + 1)).drop_last(),
                vk,
            );
            assert(pair_views(v@.take(i + 1)).drop_last().push(vk) =~~= pair_views(v@.take(i + 1)));
        }
        i = i + 1;
    }
    proof {
        assert(v@.take(i as int) =~= v@);
        lemma_pair_le_total_ordering();
        lemma_unique_sort(pair_views(r@), pair_views(v@), pair_leq());
    }
    r
}

/// Sorts environment pairs by `env_le`; the result is exactly
/// `env_views(v).sort_by(env_leq())`.
pub fn sort_env(v: &Vec<(String, String)>) -> (r: Vec<(String, String)>)
    ensures
        env_views(r@) == env_views(v@).sort_by(env_leq()),
{
    proof {
        lemma_env_le_total_ordering();
    }
    let mut r: Vec<(String, String)> = Vec::new();
    let mut i: usize = 0;
    proof {
        assert(env_views(r@) =~~= Seq::<(Seq<char>, Seq<char>)>::empty());
        assert(env_views(v@.take(0)) =~~= Seq::<(Seq<char>, Seq<char>)>::empty());
        assert(env_views(r@).to_multiset() =~= env_views(v@.take(0)).to_multiset());
    }
    while i < v.len()
        invariant
            i <= v@.len(),
            sorted_by(env_views(r@), env_leq()),
            env_views(r@).to_multiset() == env_views(v@.take(i as int)).to_multiset(),
        decreases v@.len() - i,
    {
        let x = (v[i].0.clone(), v[i].1.clone());
        let ghost old_r = r@;
        let mut k: usize = 0;
        while k < r.len() && env_le_exec(&r[k], &x)
            invariant
                k <= r@.len(),
                r@ == old_r,
                x == v@[i as int],
                forall|j: int| 0 <= j < k ==> env_le(#[trigger] env_views(r@)[j], env_view(x)),
            decreases r@.len() - k,
        {
            k = k + 1;
        }
        proof {
            lemma_env_le_total_ordering();
            if k < r@.len() {
                assert(!env_le(env_views(r@)[k as int], env_view(x)));
                assert(env_leq()(env_views(r@)[k as int], env_view(x)) || env_leq()(
                    env_view(x),
                    env_views(r@)[k as int],
                ));
            }
        }
        r.insert(k, x);
        proof {
            let vk = env_view(v@[i as int]);
            let m = env_views(old_r).insert(k as int, vk);
            assert(env_views(r@) =~~= m);
            assert forall|p: int, q: int| 0 <= p < q < env_views(r@).len() implies #[trigger] env_leq()(
                env_views(r@)[p],
                env_views(r@)[q],
            ) by {
                if q < k {
                    assert(env_leq()(env_views(old_r)[p], env_views(old_r)[q]));
                } else if p < k && q == k {
                    assert(env_le(env_views(old_r)[p], vk));
                } else if p < k && q > k {
                    assert(env_leq()(env_views(old_r)[p], env_views(old_r)[q - 1]));
                } else if p == k && q > k {
                    if k < env_views(old_r).len() {
                        assert(env_le(vk, env_views(old_r)[k as int]));
                        if q - 1 > k {
                            assert(env_leq()(env_views(old_r)[k as int], env_views(old_r)[q - 1]));
                        }
                    }
                } else {
                    assert(env_leq()(env_views(old_r)[p - 1], env_views(old_r)[q - 1]));
                }
            }
            vstd::seq_lib::to_multiset_insert(env_views(old_r), k as int, vk);
            assert(v@.take(i + 1).drop_last() =~= v@.take(i as int));
            assert(env_views(v@.take(i + 1)).drop_last() =~~= env_views(v@.take(i as int)));
            vstd::seq_lib::to_multiset_build::<(Seq<char>, Seq<char>)>(
                env_views(v@.take(i + 1)).drop_last(),
                vk,
            );
            assert(env_views(v@.take(i + 1)).drop_last().push(vk) =~~= env_views(v@.take(i + 1)));
        }
        i = i + 1;
    }
    proof {
        assert(v@.take(i as int) =~= v@);
        lemma_env_le_total_ordering();
        lemma_unique_sort(env_views(r@), env_views(v@), env_leq());
    }
    r
}

} // verus!
