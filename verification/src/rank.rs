//! Ranking: the order in which candidates are listed. The better candidate
//! comes first, and of two that are equally good the one that came first.

use vstd::prelude::*;

verus! {

/// A value by which candidates are ranked.
pub trait Ranked: Sized {
    /// What the value is, as a plain value.
    type Key;

    /// What the value is, as a plain value.
    spec fn key(&self) -> Self::Key;

    /// Whether a candidate with the value `a` is better than one with `b`.
    spec fn outranks(a: Self::Key, b: Self::Key) -> bool;

    /// Whether a candidate with this value is better than one with `other`.
    fn is_above(&self, other: &Self) -> (r: bool)
        ensures
            r == Self::outranks(self.key(), other.key()),
    ;

    /// Being better is a strict order in which being equally good is
    /// transitive.
    proof fn lemma_order(a: Self::Key, b: Self::Key, c: Self::Key)
        ensures
            !(Self::outranks(a, b) && Self::outranks(b, a)),
            Self::outranks(a, b) && Self::outranks(b, c) ==> Self::outranks(a, c),
            !Self::outranks(a, b) && !Self::outranks(b, c) ==> !Self::outranks(a, c),
    ;
}

/// Whether candidate `a` is listed before candidate `b`: the better one
/// first, and of two equally good ones the one that came first.
pub open spec fn listed_before<T: Ranked>(keys: Seq<Option<T::Key>>, a: int, b: int) -> bool {
    T::outranks(keys[a]->0, keys[b]->0) || (!T::outranks(keys[b]->0, keys[a]->0) && a < b)
}

/// Whether `order` lists candidate `i`.
pub open spec fn lists(order: Seq<usize>, i: int) -> bool {
    exists|k: int| 0 <= k < order.len() && #[trigger] order[k] == i
}

/// Whether `order` lists exactly the candidates that have a value, each once,
/// the best first. There is one such list.
pub open spec fn is_ranking<T: Ranked>(order: Seq<usize>, keys: Seq<Option<T::Key>>) -> bool {
    &&& forall|k: int|
        0 <= k < order.len() ==> order[k] < keys.len() && (#[trigger] keys[order[k] as int])
            is Some
    &&& forall|i: int| 0 <= i < keys.len() && (#[trigger] keys[i]) is Some ==> lists(order, i)
    &&& forall|a: int, b: int|
        0 <= a < b < order.len() ==> listed_before::<T>(keys, order[a] as int, order[b] as int)
}

/// The values of the candidates, as plain values.
pub open spec fn keys_of<T: Ranked>(keys: Seq<Option<T>>) -> Seq<Option<T::Key>> {
    Seq::new(
        keys.len(),
        |i: int|
            match keys[i] {
                Some(k) => Some(k.key()),
                None => None,
            },
    )
}

fn key_at<T>(keys: &Vec<Option<T>>, at: usize) -> (k: &T)
    requires
        at < keys.len(),
        keys@[at as int] is Some,
    ensures
        keys@[at as int] == Some(*k),
{
    keys[at].as_ref().unwrap()
}

/// Ranks the candidates that have a value: the best first, and of two
/// equally good ones the one that came first.
pub fn rank<T: Ranked>(keys: &Vec<Option<T>>) -> (order: Vec<usize>)
    ensures
        is_ranking::<T>(order@, keys_of(keys@)),
        order@ == ranking::<T>(keys_of(keys@)),
{
    let ghost kv = keys_of(keys@);
    let mut order: Vec<usize> = Vec::new();
    let mut i: usize = 0;
    while i < keys.len()
        invariant
            i <= keys.len(),
            kv == keys_of(keys@),
            forall|k: int|
                0 <= k < order.len() ==> (#[trigger] order[k]) < i && keys@[order[k] as int]
                    is Some,
            forall|j: int| 0 <= j < i && (#[trigger] kv[j]) is Some ==> lists(order@, j),
            forall|a: int, b: int|
                0 <= a < b < order.len() ==> listed_before::<T>(
                    kv,
                    order[a] as int,
                    order[b] as int,
                ),
        decreases keys.len() - i,
    {
        if keys[i].is_some() {
            let new = key_at(keys, i);
            let mut at: usize = order.len();
            while at > 0 && new.is_above(key_at(keys, order[at - 1]))
                invariant
                    at <= order.len(),
                    i < keys.len(),
                    kv == keys_of(keys@),
                    keys@[i as int] == Some(*new),
                    forall|k: int|
                        0 <= k < order.len() ==> (#[trigger] order[k]) < i && keys@[order[k] as int]
                            is Some,
                    forall|k: int|
                        at <= k < order.len() ==> T::outranks(
                            new.key(),
                            kv[(#[trigger] order[k]) as int]->0,
                        ),
                decreases at,
            {
                at -= 1;
            }
            let ghost before = order@;
            order.insert(at, i);
            proof {
                assert(kv[i as int] == Some(new.key()));
                assert forall|j: int| 0 <= j < i + 1 && (#[trigger] kv[j]) is Some implies lists(
                    order@,
                    j,
                ) by {
                    if j == i {
                        assert(order@[at as int] == i);
                    } else {
                        assert(lists(before, j));
                        let k = choose|k: int| 0 <= k < before.len() && before[k] == j;
                        if k < at {
                            assert(order@[k] == j);
                        } else {
                            assert(order@[k + 1] == j);
                        }
                    }
                }
                assert forall|a: int, b: int| 0 <= a < b < order.len() implies listed_before::<T>(
                    kv,
                    order[a] as int,
                    order[b] as int,
                ) by {
                    let oa = if a < at {
                        a
                    } else {
                        a - 1
                    };
                    let ob = if b < at {
                        b
                    } else {
                        b - 1
                    };
                    if a != at && b != at {
                        assert(listed_before::<T>(kv, before[oa] as int, before[ob] as int));
                    } else if b == at {
                        let last = kv[before[at - 1] as int]->0;
                        let ka = kv[before[a] as int]->0;
                        assert(!T::outranks(new.key(), last));
                        if a < at - 1 {
                            assert(listed_before::<T>(
                                kv,
                                before[a] as int,
                                before[at - 1] as int,
                            ));
                            T::lemma_order(new.key(), last, ka);
                            T::lemma_order(ka, last, ka);
                        }
                    } else {
                        assert(T::outranks(new.key(), kv[before[ob] as int]->0));
                    }
                }
            }
        }
        i += 1;
    }
    proof {
        lemma_ranking_is::<T>(order@, kv);
    }
    order
}

/// There is one ranking: two lists that both rank the same candidates are
/// the same list.
pub proof fn lemma_ranking_unique<T: Ranked>(
    x: Seq<usize>,
    y: Seq<usize>,
    keys: Seq<Option<T::Key>>,
)
    requires
        is_ranking::<T>(x, keys),
        is_ranking::<T>(y, keys),
    ensures
        x == y,
    decreases x.len(),
{
    lemma_ranking_distinct::<T>(x, keys);
    lemma_ranking_distinct::<T>(y, keys);
    if x.len() == 0 {
        if y.len() > 0 {
            assert(keys[y[0] as int] is Some);
            assert(lists(x, y[0] as int));
        }
        assert(x =~= y);
    } else {
        // the candidate that `x` lists last is the one that `y` lists last
        let n = x.len() - 1;
        let m = x[n];
        assert(keys[m as int] is Some);
        assert(lists(y, m as int));
        let j = choose|j: int| 0 <= j < y.len() && y[j] == m as int;
        if j < y.len() - 1 {
            let other = y[j + 1];
            assert(listed_before::<T>(keys, m as int, other as int));
            assert(keys[other as int] is Some);
            assert(lists(x, other as int));
            let k = choose|k: int| 0 <= k < x.len() && x[k] == other as int;
            if k < n {
                assert(listed_before::<T>(keys, other as int, m as int));
                T::lemma_order(keys[m as int]->0, keys[other as int]->0, keys[m as int]->0);
            }
            assert(false);
        }
        lemma_ranking_prefix::<T>(x, keys);
        lemma_ranking_prefix::<T>(y, keys);
        let xs = x.drop_last();
        let ys = y.drop_last();
        let rest = keys.update(m as int, None);
        lemma_ranking_unique::<T>(xs, ys, rest);
        assert(x =~= xs.push(m));
        assert(y =~= ys.push(m));
    }
}

/// The ranking of the candidates with the given values.
pub open spec fn ranking<T: Ranked>(keys: Seq<Option<T::Key>>) -> Seq<usize> {
    choose|order: Seq<usize>| is_ranking::<T>(order, keys)
}

/// The ranking of the first `n` candidates, built by putting each candidate
/// in its place among those before it.
pub proof fn lemma_ranking_exists<T: Ranked>(keys: Seq<Option<T::Key>>)
    requires
        keys.len() <= usize::MAX,
    ensures
        is_ranking::<T>(ranking::<T>(keys), keys),
{
    let order = lemma_ranking_of_prefix::<T>(keys, keys.len());
    assert(keys.take(keys.len() as int) =~= keys);
}

/// Some list ranks the first `n` candidates.
pub proof fn lemma_ranking_of_prefix<T: Ranked>(keys: Seq<Option<T::Key>>, n: nat) -> (order: Seq<
    usize,
>)
    requires
        n <= keys.len() <= usize::MAX,
    ensures
        is_ranking::<T>(order, keys.take(n as int)),
    decreases n,
{
    if n == 0 {
        Seq::empty()
    } else {
        let before = lemma_ranking_of_prefix::<T>(keys, (n - 1) as nat);
        let pre = keys.take(n as int);
        let i = (n - 1) as int;
        assert(keys.take(i) =~= pre.take(i));
        if keys[i] is None {
            assert forall|j: int| 0 <= j < pre.len() && (#[trigger] pre[j]) is Some implies lists(
                before,
                j,
            ) by {
                assert(keys.take(i)[j] is Some);
            }
            assert forall|k: int| 0 <= k < before.len() implies before[k] < pre.len() && (
            #[trigger] pre[before[k] as int]) is Some by {
                assert(keys.take(i)[before[k] as int] is Some);
            }
            assert forall|a: int, b: int| 0 <= a < b < before.len() implies listed_before::<T>(
                pre,
                before[a] as int,
                before[b] as int,
            ) by {
                assert(listed_before::<T>(keys.take(i), before[a] as int, before[b] as int));
                assert(keys.take(i)[before[a] as int] is Some);
                assert(keys.take(i)[before[b] as int] is Some);
            }
            before
        } else {
            let new = keys[i]->0;
            let at = lemma_place::<T>(keys.take(i), before, new, before.len());
            let order = before.insert(at, i as usize);
            assert forall|j: int| 0 <= j < pre.len() && (#[trigger] pre[j]) is Some implies lists(
                order,
                j,
            ) by {
                if j == i {
                    assert(order[at] == i);
                } else {
                    assert(keys.take(i)[j] is Some);
                    assert(lists(before, j));
                    let k = choose|k: int| 0 <= k < before.len() && before[k] == j;
                    if k < at {
                        assert(order[k] == j);
                    } else {
                        assert(order[k + 1] == j);
                    }
                }
            }
            assert forall|k: int| 0 <= k < order.len() implies order[k] < pre.len() && (
            #[trigger] pre[order[k] as int]) is Some by {
                if k != at {
                    let ok = if k < at {
                        k
                    } else {
                        k - 1
                    };
                    assert(keys.take(i)[before[ok] as int] is Some);
                }
            }
            assert forall|a: int, b: int| 0 <= a < b < order.len() implies listed_before::<T>(
                pre,
                order[a] as int,
                order[b] as int,
            ) by {
                let oa = if a < at {
                    a
                } else {
                    a - 1
                };
                let ob = if b < at {
                    b
                } else {
                    b - 1
                };
                if a != at {
                    assert(keys.take(i)[before[oa] as int] is Some);
                }
                if b != at {
                    assert(keys.take(i)[before[ob] as int] is Some);
                }
                if a != at && b != at {
                    assert(listed_before::<T>(keys.take(i), before[oa] as int, before[ob] as int));
                } else if b == at {
                    let last = keys.take(i)[before[at - 1] as int]->0;
                    let ka = keys.take(i)[before[a] as int]->0;
                    assert(keys.take(i)[before[at - 1] as int] is Some);
                    if a < at - 1 {
                        assert(listed_before::<T>(
                            keys.take(i),
                            before[a] as int,
                            before[at - 1] as int,
                        ));
                        T::lemma_order(new, last, ka);
                        T::lemma_order(ka, last, ka);
                    }
                }
            }
            order
        }
    }
}

/// The place of a new candidate in a ranking of those before it: behind the
/// last candidate that it is not better than.
proof fn lemma_place<T: Ranked>(
    keys: Seq<Option<T::Key>>,
    before: Seq<usize>,
    new: T::Key,
    from: nat,
) -> (at: int)
    requires
        is_ranking::<T>(before, keys),
        from <= before.len(),
        forall|k: int|
            from <= k < before.len() ==> T::outranks(new, keys[(#[trigger] before[k]) as int]->0),
    ensures
        0 <= at <= before.len(),
        at > 0 ==> !T::outranks(new, keys[before[at - 1] as int]->0),
        forall|k: int|
            at <= k < before.len() ==> T::outranks(new, keys[(#[trigger] before[k]) as int]->0),
    decreases from,
{
    if from == 0 {
        0
    } else if T::outranks(new, keys[before[from - 1] as int]->0) {
        lemma_place::<T>(keys, before, new, (from - 1) as nat)
    } else {
        from as int
    }
}

/// A list that ranks the candidates is their ranking.
pub proof fn lemma_ranking_is<T: Ranked>(order: Seq<usize>, keys: Seq<Option<T::Key>>)
    requires
        is_ranking::<T>(order, keys),
    ensures
        order == ranking::<T>(keys),
{
    lemma_ranking_unique::<T>(order, ranking::<T>(keys), keys);
}

/// A ranking lists no candidate twice.
pub proof fn lemma_ranking_distinct<T: Ranked>(x: Seq<usize>, keys: Seq<Option<T::Key>>)
    requires
        is_ranking::<T>(x, keys),
    ensures
        forall|a: int, b: int| 0 <= a < b < x.len() ==> x[a] != x[b],
{
    assert forall|a: int, b: int| 0 <= a < b < x.len() implies x[a] != x[b] by {
        assert(listed_before::<T>(keys, x[a] as int, x[b] as int));
        if x[a] == x[b] {
            let k = keys[x[a] as int]->0;
            T::lemma_order(k, k, k);
        }
    }
}

/// A ranking without its last candidate ranks the candidates without that
/// one.
pub proof fn lemma_ranking_prefix<T: Ranked>(x: Seq<usize>, keys: Seq<Option<T::Key>>)
    requires
        is_ranking::<T>(x, keys),
        x.len() > 0,
    ensures
        is_ranking::<T>(x.drop_last(), keys.update(x.last() as int, None)),
{
    lemma_ranking_distinct::<T>(x, keys);
    let xs = x.drop_last();
    let m = x.last();
    let rest = keys.update(m as int, None);
    assert(keys[x[x.len() - 1] as int] is Some);
    assert forall|i: int| 0 <= i < rest.len() && (#[trigger] rest[i]) is Some implies lists(
        xs,
        i,
    ) by {
        assert(keys[i] is Some);
        assert(lists(x, i));
        let k = choose|k: int| 0 <= k < x.len() && x[k] == i;
        assert(xs[k] == i);
    }
    assert forall|k: int| 0 <= k < xs.len() implies xs[k] < rest.len() && (
    #[trigger] rest[xs[k] as int]) is Some by {
        assert(keys[x[k] as int] is Some);
        assert(x[k] != x[x.len() - 1]);
    }
    assert forall|a: int, b: int| 0 <= a < b < xs.len() implies listed_before::<T>(
        rest,
        xs[a] as int,
        xs[b] as int,
    ) by {
        assert(listed_before::<T>(keys, x[a] as int, x[b] as int));
        assert(x[a] != x[x.len() - 1]);
        assert(x[b] != x[x.len() - 1]);
    }
}

/// A score: the higher one is the better one.
#[derive(Debug, Clone, Copy, PartialEq, Eq)]
pub struct Score {
    pub value: i64,
}

impl Ranked for Score {
    type Key = i64;

    open spec fn key(&self) -> i64 {
        self.value
    }

    open spec fn outranks(a: i64, b: i64) -> bool {
        a > b
    }

    fn is_above(&self, other: &Self) -> (r: bool) {
        self.value > other.value
    }

    proof fn lemma_order(a: i64, b: i64, c: i64) {
    }
}

/// A name: the later one in the order of strings is the better one.
#[derive(Debug, Clone, PartialEq, Eq)]
pub struct LaterName {
    pub chars: Vec<char>,
}

impl Ranked for LaterName {
    type Key = Seq<char>;

    open spec fn key(&self) -> Seq<char> {
        self.chars@
    }

    open spec fn outranks(a: Seq<char>, b: Seq<char>) -> bool {
        crate::text::text_before(b, a)
    }

    fn is_above(&self, other: &Self) -> (r: bool) {
        crate::text::is_text_before(&other.chars, &self.chars)
    }

    proof fn lemma_order(a: Seq<char>, b: Seq<char>, c: Seq<char>) {
        crate::text::lemma_text_before_total(a, b);
        crate::text::lemma_text_before_total(b, c);
        crate::text::lemma_text_before_total(a, c);
        if crate::text::text_before(c, b) && crate::text::text_before(b, a) {
            crate::text::lemma_text_before_transitive(c, b, a);
        }
        if crate::text::text_before(a, b) && crate::text::text_before(b, c) {
            crate::text::lemma_text_before_transitive(a, b, c);
        }
    }
}

} // verus!
