use crate::models::common::EstacaoInfo;
use vstd::prelude::*;

verus! {

/// The stations of `stations` that `key` puts under `k`, in order.
pub open spec fn members<K>(
    stations: Seq<EstacaoInfo>,
    key: spec_fn(EstacaoInfo) -> Option<K>,
    k: K,
) -> Seq<EstacaoInfo> {
    stations.filter(|e: EstacaoInfo| key(e) == Some(k))
}

/// `counts` counts `stations` by `key`: it holds each key under which a
/// station stands once, with the number of the stations under it, and no
/// other key.
pub open spec fn is_counting<K>(
    counts: Seq<(K, int)>,
    stations: Seq<EstacaoInfo>,
    key: spec_fn(EstacaoInfo) -> Option<K>,
) -> bool {
    &&& forall|i: int, j: int|
        0 <= i < j < counts.len() ==> (#[trigger] counts[i]).0 != (#[trigger] counts[j]).0
    &&& forall|i: int|
        0 <= i < counts.len() ==> (#[trigger] counts[i]).1 == members(
            stations,
            key,
            counts[i].0,
        ).len() && counts[i].1 > 0
    &&& forall|n: int|
        0 <= n < stations.len() && key(#[trigger] stations[n]) is Some ==> has_key(
            counts,
            key(stations[n])->0,
        )
}

/// `counts` holds the key `k`.
pub open spec fn has_key<K, V>(entries: Seq<(K, V)>, k: K) -> bool {
    exists|i: int| 0 <= i < entries.len() && (#[trigger] entries[i]).0 == k
}

/// The sizes of the groups of a grouping, under their keys.
pub open spec fn group_sizes<K>(groups: Seq<(K, Seq<EstacaoInfo>)>) -> Seq<(K, int)> {
    groups.map_values(|g: (K, Seq<EstacaoInfo>)| (g.0, g.1.len() as int))
}

/// `groups` parts `stations` by `key`: it holds each key under which a
/// station stands once, with the stations under it in their order, and no
/// other key.
pub open spec fn is_grouping<K>(
    groups: Seq<(K, Seq<EstacaoInfo>)>,
    stations: Seq<EstacaoInfo>,
    key: spec_fn(EstacaoInfo) -> Option<K>,
) -> bool {
    &&& is_counting(group_sizes(groups), stations, key)
    &&& forall|i: int|
        0 <= i < groups.len() ==> (#[trigger] groups[i]).1 == members(stations, key, groups[i].0)
}

/// The sum of the counts.
pub open spec fn total_count<K>(counts: Seq<(K, int)>) -> int
    decreases counts.len(),
{
    if counts.len() == 0 {
        0
    } else {
        total_count(counts.drop_last()) + counts.last().1
    }
}

/// One more station under `k` is one more member of `k` and of no other key.
pub proof fn lemma_members_push<K>(
    stations: Seq<EstacaoInfo>,
    key: spec_fn(EstacaoInfo) -> Option<K>,
    e: EstacaoInfo,
    k: K,
)
    ensures
        members(stations.push(e), key, k) == if key(e) == Some(k) {
            members(stations, key, k).push(e)
        } else {
            members(stations, key, k)
        },
{
    reveal(Seq::filter);
    assert(stations.push(e).drop_last() == stations);
}

/// A key with a member is one under which a station stands.
pub proof fn lemma_present_of_members<K>(
    stations: Seq<EstacaoInfo>,
    key: spec_fn(EstacaoInfo) -> Option<K>,
    k: K,
) -> (n: int)
    requires
        members(stations, key, k).len() > 0,
    ensures
        0 <= n < stations.len(),
        key(stations[n]) == Some(k),
    decreases stations.len(),
{
    reveal(Seq::filter);
    if stations.len() == 0 {
        0
    } else if key(stations.last()) == Some(k) {
        stations.len() - 1
    } else {
        lemma_present_of_members(stations.drop_last(), key, k)
    }
}

/// Counting one more station whose key was not counted yet.
pub proof fn lemma_counting_new<K>(
    counts: Seq<(K, int)>,
    stations: Seq<EstacaoInfo>,
    key: spec_fn(EstacaoInfo) -> Option<K>,
    e: EstacaoInfo,
    k: K,
)
    requires
        is_counting(counts, stations, key),
        key(e) == Some(k),
        !has_key(counts, k),
    ensures
        is_counting(counts.push((k, 1)), stations.push(e), key),
        members(stations, key, k).len() == 0,
{
    let grown = counts.push((k, 1));
    let more = stations.push(e);
    if members(stations, key, k).len() > 0 {
        let n = lemma_present_of_members(stations, key, k);
        assert(has_key(counts, key(stations[n])->0));
    }
    lemma_members_push(stations, key, e, k);
    assert forall|i: int, j: int| 0 <= i < j < grown.len() implies (#[trigger] grown[i]).0 != (
    #[trigger] grown[j]).0 by {
        if j == counts.len() {
            assert(counts[i].0 != k);
        } else {
            assert(counts[i].0 != counts[j].0);
        }
    }
    assert forall|i: int| 0 <= i < grown.len() implies (#[trigger] grown[i]).1 == members(
        more,
        key,
        grown[i].0,
    ).len() && grown[i].1 > 0 by {
        if i < counts.len() {
            assert(counts[i].0 != k);
            lemma_members_push(stations, key, e, counts[i].0);
        }
    }
    assert forall|n: int|
        0 <= n < more.len() && key(#[trigger] more[n]) is Some implies has_key(
        grown,
        key(more[n])->0,
    ) by {
        if n < stations.len() {
            assert(has_key(counts, key(stations[n])->0));
            let i = choose|i: int|
                0 <= i < counts.len() && (#[trigger] counts[i]).0 == key(stations[n])->0;
            assert(grown[i].0 == key(more[n])->0);
        } else {
            assert(grown[counts.len() as int].0 == k);
        }
    }
}

/// Counting one more station under the key at `at`.
pub proof fn lemma_counting_add<K>(
    counts: Seq<(K, int)>,
    stations: Seq<EstacaoInfo>,
    key: spec_fn(EstacaoInfo) -> Option<K>,
    e: EstacaoInfo,
    at: int,
)
    requires
        is_counting(counts, stations, key),
        0 <= at < counts.len(),
        key(e) == Some(counts[at].0),
    ensures
        is_counting(
            counts.update(at, (counts[at].0, counts[at].1 + 1)),
            stations.push(e),
            key,
        ),
{
    let k = counts[at].0;
    let grown = counts.update(at, (k, counts[at].1 + 1));
    let more = stations.push(e);
    assert forall|i: int, j: int| 0 <= i < j < grown.len() implies (#[trigger] grown[i]).0 != (
    #[trigger] grown[j]).0 by {
        assert(counts[i].0 != counts[j].0);
    }
    assert forall|i: int| 0 <= i < grown.len() implies (#[trigger] grown[i]).1 == members(
        more,
        key,
        grown[i].0,
    ).len() && grown[i].1 > 0 by {
        lemma_members_push(stations, key, e, counts[i].0);
        if i < at {
            assert(counts[i].0 != counts[at].0);
        } else if i > at {
            assert(counts[at].0 != counts[i].0);
        }
    }
    assert forall|n: int|
        0 <= n < more.len() && key(#[trigger] more[n]) is Some implies has_key(
        grown,
        key(more[n])->0,
    ) by {
        if n < stations.len() {
            assert(has_key(counts, key(stations[n])->0));
            let i = choose|i: int|
                0 <= i < counts.len() && (#[trigger] counts[i]).0 == key(stations[n])->0;
            assert(grown[i].0 == key(more[n])->0);
        } else {
            assert(grown[at].0 == k);
        }
    }
}

/// Passing by a station that stands under no key.
pub proof fn lemma_counting_skip<K>(
    counts: Seq<(K, int)>,
    stations: Seq<EstacaoInfo>,
    key: spec_fn(EstacaoInfo) -> Option<K>,
    e: EstacaoInfo,
)
    requires
        is_counting(counts, stations, key),
        key(e) is None,
    ensures
        is_counting(counts, stations.push(e), key),
{
    let more = stations.push(e);
    assert forall|i: int| 0 <= i < counts.len() implies (#[trigger] counts[i]).1 == members(
        more,
        key,
        counts[i].0,
    ).len() && counts[i].1 > 0 by {
        lemma_members_push(stations, key, e, counts[i].0);
    }
    assert forall|n: int|
        0 <= n < more.len() && key(#[trigger] more[n]) is Some implies has_key(
        counts,
        key(more[n])->0,
    ) by {
        assert(more[n] == stations[n]);
    }
}

/// Changing one count changes the sum by as much.
pub proof fn lemma_total_count_update<K>(counts: Seq<(K, int)>, at: int, count: int)
    requires
        0 <= at < counts.len(),
    ensures
        total_count(counts.update(at, (counts[at].0, count))) == total_count(counts) + count
            - counts[at].1,
    decreases counts.len(),
{
    let changed = counts.update(at, (counts[at].0, count));
    if at == counts.len() - 1 {
        assert(changed.drop_last() == counts.drop_last());
    } else {
        lemma_total_count_update(counts.drop_last(), at, count);
        assert(changed.drop_last() == counts.drop_last().update(
            at,
            (counts[at].0, count),
        ));
    }
}

/// Putting one more station, whose key has no group yet, in a group of its
/// own.
pub proof fn lemma_grouping_new<K>(
    groups: Seq<(K, Seq<EstacaoInfo>)>,
    stations: Seq<EstacaoInfo>,
    key: spec_fn(EstacaoInfo) -> Option<K>,
    e: EstacaoInfo,
    k: K,
)
    requires
        is_grouping(groups, stations, key),
        key(e) == Some(k),
        !has_key(groups, k),
    ensures
        is_grouping(groups.push((k, seq![e])), stations.push(e), key),
{
    let sizes = group_sizes(groups);
    if has_key(sizes, k) {
        let i = choose|i: int| 0 <= i < sizes.len() && (#[trigger] sizes[i]).0 == k;
        assert(groups[i].0 == k);
    }
    lemma_counting_new(sizes, stations, key, e, k);
    let grown = groups.push((k, seq![e]));
    assert(group_sizes(grown) == sizes.push((k, 1)));
    assert forall|i: int| 0 <= i < grown.len() implies (#[trigger] grown[i]).1 == members(
        stations.push(e),
        key,
        grown[i].0,
    ) by {
        lemma_members_push(stations, key, e, grown[i].0);
        if i < groups.len() {
            assert(groups[i].0 != k);
        } else {
            assert(members(stations, key, k) == Seq::<EstacaoInfo>::empty());
        }
    }
}

/// Putting one more station in the group at `at`, which is that of its key.
pub proof fn lemma_grouping_add<K>(
    groups: Seq<(K, Seq<EstacaoInfo>)>,
    stations: Seq<EstacaoInfo>,
    key: spec_fn(EstacaoInfo) -> Option<K>,
    e: EstacaoInfo,
    at: int,
)
    requires
        is_grouping(groups, stations, key),
        0 <= at < groups.len(),
        key(e) == Some(groups[at].0),
    ensures
        is_grouping(
            groups.update(at, (groups[at].0, groups[at].1.push(e))),
            stations.push(e),
            key,
        ),
{
    let sizes = group_sizes(groups);
    let k = groups[at].0;
    lemma_counting_add(sizes, stations, key, e, at);
    let grown = groups.update(at, (k, groups[at].1.push(e)));
    assert(group_sizes(grown) == sizes.update(at, (sizes[at].0, sizes[at].1 + 1)));
    assert forall|i: int| 0 <= i < grown.len() implies (#[trigger] grown[i]).1 == members(
        stations.push(e),
        key,
        grown[i].0,
    ) by {
        lemma_members_push(stations, key, e, grown[i].0);
        if i < at {
            assert(sizes[i].0 != sizes[at].0);
        } else if i > at {
            assert(sizes[at].0 != sizes[i].0);
        }
    }
}

/// The keys of a grouping differ from one another.
pub proof fn lemma_grouping_keys_differ<K>(
    groups: Seq<(K, Seq<EstacaoInfo>)>,
    stations: Seq<EstacaoInfo>,
    key: spec_fn(EstacaoInfo) -> Option<K>,
)
    requires
        is_grouping(groups, stations, key),
    ensures
        forall|i: int, j: int|
            0 <= i < groups.len() && 0 <= j < groups.len() && i != j ==> (#[trigger] groups[i]).0
                != (#[trigger] groups[j]).0,
{
    let sizes = group_sizes(groups);
    assert forall|i: int, j: int|
        0 <= i < groups.len() && 0 <= j < groups.len() && i != j implies (#[trigger] groups[i]).0
        != (#[trigger] groups[j]).0 by {
        if i < j {
            assert(sizes[i].0 != sizes[j].0);
        } else {
            assert(sizes[j].0 != sizes[i].0);
        }
    }
}

/// A key under which a station stands has a member.
pub proof fn lemma_members_of_present<K>(
    stations: Seq<EstacaoInfo>,
    key: spec_fn(EstacaoInfo) -> Option<K>,
    n: int,
)
    requires
        0 <= n < stations.len(),
        key(stations[n]) is Some,
    ensures
        members(stations, key, key(stations[n])->0).len() > 0,
{
    let k = key(stations[n])->0;
    let pred = |e: EstacaoInfo| key(e) == Some(k);
    stations.lemma_filter_contains(pred, n);
}

/// Taking one count away takes as much from the sum.
pub proof fn lemma_total_count_remove<K>(counts: Seq<(K, int)>, at: int)
    requires
        0 <= at < counts.len(),
    ensures
        total_count(counts.remove(at)) == total_count(counts) - counts[at].1,
    decreases counts.len(),
{
    if at == counts.len() - 1 {
        assert(counts.remove(at) == counts.drop_last());
    } else {
        lemma_total_count_remove(counts.drop_last(), at);
        assert(counts.remove(at).drop_last() == counts.drop_last().remove(at));
        assert(counts.remove(at).last() == counts.last());
    }
}

/// The stations that stand under some key.
pub open spec fn keyed<K>(
    stations: Seq<EstacaoInfo>,
    key: spec_fn(EstacaoInfo) -> Option<K>,
) -> Seq<EstacaoInfo> {
    stations.filter(|e: EstacaoInfo| key(e) is Some)
}

/// The counts of a counting add up to the number of the stations that
/// stand under some key.
pub proof fn lemma_counts_add_up<K>(
    counts: Seq<(K, int)>,
    stations: Seq<EstacaoInfo>,
    key: spec_fn(EstacaoInfo) -> Option<K>,
)
    requires
        is_counting(counts, stations, key),
    ensures
        total_count(counts) == keyed(stations, key).len(),
    decreases stations.len(),
{
    reveal(Seq::filter);
    if stations.len() == 0 {
        if counts.len() > 0 {
            assert(counts[0].1 == members(stations, key, counts[0].0).len());
        }
    } else {
        let e = stations.last();
        let fewer = stations.drop_last();
        assert(stations == fewer.push(e));
        if key(e) is None {
            assert forall|i: int| 0 <= i < counts.len() implies (#[trigger] counts[i]).1
                == members(fewer, key, counts[i].0).len() && counts[i].1 > 0 by {
                lemma_members_push(fewer, key, e, counts[i].0);
            }
            assert forall|n: int|
                0 <= n < fewer.len() && key(#[trigger] fewer[n]) is Some implies has_key(
                counts,
                key(fewer[n])->0,
            ) by {
                assert(stations[n] == fewer[n]);
            }
            lemma_counts_add_up(counts, fewer, key);
        } else {
            let k = key(e)->0;
            assert(stations[stations.len() - 1] == e);
            assert(has_key(counts, k));
            let at = choose|at: int| 0 <= at < counts.len() && (#[trigger] counts[at]).0 == k;
            lemma_members_push(fewer, key, e, k);
            let left = members(fewer, key, k).len() as int;
            assert(counts[at].1 == left + 1);
            let rest = if left == 0 {
                counts.remove(at)
            } else {
                counts.update(at, (k, left))
            };
            assert forall|i: int, j: int| 0 <= i < j < rest.len() implies (#[trigger] rest[i]).0
                != (#[trigger] rest[j]).0 by {
                if left == 0 {
                    let oi = if i < at {
                        i
                    } else {
                        i + 1
                    };
                    let oj = if j < at {
                        j
                    } else {
                        j + 1
                    };
                    assert(counts[oi].0 != counts[oj].0);
                } else {
                    assert(counts[i].0 != counts[j].0);
                }
            }
            assert forall|i: int| 0 <= i < rest.len() implies (#[trigger] rest[i]).1 == members(
                fewer,
                key,
                rest[i].0,
            ).len() && rest[i].1 > 0 by {
                let oi = if left == 0 && i >= at {
                    i + 1
                } else {
                    i
                };
                assert(rest[i].0 == counts[oi].0);
                lemma_members_push(fewer, key, e, counts[oi].0);
                if oi < at {
                    assert(counts[oi].0 != counts[at].0);
                } else if oi > at {
                    assert(counts[at].0 != counts[oi].0);
                }
            }
            assert forall|n: int|
                0 <= n < fewer.len() && key(#[trigger] fewer[n]) is Some implies has_key(
                rest,
                key(fewer[n])->0,
            ) by {
                let kn = key(fewer[n])->0;
                assert(stations[n] == fewer[n]);
                assert(has_key(counts, kn));
                let i = choose|i: int| 0 <= i < counts.len() && (#[trigger] counts[i]).0 == kn;
                if left == 0 {
                    lemma_members_of_present(fewer, key, n);
                    assert(kn != k);
                    if i < at {
                        assert(rest[i].0 == kn);
                    } else {
                        assert(rest[i - 1].0 == kn);
                    }
                } else {
                    assert(rest[i].0 == kn);
                }
            }
            lemma_counts_add_up(rest, fewer, key);
            if left == 0 {
                lemma_total_count_remove(counts, at);
            } else {
                lemma_total_count_update(counts, at, left);
                assert(counts.update(at, (counts[at].0, left)) == rest);
            }
        }
    }
}

/// The keys of a list of entries, in order.
pub open spec fn keys_of<K, V>(entries: Seq<(K, V)>) -> Seq<K> {
    entries.map_values(|e: (K, V)| e.0)
}

/// The place of the first of the stations that stand under `k`.
pub open spec fn first_position<K>(
    stations: Seq<EstacaoInfo>,
    key: spec_fn(EstacaoInfo) -> Option<K>,
    k: K,
) -> int
    decreases stations.len(),
{
    if stations.len() == 0 {
        0
    } else if members(stations.drop_last(), key, k).len() > 0 {
        first_position(stations.drop_last(), key, k)
    } else {
        stations.len() - 1
    }
}

/// The keys stand in the order in which the first station of each stands
/// among the stations: a key whose first station comes earlier comes
/// earlier.
pub open spec fn in_order_of_first<K>(
    keys: Seq<K>,
    stations: Seq<EstacaoInfo>,
    key: spec_fn(EstacaoInfo) -> Option<K>,
) -> bool {
    forall|i: int, j: int|
        0 <= i < j < keys.len() ==> first_position(stations, key, #[trigger] keys[i])
            < first_position(stations, key, #[trigger] keys[j])
}

/// The first station under a key that has members is one of the stations.
pub proof fn lemma_first_position_bound<K>(
    stations: Seq<EstacaoInfo>,
    key: spec_fn(EstacaoInfo) -> Option<K>,
    k: K,
)
    requires
        members(stations, key, k).len() > 0,
    ensures
        0 <= first_position(stations, key, k) < stations.len(),
    decreases stations.len(),
{
    reveal(Seq::filter);
    if stations.len() > 0 && members(stations.drop_last(), key, k).len() > 0 {
        lemma_first_position_bound(stations.drop_last(), key, k);
    }
}

/// One more station does not change the order of the keys counted so far.
pub proof fn lemma_order_kept<K>(
    counts: Seq<(K, int)>,
    stations: Seq<EstacaoInfo>,
    key: spec_fn(EstacaoInfo) -> Option<K>,
    e: EstacaoInfo,
)
    requires
        is_counting(counts, stations, key),
        in_order_of_first(keys_of(counts), stations, key),
    ensures
        in_order_of_first(keys_of(counts), stations.push(e), key),
{
    let keys = keys_of(counts);
    let more = stations.push(e);
    assert(more.drop_last() == stations);
    assert forall|i: int, j: int| 0 <= i < j < keys.len() implies first_position(
        more,
        key,
        #[trigger] keys[i],
    ) < first_position(more, key, #[trigger] keys[j]) by {
        assert(counts[i].1 > 0 && counts[j].1 > 0);
        assert(first_position(stations, key, keys[i]) < first_position(stations, key, keys[j]));
    }
}

/// A key that is counted for the first time comes behind the keys counted
/// so far.
pub proof fn lemma_order_new<K>(
    counts: Seq<(K, int)>,
    stations: Seq<EstacaoInfo>,
    key: spec_fn(EstacaoInfo) -> Option<K>,
    e: EstacaoInfo,
    k: K,
)
    requires
        is_counting(counts, stations, key),
        in_order_of_first(keys_of(counts), stations, key),
        key(e) == Some(k),
        !has_key(counts, k),
    ensures
        in_order_of_first(keys_of(counts).push(k), stations.push(e), key),
{
    let keys = keys_of(counts);
    let grown = keys.push(k);
    let more = stations.push(e);
    assert(more.drop_last() == stations);
    lemma_order_kept(counts, stations, key, e);
    lemma_counting_new(counts, stations, key, e, k);
    assert forall|i: int, j: int| 0 <= i < j < grown.len() implies first_position(
        more,
        key,
        #[trigger] grown[i],
    ) < first_position(more, key, #[trigger] grown[j]) by {
        if j < keys.len() {
            assert(first_position(more, key, keys[i]) < first_position(more, key, keys[j]));
        } else {
            assert(counts[i].1 > 0);
            lemma_first_position_bound(stations, key, keys[i]);
        }
    }
}

/// Two collections of stations agree under `key`: they are as long, and at
/// each place the stations of the two stand under the same key.
pub open spec fn same_keys<K>(
    first: Seq<EstacaoInfo>,
    second: Seq<EstacaoInfo>,
    key: spec_fn(EstacaoInfo) -> Option<K>,
) -> bool {
    &&& first.len() == second.len()
    &&& forall|i: int| 0 <= i < first.len() ==> key(#[trigger] first[i]) == key(second[i])
}

/// In two collections that agree under the key, each key has as many
/// members, and its first member at the same place.
pub proof fn lemma_members_agree<K>(
    first: Seq<EstacaoInfo>,
    second: Seq<EstacaoInfo>,
    key: spec_fn(EstacaoInfo) -> Option<K>,
    k: K,
)
    requires
        same_keys(first, second, key),
    ensures
        members(first, key, k).len() == members(second, key, k).len(),
        first_position(first, key, k) == first_position(second, key, k),
    decreases first.len(),
{
    reveal(Seq::filter);
    if first.len() > 0 {
        let a = first.drop_last();
        let b = second.drop_last();
        assert forall|i: int| 0 <= i < a.len() implies key(#[trigger] a[i]) == key(b[i]) by {
            assert(key(first[i]) == key(second[i]));
        }
        lemma_members_agree(a, b, key, k);
        assert(key(first[first.len() - 1]) == key(second[first.len() - 1]));
    }
}

/// Two lists that hold the same things, each in the rising order of one
/// measure, are one list.
pub proof fn lemma_same_things_same_order<K>(a: Seq<K>, b: Seq<K>, measure: spec_fn(K) -> int)
    requires
        forall|i: int, j: int|
            0 <= i < j < a.len() ==> measure(#[trigger] a[i]) < measure(#[trigger] a[j]),
        forall|i: int, j: int|
            0 <= i < j < b.len() ==> measure(#[trigger] b[i]) < measure(#[trigger] b[j]),
        forall|i: int| 0 <= i < a.len() ==> b.contains(#[trigger] a[i]),
        forall|i: int| 0 <= i < b.len() ==> a.contains(#[trigger] b[i]),
    ensures
        a == b,
    decreases a.len(),
{
    if a.len() == 0 {
        if b.len() > 0 {
            assert(a.contains(b[0]));
        }
        assert(a =~= b);
    } else {
        let la = a[a.len() - 1];
        assert(b.contains(la));
        let lb = b[b.len() - 1];
        assert(a.contains(lb));
        let at_b = choose|i: int| 0 <= i < b.len() && b[i] == la;
        let at_a = choose|i: int| 0 <= i < a.len() && a[i] == lb;
        if at_b < b.len() - 1 {
            assert(measure(b[at_b]) < measure(b[b.len() - 1]));
        }
        if at_a < a.len() - 1 {
            assert(measure(a[at_a]) < measure(a[a.len() - 1]));
        }
        assert(la == lb);
        let fa = a.drop_last();
        let fb = b.drop_last();
        assert forall|i: int| 0 <= i < fa.len() implies fb.contains(#[trigger] fa[i]) by {
            assert(b.contains(a[i]));
            let t = choose|t: int| 0 <= t < b.len() && b[t] == a[i];
            if t == b.len() - 1 {
                assert(measure(a[i]) < measure(a[a.len() - 1]));
            }
            assert(fb[t] == fa[i]);
        }
        assert forall|i: int| 0 <= i < fb.len() implies fa.contains(#[trigger] fb[i]) by {
            assert(a.contains(b[i]));
            let t = choose|t: int| 0 <= t < a.len() && a[t] == b[i];
            if t == a.len() - 1 {
                assert(measure(b[i]) < measure(b[b.len() - 1]));
            }
            assert(fa[t] == fb[i]);
        }
        assert forall|i: int, j: int| 0 <= i < j < fa.len() implies measure(#[trigger] fa[i])
            < measure(#[trigger] fa[j]) by {
            assert(measure(a[i]) < measure(a[j]));
        }
        assert forall|i: int, j: int| 0 <= i < j < fb.len() implies measure(#[trigger] fb[i])
            < measure(#[trigger] fb[j]) by {
            assert(measure(b[i]) < measure(b[j]));
        }
        lemma_same_things_same_order(fa, fb, measure);
        assert(a =~= fa.push(la));
        assert(b =~= fb.push(lb));
    }
}

/// Two collections that agree under the key have the same keys with a
/// count.
pub proof fn lemma_counted_keys_agree<K>(
    counts: Seq<(K, int)>,
    others: Seq<(K, int)>,
    first: Seq<EstacaoInfo>,
    second: Seq<EstacaoInfo>,
    key: spec_fn(EstacaoInfo) -> Option<K>,
)
    requires
        is_counting(counts, first, key),
        is_counting(others, second, key),
        same_keys(first, second, key),
    ensures
        forall|i: int| 0 <= i < counts.len() ==> has_key(others, (#[trigger] counts[i]).0),
        forall|i: int|
            0 <= i < counts.len() ==> members(first, key, (#[trigger] counts[i]).0).len()
                == members(second, key, counts[i].0).len(),
{
    assert forall|i: int| 0 <= i < counts.len() implies has_key(others, (#[trigger] counts[i]).0)
        && members(first, key, counts[i].0).len() == members(second, key, counts[i].0).len() by {
        let k = counts[i].0;
        lemma_members_agree(first, second, key, k);
        let n = lemma_present_of_members(second, key, k);
        assert(has_key(others, key(second[n])->0));
    }
}

/// The counts of two collections that agree under the key, each in the
/// order of the first stations, are the same counts.
pub proof fn lemma_countings_agree<K>(
    counts: Seq<(K, int)>,
    others: Seq<(K, int)>,
    first: Seq<EstacaoInfo>,
    second: Seq<EstacaoInfo>,
    key: spec_fn(EstacaoInfo) -> Option<K>,
)
    requires
        is_counting(counts, first, key),
        is_counting(others, second, key),
        in_order_of_first(keys_of(counts), first, key),
        in_order_of_first(keys_of(others), second, key),
        same_keys(first, second, key),
    ensures
        counts == others,
{
    let a = keys_of(counts);
    let b = keys_of(others);
    let measure = |k: K| first_position(first, key, k);
    lemma_counted_keys_agree(counts, others, first, second, key);
    assert forall|i: int| 0 <= i < first.len() implies key(#[trigger] second[i]) == key(
        first[i],
    ) by {
        assert(key(first[i]) == key(second[i]));
    }
    lemma_counted_keys_agree(others, counts, second, first, key);
    assert forall|i: int| 0 <= i < a.len() implies b.contains(#[trigger] a[i]) by {
        assert(has_key(others, counts[i].0));
        let t = choose|t: int| 0 <= t < others.len() && (#[trigger] others[t]).0 == counts[i].0;
        assert(b[t] == a[i]);
    }
    assert forall|i: int| 0 <= i < b.len() implies a.contains(#[trigger] b[i]) by {
        assert(has_key(counts, others[i].0));
        let t = choose|t: int| 0 <= t < counts.len() && (#[trigger] counts[t]).0 == others[i].0;
        assert(a[t] == b[i]);
    }
    assert forall|i: int, j: int| 0 <= i < j < a.len() implies measure(#[trigger] a[i])
        < measure(#[trigger] a[j]) by {
        assert(first_position(first, key, a[i]) < first_position(first, key, a[j]));
    }
    assert forall|i: int, j: int| 0 <= i < j < b.len() implies measure(#[trigger] b[i])
        < measure(#[trigger] b[j]) by {
        lemma_members_agree(first, second, key, b[i]);
        lemma_members_agree(first, second, key, b[j]);
        assert(first_position(second, key, b[i]) < first_position(second, key, b[j]));
    }
    lemma_same_things_same_order(a, b, measure);
    assert(counts.len() == a.len() && others.len() == b.len());
    assert forall|i: int| 0 <= i < counts.len() implies counts[i] == others[i] by {
        assert(a[i] == b[i]);
        assert(counts[i].0 == others[i].0);
        assert(counts[i].1 == members(first, key, counts[i].0).len());
        assert(others[i].1 == members(second, key, others[i].0).len());
    }
    assert(counts =~= others);
}

} // verus!
