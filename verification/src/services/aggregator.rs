use crate::config::SEM_REGIONAL;
use crate::models::common::{named_regional, regional_token, EstacaoInfo, Regional, Status};
use crate::services::grouping::{
    group_sizes, has_key, in_order_of_first, is_counting, is_grouping, keyed, keys_of,
    lemma_counted_keys_agree, lemma_counting_add, lemma_counting_new, lemma_counting_skip,
    lemma_countings_agree, lemma_counts_add_up, lemma_grouping_add, lemma_grouping_keys_differ,
    lemma_grouping_new, lemma_order_kept, lemma_order_new, lemma_present_of_members, members,
    same_keys, total_count,
};
use crate::utils::text::{lemma_text_le_antisymmetric, text_le};
use indexmap::IndexMap;
use vstd::hash_map::StringHashMap;
use vstd::prelude::*;

verus! {

/// The type `indexmap::IndexMap`: a hash map that keeps its entries in an
/// order of their own. Nothing is known of what is inside a value of it
/// but through the functions below.
#[verifier::external_type_specification]
#[verifier::external_body]
#[verifier::reject_recursive_types(K)]
#[verifier::reject_recursive_types(V)]
#[verifier::reject_recursive_types(S)]
pub struct ExIndexMap<K, V, S>(IndexMap<K, V, S>);

/// `IndexMap::clone`, which makes a map of copies of the keys and values.
/// Nothing is stated of the copy here: what it holds rests on the copies
/// that the keys and values make of themselves.
pub assume_specification<K, V, S>[ <IndexMap<K, V, S> as Clone>::clone ](
    map: &IndexMap<K, V, S>,
) -> IndexMap<K, V, S> where K: Clone, V: Clone, S: Clone
;

/// What a map of groups holds: its entries in their order, each with the
/// rank of a status and the label of a regional unit as its key and the
/// stations of the group as its value.
pub uninterp spec fn index_map_entries(map: IndexMap<(u8, String), Vec<EstacaoInfo>>) -> Seq<
    ((u8, Seq<char>), Seq<EstacaoInfo>),
>;

/// Calls `IndexMap::new`, which makes a map that holds no entry.
#[verifier::external_body]
fn index_map_new() -> (map: IndexMap<(u8, String), Vec<EstacaoInfo>>)
    ensures
        index_map_entries(map) == Seq::<((u8, Seq<char>), Seq<EstacaoInfo>)>::empty(),
{
    IndexMap::new()
}

/// Calls `IndexMap::insert`. Where the map holds the key, the entry keeps
/// its place, its value becomes `value`, and the value that it had is
/// returned. Where it does not, the entry is put last and `None` is returned.
#[verifier::external_body]
fn index_map_insert(
    map: &mut IndexMap<(u8, String), Vec<EstacaoInfo>>,
    key: (u8, String),
    value: Vec<EstacaoInfo>,
) -> (previous: Option<Vec<EstacaoInfo>>)
    ensures
        match previous {
            Some(p) => exists|at: int|
                0 <= at < index_map_entries(*old(map)).len() && (#[trigger] index_map_entries(
                    *old(map),
                )[at]) == ((key.0, key.1@), p@) && index_map_entries(*final(map))
                    == index_map_entries(*old(map)).update(at, ((key.0, key.1@), value@)),
            None => !has_key(index_map_entries(*old(map)), (key.0, key.1@)) && index_map_entries(
                *final(map),
            ) == index_map_entries(*old(map)).push(((key.0, key.1@), value@)),
        },
{
    map.insert(key, value)
}

/// Calls `IndexMap::sort_keys`, which puts the entries in the order of their
/// keys: the map holds the same entries as before, and each key is at most
/// the keys behind it.
#[verifier::external_body]
fn index_map_sort_keys(map: &mut IndexMap<(u8, String), Vec<EstacaoInfo>>)
    ensures
        index_map_entries(*final(map)).to_multiset() == index_map_entries(*old(map)).to_multiset(),
        sorted_by_key(index_map_entries(*final(map))),
{
    map.sort_keys()
}

/// Calls `IndexMap::get`, which returns the value of the entry with the
/// given key, and `None` where the map holds no such entry.
#[verifier::external_body]
fn index_map_get<'a>(
    map: &'a IndexMap<(u8, String), Vec<EstacaoInfo>>,
    key: &(u8, String),
) -> (found: Option<&'a Vec<EstacaoInfo>>)
    ensures
        match found {
            Some(group) => exists|at: int|
                0 <= at < index_map_entries(*map).len() && (#[trigger] index_map_entries(
                    *map,
                )[at]) == ((key.0, key.1@), group@),
            None => !has_key(index_map_entries(*map), (key.0, key.1@)),
        },
{
    map.get(key)
}

/// Calls `IndexMap::keys`, which goes through the keys of the entries in
/// their order, and takes a copy of each key. No two entries of a map have
/// the same key.
#[verifier::external_body]
fn index_map_keys(map: &IndexMap<(u8, String), Vec<EstacaoInfo>>) -> (keys: Vec<(u8, String)>)
    ensures
        key_texts(keys@) == keys_of(index_map_entries(*map)),
        key_texts(keys@).no_duplicates(),
{
    map.keys().cloned().collect()
}

/// The keys of groups, each with its label as a sequence.
pub open spec fn key_texts(keys: Seq<(u8, String)>) -> Seq<(u8, Seq<char>)> {
    keys.map_values(|k: (u8, String)| (k.0, k.1@))
}

/// The order of the keys of the map of groups: by the rank of the status,
/// and for one status by the label of the regional unit.
pub open spec fn key_le(a: (u8, Seq<char>), b: (u8, Seq<char>)) -> bool {
    a.0 < b.0 || (a.0 == b.0 && text_le(a.1, b.1))
}

/// Each key of the entries is at most the keys behind it.
pub open spec fn sorted_by_key(entries: Seq<((u8, Seq<char>), Seq<EstacaoInfo>)>) -> bool {
    forall|i: int, j: int|
        0 <= i < j < entries.len() ==> key_le((#[trigger] entries[i]).0, (#[trigger] entries[j]).0)
}

/// The label under which a station is grouped by regional unit: the token
/// of its unit, and the label of those without one where it has none.
pub open spec fn region_label(regional: Option<Regional>) -> Seq<char> {
    match regional {
        Some(r) => r@,
        None => SEM_REGIONAL@,
    }
}

/// Grouping by status.
pub open spec fn status_key() -> spec_fn(EstacaoInfo) -> Option<Status> {
    |e: EstacaoInfo| Some(e.status)
}

/// Grouping by the label of the regional unit.
pub open spec fn label_key() -> spec_fn(EstacaoInfo) -> Option<Seq<char>> {
    |e: EstacaoInfo| Some(region_label(e.regional))
}

/// Grouping by regional unit, the stations without one standing in no
/// group: those that have no unit, and those whose unit is written as the
/// label of those without one.
pub open spec fn regional_key() -> spec_fn(EstacaoInfo) -> Option<Seq<char>> {
    |e: EstacaoInfo| regional_token(e.regional)
}

/// Grouping by the rank of the status and the label of the regional unit.
pub open spec fn status_label_key() -> spec_fn(EstacaoInfo) -> Option<(u8, Seq<char>)> {
    |e: EstacaoInfo| Some((e.status.spec_rank(), region_label(e.regional)))
}

/// The stations without a regional unit: those whose label is the label of
/// those without one, be it that they have no unit or that their unit is
/// written as that label.
pub open spec fn without_regional(stations: Seq<EstacaoInfo>) -> Seq<EstacaoInfo> {
    stations.filter(|e: EstacaoInfo| region_label(e.regional) == SEM_REGIONAL@)
}

/// The groups by status, each with its stations as a sequence.
pub open spec fn status_groups(groups: Seq<(Status, Vec<EstacaoInfo>)>) -> Seq<
    (Status, Seq<EstacaoInfo>),
> {
    groups.map_values(|g: (Status, Vec<EstacaoInfo>)| (g.0, g.1@))
}

/// The groups by label, each with its label and its stations as sequences.
pub open spec fn label_groups(groups: Seq<(String, Vec<EstacaoInfo>)>) -> Seq<
    (Seq<char>, Seq<EstacaoInfo>),
> {
    groups.map_values(|g: (String, Vec<EstacaoInfo>)| (g.0@, g.1@))
}

/// The counts by status, as integers.
pub open spec fn status_counts(counts: Seq<(Status, usize)>) -> Seq<(Status, int)> {
    counts.map_values(|c: (Status, usize)| (c.0, c.1 as int))
}

/// The counts by regional unit, each with its token as a sequence.
pub open spec fn regional_counts(counts: Seq<(String, usize)>) -> Seq<(Seq<char>, int)> {
    counts.map_values(|c: (String, usize)| (c.0@, c.1 as int))
}

/// The totals of a collection of stations: their number, the count of each
/// status, the count of each regional unit, and the number of the stations
/// without one.
#[derive(Debug, Clone)]
pub struct AggregationTotals {
    pub total: usize,
    pub by_status: Vec<(Status, usize)>,
    pub by_regional: Vec<(String, usize)>,
    pub without_regional: usize,
}

/// A collection of stations grouped by status, by regional unit and by
/// both, with its totals.
#[derive(Debug, Clone)]
pub struct AggregatedData {
    pub by_status: Vec<(Status, Vec<EstacaoInfo>)>,
    pub by_regional: Vec<(String, Vec<EstacaoInfo>)>,
    pub by_status_and_regional: IndexMap<(u8, String), Vec<EstacaoInfo>>,
    pub totals: AggregationTotals,
}

impl AggregationTotals {
    /// These are the totals of `stations`: their number, the count of each
    /// status and of each regional unit that they have, in the order in
    /// which the first station of each stands, and the number of those
    /// without a regional unit.
    pub open spec fn is_totals_of(&self, stations: Seq<EstacaoInfo>) -> bool {
        &&& self.total == stations.len()
        &&& is_counting(status_counts(self.by_status@), stations, status_key())
        &&& is_counting(regional_counts(self.by_regional@), stations, regional_key())
        &&& in_order_of_first(keys_of(status_counts(self.by_status@)), stations, status_key())
        &&& in_order_of_first(
            keys_of(regional_counts(self.by_regional@)),
            stations,
            regional_key(),
        )
        &&& self.without_regional == without_regional(stations).len()
    }
}

impl AggregatedData {
    /// This is the aggregation of `stations`: their groups by status and
    /// by the label of the regional unit, in the order in which the first
    /// station of each stands, their groups by both, in the order of their
    /// keys, and their totals.
    pub open spec fn is_aggregation_of(&self, stations: Seq<EstacaoInfo>) -> bool {
        &&& is_grouping(status_groups(self.by_status@), stations, status_key())
        &&& is_grouping(label_groups(self.by_regional@), stations, label_key())
        &&& in_order_of_first(keys_of(status_groups(self.by_status@)), stations, status_key())
        &&& in_order_of_first(keys_of(label_groups(self.by_regional@)), stations, label_key())
        &&& is_grouping(
            index_map_entries(self.by_status_and_regional),
            stations,
            status_label_key(),
        )
        &&& sorted_by_key(index_map_entries(self.by_status_and_regional))
        &&& self.totals.is_totals_of(stations)
    }
}

/// The entries hold a group under the key `k`, and it has `n` stations.
pub open spec fn holds_group_of_size(
    entries: Seq<((u8, Seq<char>), Seq<EstacaoInfo>)>,
    k: (u8, Seq<char>),
    n: int,
) -> bool {
    exists|at: int|
        0 <= at < entries.len() && (#[trigger] entries[at]).0 == k && entries[at].1.len() == n
}

impl AggregatedData {
    /// The keys of the groups by status and regional unit, in the order of
    /// the groups: no key stands twice among them.
    pub fn group_keys(&self) -> (keys: Vec<(u8, String)>)
        ensures
            key_texts(keys@) == keys_of(index_map_entries(self.by_status_and_regional)),
            key_texts(keys@).no_duplicates(),
    {
        index_map_keys(&self.by_status_and_regional)
    }

    /// The number of the stations in the group of the given status and
    /// label of a regional unit, 0 where there is no such group.
    pub fn stations_in(&self, status: Status, regional: &str) -> (n: usize)
        ensures
            if has_key(
                index_map_entries(self.by_status_and_regional),
                (status.spec_rank(), regional@),
            ) {
                holds_group_of_size(
                    index_map_entries(self.by_status_and_regional),
                    (status.spec_rank(), regional@),
                    n as int,
                )
            } else {
                n == 0
            },
    {
        let key = (status.rank(), regional.to_string());
        match index_map_get(&self.by_status_and_regional, &key) {
            Some(group) => group.len(),
            None => 0,
        }
    }
}

/// The totals of an aggregation add up: the counts by status make the
/// number of the stations, and so do the counts by regional unit together
/// with the number of the stations without one, and the sizes of the groups
/// by label, that of the stations without a regional unit among them.
pub proof fn lemma_totals_add_up(data: AggregatedData, stations: Seq<EstacaoInfo>)
    requires
        data.is_aggregation_of(stations),
    ensures
        total_count(status_counts(data.totals.by_status@)) == stations.len(),
        total_count(regional_counts(data.totals.by_regional@)) + data.totals.without_regional
            == stations.len(),
        total_count(group_sizes(label_groups(data.by_regional@))) == stations.len(),
        data.totals.total == stations.len(),
{
    lemma_counts_add_up(group_sizes(label_groups(data.by_regional@)), stations, label_key());
    lemma_keyed_by_label(stations);
    lemma_counts_add_up(status_counts(data.totals.by_status@), stations, status_key());
    lemma_counts_add_up(regional_counts(data.totals.by_regional@), stations, regional_key());
    lemma_keyed_by_status(stations);
    lemma_keyed_by_regional(stations);
}

/// Every station stands under its status.
proof fn lemma_keyed_by_status(stations: Seq<EstacaoInfo>)
    ensures
        keyed(stations, status_key()).len() == stations.len(),
    decreases stations.len(),
{
    reveal(Seq::filter);
    if stations.len() > 0 {
        lemma_keyed_by_status(stations.drop_last());
    }
}

/// Every station stands under the label of its regional unit.
proof fn lemma_keyed_by_label(stations: Seq<EstacaoInfo>)
    ensures
        keyed(stations, label_key()).len() == stations.len(),
    decreases stations.len(),
{
    reveal(Seq::filter);
    if stations.len() > 0 {
        lemma_keyed_by_label(stations.drop_last());
    }
}

/// A station stands under its regional unit or is one of those without.
proof fn lemma_keyed_by_regional(stations: Seq<EstacaoInfo>)
    ensures
        keyed(stations, regional_key()).len() + without_regional(stations).len()
            == stations.len(),
    decreases stations.len(),
{
    reveal(Seq::filter);
    if stations.len() > 0 {
        lemma_keyed_by_regional(stations.drop_last());
    }
}

/// Two keys of the map of groups that come each before the other, or are
/// it, are one key.
proof fn lemma_key_le_antisymmetric(a: (u8, Seq<char>), b: (u8, Seq<char>))
    requires
        key_le(a, b),
        key_le(b, a),
    ensures
        a == b,
{
    lemma_text_le_antisymmetric(a.1, b.1);
}

/// Two lists of different keys that hold the same keys, each in the order
/// of the keys, are one list.
proof fn lemma_same_keys_same_order(a: Seq<(u8, Seq<char>)>, b: Seq<(u8, Seq<char>)>)
    requires
        forall|i: int, j: int| 0 <= i < j < a.len() ==> key_le(#[trigger] a[i], #[trigger] a[j]),
        forall|i: int, j: int| 0 <= i < j < b.len() ==> key_le(#[trigger] b[i], #[trigger] b[j]),
        a.no_duplicates(),
        b.no_duplicates(),
        forall|i: int| 0 <= i < a.len() ==> b.contains(#[trigger] a[i]),
        forall|i: int| 0 <= i < b.len() ==> a.contains(#[trigger] b[i]),
    ensures
        a == b,
    decreases a.len(),
{
    if a.len() == 0 {
        if b.len() > 0 {
            assert(a.contains(b[0]));
        }
        assert(a =~= b);
    } else {
        let la = a[a.len() - 1];
        assert(b.contains(la));
        let lb = b[b.len() - 1];
        assert(a.contains(lb));
        let at_b = choose|i: int| 0 <= i < b.len() && b[i] == la;
        let at_a = choose|i: int| 0 <= i < a.len() && a[i] == lb;
        if at_b < b.len() - 1 && at_a < a.len() - 1 {
            assert(key_le(b[at_b], b[b.len() - 1]));
            assert(key_le(a[at_a], a[a.len() - 1]));
            lemma_key_le_antisymmetric(la, lb);
        }
        assert(la == lb);
        let fa = a.drop_last();
        let fb = b.drop_last();
        assert forall|i: int| 0 <= i < fa.len() implies fb.contains(#[trigger] fa[i]) by {
            assert(b.contains(a[i]));
            let t = choose|t: int| 0 <= t < b.len() && b[t] == a[i];
            assert(a[i] != a[a.len() - 1]);
            assert(fb[t] == fa[i]);
        }
        assert forall|i: int| 0 <= i < fb.len() implies fa.contains(#[trigger] fb[i]) by {
            assert(a.contains(b[i]));
            let t = choose|t: int| 0 <= t < a.len() && a[t] == b[i];
            assert(b[i] != b[b.len() - 1]);
            assert(fa[t] == fb[i]);
        }
        assert forall|i: int, j: int| 0 <= i < j < fa.len() implies key_le(
            #[trigger] fa[i],
            #[trigger] fa[j],
        ) by {
            assert(key_le(a[i], a[j]));
        }
        assert forall|i: int, j: int| 0 <= i < j < fb.len() implies key_le(
            #[trigger] fb[i],
            #[trigger] fb[j],
        ) by {
            assert(key_le(b[i], b[j]));
        }
        assert(fa.no_duplicates());
        assert(fb.no_duplicates());
        lemma_same_keys_same_order(fa, fb);
        assert(a =~= fa.push(la));
        assert(b =~= fb.push(lb));
    }
}

/// Two collections of stations are alike in status and label: they are as
/// long, and at each place the stations of the two have the same status and
/// the same label of a regional unit. A station without a unit and one whose
/// unit is written as the label of those without one are alike.
pub open spec fn alike_in_status_and_label(
    first: Seq<EstacaoInfo>,
    second: Seq<EstacaoInfo>,
) -> bool {
    &&& first.len() == second.len()
    &&& forall|i: int|
        0 <= i < first.len() ==> (#[trigger] first[i]).status == second[i].status
            && region_label(first[i].regional) == region_label(second[i].regional)
}

/// The aggregations of two collections that are alike in status and label
/// tell the same: the same totals, and groups with the same keys and sizes
/// in the same order. So it is all one whether a missing regional unit is
/// left out or written as the label of those without one.
pub proof fn lemma_alike_aggregate_alike(
    data: AggregatedData,
    other: AggregatedData,
    first: Seq<EstacaoInfo>,
    second: Seq<EstacaoInfo>,
)
    requires
        data.is_aggregation_of(first),
        other.is_aggregation_of(second),
        alike_in_status_and_label(first, second),
    ensures
        data.totals.total == other.totals.total,
        data.totals.without_regional == other.totals.without_regional,
        status_counts(data.totals.by_status@) == status_counts(other.totals.by_status@),
        regional_counts(data.totals.by_regional@) == regional_counts(other.totals.by_regional@),
        group_sizes(status_groups(data.by_status@)) == group_sizes(
            status_groups(other.by_status@),
        ),
        group_sizes(label_groups(data.by_regional@)) == group_sizes(
            label_groups(other.by_regional@),
        ),
        group_sizes(index_map_entries(data.by_status_and_regional)) == group_sizes(
            index_map_entries(other.by_status_and_regional),
        ),
{
    assert(same_keys(first, second, status_key())) by {
        assert forall|i: int| 0 <= i < first.len() implies status_key()(#[trigger] first[i])
            == status_key()(second[i]) by {
            assert(first[i].status == second[i].status);
        }
    }
    assert(same_keys(first, second, label_key())) by {
        assert forall|i: int| 0 <= i < first.len() implies label_key()(#[trigger] first[i])
            == label_key()(second[i]) by {
            assert(first[i].status == second[i].status);
        }
    }
    assert(same_keys(first, second, regional_key())) by {
        assert forall|i: int| 0 <= i < first.len() implies regional_key()(#[trigger] first[i])
            == regional_key()(second[i]) by {
            assert(first[i].status == second[i].status);
        }
    }
    assert(same_keys(first, second, status_label_key())) by {
        assert forall|i: int|
            0 <= i < first.len() implies status_label_key()(#[trigger] first[i])
            == status_label_key()(second[i]) by {
            assert(first[i].status == second[i].status);
        }
    }
    lemma_countings_agree(
        status_counts(data.totals.by_status@),
        status_counts(other.totals.by_status@),
        first,
        second,
        status_key(),
    );
    lemma_countings_agree(
        regional_counts(data.totals.by_regional@),
        regional_counts(other.totals.by_regional@),
        first,
        second,
        regional_key(),
    );
    lemma_totals_add_up(data, first);
    lemma_totals_add_up(other, second);

    let by_status = group_sizes(status_groups(data.by_status@));
    let other_by_status = group_sizes(status_groups(other.by_status@));
    assert(keys_of(by_status) == keys_of(status_groups(data.by_status@)));
    assert(keys_of(other_by_status) == keys_of(status_groups(other.by_status@)));
    lemma_countings_agree(by_status, other_by_status, first, second, status_key());

    let by_label = group_sizes(label_groups(data.by_regional@));
    let other_by_label = group_sizes(label_groups(other.by_regional@));
    assert(keys_of(by_label) == keys_of(label_groups(data.by_regional@)));
    assert(keys_of(other_by_label) == keys_of(label_groups(other.by_regional@)));
    lemma_countings_agree(by_label, other_by_label, first, second, label_key());

    let entries = index_map_entries(data.by_status_and_regional);
    let others = index_map_entries(other.by_status_and_regional);
    let cells = group_sizes(entries);
    let other_cells = group_sizes(others);
    let a = keys_of(cells);
    let b = keys_of(other_cells);
    lemma_counted_keys_agree(cells, other_cells, first, second, status_label_key());
    assert(same_keys(second, first, status_label_key())) by {
        assert forall|i: int|
            0 <= i < second.len() implies status_label_key()(#[trigger] second[i])
            == status_label_key()(first[i]) by {
            assert(first[i].status == second[i].status);
        }
    }
    lemma_counted_keys_agree(other_cells, cells, second, first, status_label_key());
    lemma_grouping_keys_differ(entries, first, status_label_key());
    lemma_grouping_keys_differ(others, second, status_label_key());
    assert forall|i: int| 0 <= i < a.len() implies b.contains(#[trigger] a[i]) by {
        assert(has_key(other_cells, cells[i].0));
        let t = choose|t: int|
            0 <= t < other_cells.len() && (#[trigger] other_cells[t]).0 == cells[i].0;
        assert(b[t] == a[i]);
    }
    assert forall|i: int| 0 <= i < b.len() implies a.contains(#[trigger] b[i]) by {
        assert(has_key(cells, other_cells[i].0));
        let t = choose|t: int| 0 <= t < cells.len() && (#[trigger] cells[t]).0 == other_cells[i].0;
        assert(a[t] == b[i]);
    }
    assert forall|i: int, j: int| 0 <= i < j < a.len() implies key_le(
        #[trigger] a[i],
        #[trigger] a[j],
    ) by {
        assert(key_le(entries[i].0, entries[j].0));
    }
    assert forall|i: int, j: int| 0 <= i < j < b.len() implies key_le(
        #[trigger] b[i],
        #[trigger] b[j],
    ) by {
        assert(key_le(others[i].0, others[j].0));
    }
    assert(a.no_duplicates()) by {
        assert forall|i: int, j: int| 0 <= i < a.len() && 0 <= j < a.len() && i != j implies a[i]
            != a[j] by {
            assert(entries[i].0 != entries[j].0);
        }
    }
    assert(b.no_duplicates()) by {
        assert forall|i: int, j: int| 0 <= i < b.len() && 0 <= j < b.len() && i != j implies b[i]
            != b[j] by {
            assert(others[i].0 != others[j].0);
        }
    }
    lemma_same_keys_same_order(a, b);
    assert forall|i: int| 0 <= i < cells.len() implies cells[i] == other_cells[i] by {
        assert(a[i] == b[i]);
        assert(cells[i].0 == other_cells[i].0);
        assert(cells[i].1 == members(first, status_label_key(), cells[i].0).len());
        assert(other_cells[i].1 == members(
            second,
            status_label_key(),
            other_cells[i].0,
        ).len());
    }
    assert(cells.len() == a.len() && other_cells.len() == b.len());
    assert(cells =~= other_cells);
}

/// In the aggregation of a collection of stations, the group of a status
/// and a label holds the stations with that status and label, and a status
/// and label that no station has have no group.
pub proof fn lemma_group_of_aggregation(
    data: AggregatedData,
    stations: Seq<EstacaoInfo>,
    status: Status,
    label: Seq<char>,
)
    requires
        data.is_aggregation_of(stations),
    ensures
        forall|at: int|
            0 <= at < index_map_entries(data.by_status_and_regional).len()
                && (#[trigger] index_map_entries(data.by_status_and_regional)[at]).0 == (
                status.spec_rank(),
                label,
            ) ==> index_map_entries(data.by_status_and_regional)[at].1 == members(
                stations,
                status_label_key(),
                (status.spec_rank(), label),
            ),
        !has_key(index_map_entries(data.by_status_and_regional), (status.spec_rank(), label))
            ==> members(stations, status_label_key(), (status.spec_rank(), label)).len() == 0,
{
    let entries = index_map_entries(data.by_status_and_regional);
    let k = (status.spec_rank(), label);
    if !has_key(entries, k) && members(stations, status_label_key(), k).len() > 0 {
        let n = lemma_present_of_members(stations, status_label_key(), k);
        assert(has_key(group_sizes(entries), status_label_key()(stations[n])->0));
        let i = choose|i: int|
            0 <= i < group_sizes(entries).len() && (#[trigger] group_sizes(entries)[i]).0 == k;
        assert(entries[i].0 == k);
    }
}

/// `index` tells of each key of `keys`, and of no other text, a place at
/// which it stands.
pub open spec fn finds_keys(index: Map<Seq<char>, usize>, keys: Seq<Seq<char>>) -> bool {
    &&& forall|k: Seq<char>| #[trigger]
        index.dom().contains(k) ==> index[k] < keys.len() && keys[index[k] as int] == k
    &&& forall|j: int| 0 <= j < keys.len() ==> index.dom().contains(#[trigger] keys[j])
}

/// Entries put in another order part the stations as they did before.
proof fn lemma_grouping_permuted<K>(
    before: Seq<(K, Seq<EstacaoInfo>)>,
    after: Seq<(K, Seq<EstacaoInfo>)>,
    stations: Seq<EstacaoInfo>,
    key: spec_fn(EstacaoInfo) -> Option<K>,
)
    requires
        is_grouping(before, stations, key),
        after.to_multiset() == before.to_multiset(),
    ensures
        is_grouping(after, stations, key),
{
    broadcast use vstd::seq_lib::group_to_multiset_ensures;

    lemma_grouping_keys_differ(before, stations, key);
    assert(before.no_duplicates());
    before.lemma_multiset_has_no_duplicates();
    after.lemma_multiset_has_no_duplicates_conv();
    before.to_multiset_ensures();
    after.to_multiset_ensures();
    assert(after.len() == before.len());
    assert forall|i: int| 0 <= i < after.len() implies before.contains(#[trigger] after[i]) by {
        assert(after.contains(after[i]));
        assert(after.to_multiset().count(after[i]) > 0);
    }
    assert forall|i: int| 0 <= i < before.len() implies after.contains(#[trigger] before[i]) by {
        assert(before.contains(before[i]));
        assert(before.to_multiset().count(before[i]) > 0);
    }
    let sizes = group_sizes(after);
    assert forall|i: int, j: int| 0 <= i < j < sizes.len() implies (#[trigger] sizes[i]).0 != (
    #[trigger] sizes[j]).0 by {
        let x = choose|x: int| 0 <= x < before.len() && before[x] == after[i];
        let y = choose|y: int| 0 <= y < before.len() && before[y] == after[j];
        if x != y {
            assert(before[x].0 != before[y].0);
        } else {
            assert(after[i] != after[j]);
        }
    }
    assert forall|i: int| 0 <= i < after.len() implies (#[trigger] after[i]).1 == members(
        stations,
        key,
        after[i].0,
    ) && after[i].1.len() > 0 by {
        let x = choose|x: int| 0 <= x < before.len() && before[x] == after[i];
        assert(group_sizes(before)[x].1 > 0);
    }
    assert forall|i: int| 0 <= i < sizes.len() implies (#[trigger] sizes[i]).1 == members(
        stations,
        key,
        sizes[i].0,
    ).len() && sizes[i].1 > 0 by {
        assert(after[i].1 == members(stations, key, after[i].0));
    }
    assert forall|n: int|
        0 <= n < stations.len() && key(#[trigger] stations[n]) is Some implies has_key(
        sizes,
        key(stations[n])->0,
    ) by {
        let k = key(stations[n])->0;
        assert(has_key(group_sizes(before), k));
        let x = choose|x: int|
            0 <= x < group_sizes(before).len() && (#[trigger] group_sizes(before)[x]).0 == k;
        assert(after.contains(before[x]));
        let i = choose|i: int| 0 <= i < after.len() && after[i] == before[x];
        assert(sizes[i].0 == k);
    }
}

/// The groups of stations and their totals.
pub struct Aggregator;

impl Aggregator {
    /// The label under which a station is grouped by regional unit.
    pub fn region_label(estacao: &EstacaoInfo) -> (label: String)
        ensures
            label@ == region_label(estacao.regional),
    {
        match &estacao.regional {
            Some(r) => r.0.clone(),
            None => SEM_REGIONAL.to_string(),
        }
    }

    /// Puts one more station in its group by status.
    fn add_to_status_groups(
        groups: &mut Vec<(Status, Vec<EstacaoInfo>)>,
        estacao: &EstacaoInfo,
        Ghost(seen): Ghost<Seq<EstacaoInfo>>,
    )
        requires
            is_grouping(status_groups(old(groups)@), seen, status_key()),
            in_order_of_first(keys_of(status_groups(old(groups)@)), seen, status_key()),
        ensures
            is_grouping(status_groups(final(groups)@), seen.push(*estacao), status_key()),
            in_order_of_first(
                keys_of(status_groups(final(groups)@)),
                seen.push(*estacao),
                status_key(),
            ),
    {
        let ghost before = status_groups(groups@);
        let mut j: usize = 0;
        while j < groups.len()
            invariant
                j <= groups.len(),
                groups@ == old(groups)@,
                before == status_groups(groups@),
                is_grouping(before, seen, status_key()),
                in_order_of_first(keys_of(before), seen, status_key()),
                forall|t: int| 0 <= t < j ==> (#[trigger] before[t]).0 != estacao.status,
            decreases groups.len() - j,
        {
            if groups[j].0 == estacao.status {
                groups[j].1.push(estacao.clone());
                proof {
                    lemma_grouping_add(before, seen, status_key(), *estacao, j as int);
                    assert(status_groups(groups@) == before.update(
                        j as int,
                        (before[j as int].0, before[j as int].1.push(*estacao)),
                    ));
                    assert(keys_of(group_sizes(before)) == keys_of(before));
                    assert(keys_of(status_groups(groups@)) == keys_of(before));
                    lemma_order_kept(group_sizes(before), seen, status_key(), *estacao);
                }
                return ;
            }
            j += 1;
        }
        let mut group: Vec<EstacaoInfo> = Vec::new();
        group.push(estacao.clone());
        groups.push((estacao.status, group));
        proof {
            lemma_grouping_new(before, seen, status_key(), *estacao, estacao.status);
            assert(status_groups(groups@) == before.push((estacao.status, seq![*estacao])));
            assert(keys_of(group_sizes(before)) == keys_of(before));
            assert(keys_of(status_groups(groups@)) == keys_of(before).push(estacao.status));
            if has_key(group_sizes(before), estacao.status) {
                let i = choose|i: int|
                    0 <= i < group_sizes(before).len() && (#[trigger] group_sizes(before)[i]).0
                        == estacao.status;
                assert(before[i].0 == estacao.status);
            }
            lemma_order_new(group_sizes(before), seen, status_key(), *estacao, estacao.status);
        }
    }

    /// Puts one more station in its group by the label of the regional
    /// unit; `index` finds the group of a label.
    fn add_to_label_groups(
        groups: &mut Vec<(String, Vec<EstacaoInfo>)>,
        index: &mut StringHashMap<usize>,
        estacao: &EstacaoInfo,
        Ghost(seen): Ghost<Seq<EstacaoInfo>>,
    )
        requires
            is_grouping(label_groups(old(groups)@), seen, label_key()),
            in_order_of_first(keys_of(label_groups(old(groups)@)), seen, label_key()),
            finds_keys(old(index)@, keys_of(label_groups(old(groups)@))),
        ensures
            is_grouping(label_groups(final(groups)@), seen.push(*estacao), label_key()),
            in_order_of_first(
                keys_of(label_groups(final(groups)@)),
                seen.push(*estacao),
                label_key(),
            ),
            finds_keys(final(index)@, keys_of(label_groups(final(groups)@))),
    {
        let ghost before = label_groups(groups@);
        let label = Aggregator::region_label(estacao);
        let found: Option<usize> = match index.get(label.as_str()) {
            Some(at) => Some(*at),
            None => None,
        };
        match found {
            Some(j) => {
                assert(keys_of(before)[j as int] == label@);
                groups[j].1.push(estacao.clone());
                proof {
                    lemma_grouping_add(before, seen, label_key(), *estacao, j as int);
                    assert(label_groups(groups@) == before.update(
                        j as int,
                        (before[j as int].0, before[j as int].1.push(*estacao)),
                    ));
                    assert(keys_of(label_groups(groups@)) == keys_of(before));
                    assert(keys_of(group_sizes(before)) == keys_of(before));
                    lemma_order_kept(group_sizes(before), seen, label_key(), *estacao);
                }
            },
            None => {
                proof {
                    if has_key(before, label@) {
                        let i = choose|i: int|
                            0 <= i < before.len() && (#[trigger] before[i]).0 == label@;
                        assert(keys_of(before)[i] == label@);
                    }
                }
                let mut group: Vec<EstacaoInfo> = Vec::new();
                group.push(estacao.clone());
                index.insert(label.clone(), groups.len());
                groups.push((label, group));
                proof {
                    lemma_grouping_new(before, seen, label_key(), *estacao, label@);
                    assert(label_groups(groups@) == before.push((label@, seq![*estacao])));
                    assert(keys_of(label_groups(groups@)) == keys_of(before).push(label@));
                    assert(keys_of(group_sizes(before)) == keys_of(before));
                    if has_key(group_sizes(before), label@) {
                        let i = choose|i: int|
                            0 <= i < group_sizes(before).len() && (#[trigger] group_sizes(
                                before,
                            )[i]).0 == label@;
                        assert(before[i].0 == label@);
                    }
                    lemma_order_new(group_sizes(before), seen, label_key(), *estacao, label@);
                }
            },
        }
    }

    /// Counts one more station under its regional unit, if it has one;
    /// `index` finds the count of a unit.
    fn add_to_regional_counts(
        counts: &mut Vec<(String, usize)>,
        index: &mut StringHashMap<usize>,
        estacao: &EstacaoInfo,
        Ghost(seen): Ghost<Seq<EstacaoInfo>>,
    )
        requires
            is_counting(regional_counts(old(counts)@), seen, regional_key()),
            in_order_of_first(keys_of(regional_counts(old(counts)@)), seen, regional_key()),
            finds_keys(old(index)@, keys_of(regional_counts(old(counts)@))),
            seen.len() < usize::MAX,
        ensures
            is_counting(regional_counts(final(counts)@), seen.push(*estacao), regional_key()),
            in_order_of_first(
                keys_of(regional_counts(final(counts)@)),
                seen.push(*estacao),
                regional_key(),
            ),
            finds_keys(final(index)@, keys_of(regional_counts(final(counts)@))),
    {
        let ghost before = regional_counts(counts@);
        match named_regional(&estacao.regional) {
            None => {
                proof {
                    lemma_counting_skip(before, seen, regional_key(), *estacao);
                    lemma_order_kept(before, seen, regional_key(), *estacao);
                }
            },
            Some(regional) => {
                let found: Option<usize> = match index.get(regional.0.as_str()) {
                    Some(at) => Some(*at),
                    None => None,
                };
                match found {
                    Some(j) => {
                        proof {
                            assert(keys_of(before)[j as int] == regional@);
                            assert(before[j as int].1 == members(
                                seen,
                                regional_key(),
                                regional@,
                            ).len());
                            seen.lemma_filter_len(
                                |e: EstacaoInfo| regional_key()(e) == Some(regional@),
                            );
                        }
                        counts[j].1 = counts[j].1 + 1;
                        proof {
                            lemma_counting_add(before, seen, regional_key(), *estacao, j as int);
                            assert(regional_counts(counts@) == before.update(
                                j as int,
                                (before[j as int].0, before[j as int].1 + 1),
                            ));
                            assert(keys_of(regional_counts(counts@)) == keys_of(before));
                            lemma_order_kept(before, seen, regional_key(), *estacao);
                        }
                    },
                    None => {
                        proof {
                            if has_key(before, regional@) {
                                let i = choose|i: int|
                                    0 <= i < before.len() && (#[trigger] before[i]).0
                                        == regional@;
                                assert(keys_of(before)[i] == regional@);
                            }
                        }
                        index.insert(regional.0.clone(), counts.len());
                        counts.push((regional.0.clone(), 1));
                        proof {
                            lemma_counting_new(before, seen, regional_key(), *estacao, regional@);
                            lemma_order_new(before, seen, regional_key(), *estacao, regional@);
                            assert(regional_counts(counts@) == before.push((regional@, 1)));
                            assert(keys_of(regional_counts(counts@)) == keys_of(before).push(
                                regional@,
                            ));
                        }
                    },
                }
            },
        }
    }

    /// Puts one more station in its group by status and label: the group is
    /// taken out of the map, or begun, and put back with the station.
    fn add_to_index_map(
        map: &mut IndexMap<(u8, String), Vec<EstacaoInfo>>,
        estacao: &EstacaoInfo,
        Ghost(seen): Ghost<Seq<EstacaoInfo>>,
    )
        requires
            is_grouping(index_map_entries(*old(map)), seen, status_label_key()),
        ensures
            is_grouping(index_map_entries(*final(map)), seen.push(*estacao), status_label_key()),
    {
        let ghost before = index_map_entries(*map);
        let rank = estacao.status.rank();
        let label = Aggregator::region_label(estacao);
        let ghost k = (rank, label@);
        proof {
            lemma_grouping_keys_differ(before, seen, status_label_key());
        }
        let taken = index_map_insert(map, (rank, label.clone()), Vec::new());
        let ghost between = index_map_entries(*map);
        let mut group: Vec<EstacaoInfo> = match taken {
            Some(g) => g,
            None => Vec::new(),
        };
        let ghost had = group@;
        group.push(estacao.clone());
        let ghost place: int = if has_key(before, k) {
            choose|at: int| 0 <= at < before.len() && (#[trigger] before[at]).0 == k
        } else {
            before.len() as int
        };
        proof {
            assert(between[place].0 == k);
            assert(forall|i: int, j: int|
                0 <= i < between.len() && 0 <= j < between.len() && i != j ==> (
                #[trigger] between[i]).0 != (#[trigger] between[j]).0);
        }
        let again = index_map_insert(map, (rank, label), group);
        proof {
            let after = index_map_entries(*map);
            assert(has_key(between, k));
            assert(again is Some);
            assert(after == between.update(place, (k, had.push(*estacao))));
            if has_key(before, k) {
                assert(after == before.update(place, (k, before[place].1.push(*estacao))));
                lemma_grouping_add(before, seen, status_label_key(), *estacao, place);
            } else {
                assert(after == before.push((k, seq![*estacao])));
                lemma_grouping_new(before, seen, status_label_key(), *estacao, k);
            }
        }
    }

    /// Groups the stations by status, by the label of the regional unit and
    /// by both, and counts them: in all, by status, by regional unit, and
    /// those without a regional unit. A station without a unit and one whose
    /// unit is written as the label of those without one are treated alike:
    /// both stand under that label in the groups, and both are counted
    /// among those without a unit. The stations themselves are left as they
    /// are; the groups hold copies.
    pub fn group_by_status_and_regional(estacoes: &[EstacaoInfo]) -> (data: AggregatedData)
        ensures
            data.is_aggregation_of(estacoes@),
    {
        let mut by_status: Vec<(Status, Vec<EstacaoInfo>)> = Vec::new();
        let mut by_regional: Vec<(String, Vec<EstacaoInfo>)> = Vec::new();
        let mut by_status_and_regional = index_map_new();
        let mut regional_totals: Vec<(String, usize)> = Vec::new();
        let mut label_index: StringHashMap<usize> = StringHashMap::new();
        let mut regional_index: StringHashMap<usize> = StringHashMap::new();
        let mut without: usize = 0;

        let mut i: usize = 0;
        proof {
            let none = estacoes@.take(0);
            assert(status_groups(by_status@) == Seq::<(Status, Seq<EstacaoInfo>)>::empty());
            assert(label_groups(by_regional@) == Seq::<(Seq<char>, Seq<EstacaoInfo>)>::empty());
            assert(regional_counts(regional_totals@) == Seq::<(Seq<char>, int)>::empty());
            assert(without_regional(none).len() == 0) by {
                reveal(Seq::filter);
            }
        }
        while i < estacoes.len()
            invariant
                i <= estacoes.len(),
                is_grouping(status_groups(by_status@), estacoes@.take(i as int), status_key()),
                is_grouping(label_groups(by_regional@), estacoes@.take(i as int), label_key()),
                in_order_of_first(
                    keys_of(status_groups(by_status@)),
                    estacoes@.take(i as int),
                    status_key(),
                ),
                in_order_of_first(
                    keys_of(label_groups(by_regional@)),
                    estacoes@.take(i as int),
                    label_key(),
                ),
                in_order_of_first(
                    keys_of(regional_counts(regional_totals@)),
                    estacoes@.take(i as int),
                    regional_key(),
                ),
                is_grouping(
                    index_map_entries(by_status_and_regional),
                    estacoes@.take(i as int),
                    status_label_key(),
                ),
                is_counting(
                    regional_counts(regional_totals@),
                    estacoes@.take(i as int),
                    regional_key(),
                ),
                finds_keys(label_index@, keys_of(label_groups(by_regional@))),
                finds_keys(regional_index@, keys_of(regional_counts(regional_totals@))),
                without == without_regional(estacoes@.take(i as int)).len(),
            decreases estacoes.len() - i,
        {
            let estacao = &estacoes[i];
            let ghost seen = estacoes@.take(i as int);
            proof {
                assert(estacoes@.take(i + 1) == seen.push(*estacao));
                assert(seen.push(*estacao).drop_last() == seen);
                reveal(Seq::filter);
            }
            Aggregator::add_to_status_groups(&mut by_status, estacao, Ghost(seen));
            Aggregator::add_to_label_groups(
                &mut by_regional,
                &mut label_index,
                estacao,
                Ghost(seen),
            );
            Aggregator::add_to_regional_counts(
                &mut regional_totals,
                &mut regional_index,
                estacao,
                Ghost(seen),
            );
            Aggregator::add_to_index_map(&mut by_status_and_regional, estacao, Ghost(seen));
            if named_regional(&estacao.regional).is_none() {
                without += 1;
            }
            i += 1;
        }
        assert(estacoes@.take(i as int) == estacoes@);

        let ghost unsorted = index_map_entries(by_status_and_regional);
        index_map_sort_keys(&mut by_status_and_regional);
        proof {
            lemma_grouping_permuted(
                unsorted,
                index_map_entries(by_status_and_regional),
                estacoes@,
                status_label_key(),
            );
        }

        let mut status_totals: Vec<(Status, usize)> = Vec::new();
        let mut j: usize = 0;
        while j < by_status.len()
            invariant
                j <= by_status.len(),
                status_counts(status_totals@) == group_sizes(status_groups(by_status@)).take(
                    j as int,
                ),
            decreases by_status.len() - j,
        {
            let ghost counted = status_totals@;
            status_totals.push((by_status[j].0, by_status[j].1.len()));
            proof {
                let sizes = group_sizes(status_groups(by_status@));
                assert(sizes.take(j + 1) == sizes.take(j as int).push(sizes[j as int]));
                assert(status_counts(status_totals@) == status_counts(counted).push(
                    sizes[j as int],
                ));
            }
            j += 1;
        }
        assert(group_sizes(status_groups(by_status@)).take(j as int) == group_sizes(
            status_groups(by_status@),
        ));
        assert(keys_of(status_counts(status_totals@)) == keys_of(status_groups(by_status@)));

        AggregatedData {
            by_status,
            by_regional,
            by_status_and_regional,
            totals: AggregationTotals {
                total: estacoes.len(),
                by_status: status_totals,
                by_regional: regional_totals,
                without_regional: without,
            },
        }
    }
}

} // verus!
