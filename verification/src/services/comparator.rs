use crate::models::common::{
    clone_regional, named_regional, regional_token, regional_view, views, DataSource,
    EstacaoInfo, EstacaoInfoView, Regional, Status,
};
use crate::utils::normalizer::{normalized_id, Normalizer};
use crate::utils::text::str_eq;
use vstd::hash_map::StringHashMap;
use vstd::prelude::*;

verus! {

/// The reconciliation of the stations of the two sources.
pub struct Comparator;

/// A station that both sources know, with a different status in each.
#[derive(Debug)]
pub struct StatusMismatch {
    pub id: String,
    pub nome: String,
    pub zabbix_status: Status,
    pub sharepoint_status: Status,
    pub zabbix_regional: Option<Regional>,
    pub sharepoint_regional: Option<Regional>,
}

impl StatusMismatch {
    /// Whether the two sources name different regional units for the
    /// station, or only one of them names one. A unit written as the label
    /// of those without one names none.
    pub fn regionals_differ(&self) -> (r: bool)
        ensures
            r == (regional_token(self.zabbix_regional) != regional_token(
                self.sharepoint_regional,
            )),
    {
        match (named_regional(&self.zabbix_regional), named_regional(&self.sharepoint_regional)) {
            (Some(a), Some(b)) => !str_eq(a.0.as_str(), b.0.as_str()),
            (None, None) => false,
            _ => true,
        }
    }
}

/// The stations of two sources, sorted into four parts by their keys.
#[derive(Debug)]
pub struct ComparisonResult {
    pub matching: Vec<(EstacaoInfo, EstacaoInfo)>,
    pub only_in_zabbix: Vec<EstacaoInfo>,
    pub only_in_sharepoint: Vec<EstacaoInfo>,
    pub status_mismatch: Vec<StatusMismatch>,
}

/// The text of a station by which its source is joined with the other: the
/// display name for the monitoring source, the identifier for the tabular one.
pub open spec fn join_field(source: DataSource, station: EstacaoInfoView) -> Seq<char> {
    match source {
        DataSource::Zabbix => station.nome,
        DataSource::SharePoint => station.id,
    }
}

/// The key of a station of the given source: its join field, normalized.
pub open spec fn join_key(source: DataSource, station: EstacaoInfoView) -> Seq<char> {
    normalized_id(join_field(source, station))
}

/// The keys of the stations of one source, in order.
pub open spec fn join_keys(stations: Seq<EstacaoInfoView>, source: DataSource) -> Seq<Seq<char>> {
    stations.map_values(|e: EstacaoInfoView| join_key(source, e))
}

/// For each key of `keys` the last position at which it stands: where two
/// stations of one source have the same key, the later one stands for it.
pub open spec fn last_positions(keys: Seq<Seq<char>>) -> Map<Seq<char>, int>
    decreases keys.len(),
{
    if keys.len() == 0 {
        Map::empty()
    } else {
        last_positions(keys.drop_last()).insert(keys.last(), keys.len() - 1)
    }
}

/// The index of the monitoring source: key to position.
pub open spec fn zabbix_index(a: Seq<EstacaoInfoView>) -> Map<Seq<char>, int> {
    last_positions(join_keys(a, DataSource::Zabbix))
}

/// The index of the tabular source: key to position.
pub open spec fn sharepoint_index(b: Seq<EstacaoInfoView>) -> Map<Seq<char>, int> {
    last_positions(join_keys(b, DataSource::SharePoint))
}

/// The keys that both sources have, with the same status in both.
pub open spec fn matched_keys(a: Seq<EstacaoInfoView>, b: Seq<EstacaoInfoView>) -> Set<Seq<char>> {
    Set::new(
        |k: Seq<char>|
            zabbix_index(a).dom().contains(k) && sharepoint_index(b).dom().contains(k)
                && a[zabbix_index(a)[k]].status == b[sharepoint_index(b)[k]].status,
    )
}

/// The keys that both sources have, with a different status in each.
pub open spec fn mismatched_keys(a: Seq<EstacaoInfoView>, b: Seq<EstacaoInfoView>) -> Set<
    Seq<char>,
> {
    Set::new(
        |k: Seq<char>|
            zabbix_index(a).dom().contains(k) && sharepoint_index(b).dom().contains(k)
                && a[zabbix_index(a)[k]].status != b[sharepoint_index(b)[k]].status,
    )
}

/// The keys that only the monitoring source has.
pub open spec fn zabbix_only_keys(a: Seq<EstacaoInfoView>, b: Seq<EstacaoInfoView>) -> Set<
    Seq<char>,
> {
    Set::new(
        |k: Seq<char>|
            zabbix_index(a).dom().contains(k) && !sharepoint_index(b).dom().contains(k),
    )
}

/// The keys that only the tabular source has.
pub open spec fn sharepoint_only_keys(a: Seq<EstacaoInfoView>, b: Seq<EstacaoInfoView>) -> Set<
    Seq<char>,
> {
    Set::new(
        |k: Seq<char>|
            sharepoint_index(b).dom().contains(k) && !zabbix_index(a).dom().contains(k),
    )
}

/// `listed` holds each key of `wanted` once and no other, in the order of
/// the positions that `index` gives the keys.
pub open spec fn lists_keys(
    listed: Seq<Seq<char>>,
    wanted: Set<Seq<char>>,
    index: Map<Seq<char>, int>,
) -> bool {
    &&& forall|i: int| 0 <= i < listed.len() ==> wanted.contains(#[trigger] listed[i])
    &&& forall|k: Seq<char>| #[trigger] wanted.contains(k) ==> listed.contains(k)
    &&& forall|i: int, j: int|
        0 <= i < j < listed.len() ==> index[#[trigger] listed[i]] < index[#[trigger] listed[j]]
}

/// The keys of `wanted` whose position is below `bound`.
pub open spec fn keys_below(wanted: Set<Seq<char>>, index: Map<Seq<char>, int>, bound: int) -> Set<
    Seq<char>,
> {
    Set::new(|k: Seq<char>| wanted.contains(k) && index[k] < bound)
}

/// The keys of the pairs of stations, each pair by its first station.
pub open spec fn pair_keys(pairs: Seq<(EstacaoInfo, EstacaoInfo)>) -> Seq<Seq<char>> {
    pairs.map_values(|p: (EstacaoInfo, EstacaoInfo)| join_key(DataSource::Zabbix, p.0@))
}

/// The keys of the status mismatches.
pub open spec fn mismatch_keys(mismatches: Seq<StatusMismatch>) -> Seq<Seq<char>> {
    mismatches.map_values(|m: StatusMismatch| m.id@)
}

/// The keys of stations of one source.
pub open spec fn station_keys(stations: Seq<EstacaoInfo>, source: DataSource) -> Seq<Seq<char>> {
    stations.map_values(|e: EstacaoInfo| join_key(source, e@))
}

/// A pair holds the two stations that stand for its key, one of each source.
pub open spec fn pair_stands(
    pair: (EstacaoInfo, EstacaoInfo),
    a: Seq<EstacaoInfoView>,
    b: Seq<EstacaoInfoView>,
) -> bool {
    let k = join_key(DataSource::Zabbix, pair.0@);
    &&& pair.0@ == a[zabbix_index(a)[k]]
    &&& pair.1@ == b[sharepoint_index(b)[k]]
}

/// A mismatch carries the key, and of the two stations that stand for it the
/// name of the first and the status and regional unit of both.
pub open spec fn mismatch_stands(
    mismatch: StatusMismatch,
    a: Seq<EstacaoInfoView>,
    b: Seq<EstacaoInfoView>,
) -> bool {
    let za = a[zabbix_index(a)[mismatch.id@]];
    let sp = b[sharepoint_index(b)[mismatch.id@]];
    &&& mismatch.nome@ == za.nome
    &&& mismatch.zabbix_status == za.status
    &&& mismatch.sharepoint_status == sp.status
    &&& regional_view(mismatch.zabbix_regional) == za.regional
    &&& regional_view(mismatch.sharepoint_regional) == sp.regional
}

/// A station of a part that only one source has is the one that stands for
/// its key in that source.
pub open spec fn station_stands(
    station: EstacaoInfo,
    source: DataSource,
    stations: Seq<EstacaoInfoView>,
) -> bool {
    station@ == stations[last_positions(join_keys(stations, source))[join_key(source, station@)]]
}

impl ComparisonResult {
    /// The result is the comparison of the stations `a` of the monitoring
    /// source with the stations `b` of the tabular source: each part lists
    /// its keys once, in the order of the stations in their source, and each
    /// entry holds the stations that stand for its key.
    pub open spec fn is_comparison_of(
        &self,
        a: Seq<EstacaoInfoView>,
        b: Seq<EstacaoInfoView>,
    ) -> bool {
        &&& lists_keys(pair_keys(self.matching@), matched_keys(a, b), zabbix_index(a))
        &&& lists_keys(mismatch_keys(self.status_mismatch@), mismatched_keys(a, b), zabbix_index(a))
        &&& lists_keys(
            station_keys(self.only_in_zabbix@, DataSource::Zabbix),
            zabbix_only_keys(a, b),
            zabbix_index(a),
        )
        &&& lists_keys(
            station_keys(self.only_in_sharepoint@, DataSource::SharePoint),
            sharepoint_only_keys(a, b),
            sharepoint_index(b),
        )
        &&& forall|i: int|
            0 <= i < self.matching.len() ==> pair_stands(#[trigger] self.matching[i], a, b)
        &&& forall|i: int|
            0 <= i < self.status_mismatch.len() ==> mismatch_stands(
                #[trigger] self.status_mismatch[i],
                a,
                b,
            )
        &&& forall|i: int|
            0 <= i < self.only_in_zabbix.len() ==> station_stands(
                #[trigger] self.only_in_zabbix[i],
                DataSource::Zabbix,
                a,
            )
        &&& forall|i: int|
            0 <= i < self.only_in_sharepoint.len() ==> station_stands(
                #[trigger] self.only_in_sharepoint[i],
                DataSource::SharePoint,
                b,
            )
    }
}

/// What the index of a source holds: the keys of the source, each with a
/// position at which it stands and behind which it stands no more.
pub proof fn lemma_last_positions(keys: Seq<Seq<char>>)
    ensures
        forall|k: Seq<char>|
            #![trigger last_positions(keys).dom().contains(k)]
            #![trigger keys.contains(k)]
            last_positions(keys).dom().contains(k) <==> keys.contains(k),
        forall|k: Seq<char>|
            #![trigger last_positions(keys).dom().contains(k)]
            last_positions(keys).dom().contains(k) ==> 0 <= last_positions(keys)[k] < keys.len()
                && keys[last_positions(keys)[k]] == k,
        forall|k: Seq<char>, j: int|
            #![trigger last_positions(keys).dom().contains(k), keys[j]]
            last_positions(keys).dom().contains(k) && last_positions(keys)[k] < j < keys.len()
                ==> keys[j] != k,
    decreases keys.len(),
{
    if keys.len() > 0 {
        let front = keys.drop_last();
        lemma_last_positions(front);
        assert forall|k: Seq<char>|
            #![trigger last_positions(keys).dom().contains(k)]
            #![trigger keys.contains(k)]
            last_positions(keys).dom().contains(k) <==> keys.contains(k) by {
            if k == keys.last() {
                assert(keys[keys.len() - 1] == k);
            } else {
                assert(last_positions(keys).dom().contains(k) <==> last_positions(
                    front,
                ).dom().contains(k));
                if front.contains(k) {
                    let i = choose|i: int| 0 <= i < front.len() && front[i] == k;
                    assert(keys[i] == k);
                }
                if keys.contains(k) {
                    let i = choose|i: int| 0 <= i < keys.len() && keys[i] == k;
                    assert(front[i] == k);
                }
            }
        }
        assert forall|k: Seq<char>|
            #![trigger last_positions(keys).dom().contains(k)]
            last_positions(keys).dom().contains(k) implies 0 <= last_positions(keys)[k]
            < keys.len() && keys[last_positions(keys)[k]] == k by {
            if k != keys.last() {
                assert(front[last_positions(front)[k]] == k);
            }
        }
        assert forall|k: Seq<char>, j: int|
            #![trigger last_positions(keys).dom().contains(k), keys[j]]
            last_positions(keys).dom().contains(k) && last_positions(keys)[k] < j
                < keys.len() implies keys[j] != k by {
            if k != keys.last() {
                assert(last_positions(front).dom().contains(k));
                if j < front.len() {
                    assert(front[j] == keys[j]);
                }
            }
        }
    }
}

/// Taking the station at `at` into a part: where the station stands for its
/// key and the part wants that key, the part's list grows by the key.
proof fn lemma_list_grows(
    listed: Seq<Seq<char>>,
    wanted: Set<Seq<char>>,
    keys: Seq<Seq<char>>,
    at: int,
)
    requires
        0 <= at < keys.len(),
        last_positions(keys)[keys[at]] == at,
        wanted.contains(keys[at]),
        forall|k: Seq<char>| #[trigger]
            wanted.contains(k) ==> last_positions(keys).dom().contains(k),
        lists_keys(listed, keys_below(wanted, last_positions(keys), at), last_positions(keys)),
    ensures
        lists_keys(
            listed.push(keys[at]),
            keys_below(wanted, last_positions(keys), at + 1),
            last_positions(keys),
        ),
{
    lemma_last_positions(keys);
    let index = last_positions(keys);
    let before = keys_below(wanted, index, at);
    let after = keys_below(wanted, index, at + 1);
    let grown = listed.push(keys[at]);
    assert forall|i: int| 0 <= i < grown.len() implies after.contains(#[trigger] grown[i]) by {
        if i < listed.len() {
            assert(before.contains(listed[i]));
        }
    }
    assert forall|k: Seq<char>| #[trigger] after.contains(k) implies grown.contains(k) by {
        if index[k] < at {
            assert(before.contains(k));
            let i = choose|i: int| 0 <= i < listed.len() && listed[i] == k;
            assert(grown[i] == k);
        } else {
            assert(wanted.contains(k));
            assert(keys[index[k]] == k);
            assert(grown[listed.len() as int] == k);
        }
    }
    assert forall|i: int, j: int| 0 <= i < j < grown.len() implies index[#[trigger] grown[i]]
        < index[#[trigger] grown[j]] by {
        assert(before.contains(listed[i]));
        if j < listed.len() {
            assert(index[listed[i]] < index[listed[j]]);
        }
    }
}

/// Passing the station at `at` by: where the station does not stand for its
/// key, or the part does not want that key, the part's list stays.
proof fn lemma_list_stays(
    listed: Seq<Seq<char>>,
    wanted: Set<Seq<char>>,
    keys: Seq<Seq<char>>,
    at: int,
)
    requires
        0 <= at < keys.len(),
        !(wanted.contains(keys[at]) && last_positions(keys)[keys[at]] == at),
        forall|k: Seq<char>| #[trigger]
            wanted.contains(k) ==> last_positions(keys).dom().contains(k),
        lists_keys(listed, keys_below(wanted, last_positions(keys), at), last_positions(keys)),
    ensures
        lists_keys(listed, keys_below(wanted, last_positions(keys), at + 1), last_positions(keys)),
{
    lemma_last_positions(keys);
    let index = last_positions(keys);
    let before = keys_below(wanted, index, at);
    let after = keys_below(wanted, index, at + 1);
    assert forall|k: Seq<char>| after.contains(k) implies before.contains(k) by {
        assert(wanted.contains(k));
        assert(keys[index[k]] == k);
    }
    assert(after =~= before);
}

/// Once every station of the source has been seen, a part lists all the
/// keys that it wants.
proof fn lemma_list_complete(listed: Seq<Seq<char>>, wanted: Set<Seq<char>>, keys: Seq<Seq<char>>)
    requires
        forall|k: Seq<char>| #[trigger]
            wanted.contains(k) ==> last_positions(keys).dom().contains(k),
        lists_keys(
            listed,
            keys_below(wanted, last_positions(keys), keys.len() as int),
            last_positions(keys),
        ),
    ensures
        lists_keys(listed, wanted, last_positions(keys)),
{
    lemma_last_positions(keys);
    assert(keys_below(wanted, last_positions(keys), keys.len() as int) =~= wanted);
}

/// The texts of a list of strings.
pub open spec fn texts(strings: Seq<String>) -> Seq<Seq<char>> {
    strings.map_values(|s: String| s@)
}

/// The positions that an executable index holds are those of `keys`.
pub open spec fn holds_positions(index: Map<Seq<char>, usize>, keys: Seq<Seq<char>>) -> bool {
    &&& index.dom() == last_positions(keys).dom()
    &&& forall|k: Seq<char>| #[trigger]
        index.dom().contains(k) ==> index[k] == last_positions(keys)[k]
}

impl Comparator {
    /// The key of a station as a station of the given source.
    pub fn join_key(source: DataSource, station: &EstacaoInfo) -> (key: String)
        ensures
            key@ == join_key(source, station@),
    {
        match source {
            DataSource::Zabbix => Normalizer::normalize_id(station.nome.as_str()),
            DataSource::SharePoint => Normalizer::normalize_id(station.id.as_str()),
        }
    }

    /// The keys of the stations of one source, in order.
    fn join_keys(stations: &Vec<EstacaoInfo>, source: DataSource) -> (keys: Vec<String>)
        ensures
            texts(keys@) == join_keys(views(stations@), source),
    {
        let mut keys: Vec<String> = Vec::new();
        let mut i: usize = 0;
        while i < stations.len()
            invariant
                i <= stations.len(),
                texts(keys@) == join_keys(views(stations@.take(i as int)), source),
            decreases stations.len() - i,
        {
            let ghost before = keys@;
            let key = Comparator::join_key(source, &stations[i]);
            keys.push(key);
            proof {
                let seen = stations@.take(i as int);
                assert(stations@.take(i + 1) == seen.push(stations@[i as int]));
                assert(views(seen.push(stations@[i as int])) == views(seen).push(
                    stations@[i as int]@,
                ));
                assert(texts(before.push(key)) == texts(before).push(key@));
                assert(join_keys(views(seen).push(stations@[i as int]@), source) == join_keys(
                    views(seen),
                    source,
                ).push(key@));
            }
            i += 1;
        }
        assert(stations@.take(i as int) == stations@);
        keys
    }

    /// The index of the keys: for each the last position at which it stands.
    fn index_keys(keys: &Vec<String>) -> (index: StringHashMap<usize>)
        ensures
            holds_positions(index@, texts(keys@)),
    {
        let mut index: StringHashMap<usize> = StringHashMap::new();
        let mut i: usize = 0;
        assert(index@.dom() =~= last_positions(texts(keys@.take(0))).dom());
        while i < keys.len()
            invariant
                i <= keys.len(),
                holds_positions(index@, texts(keys@.take(i as int))),
            decreases keys.len() - i,
        {
            let ghost before = texts(keys@.take(i as int));
            let ghost after = texts(keys@.take(i + 1));
            index.insert(keys[i].clone(), i);
            proof {
                assert(after.drop_last() == before);
                assert(after.last() == keys@[i as int]@);
                assert(index@.dom() =~= last_positions(after).dom());
            }
            i += 1;
        }
        assert(keys@.take(i as int) == keys@);
        index
    }

    /// Compares the stations of the monitoring source with those of the
    /// tabular source. Each source is indexed by the normalized key of its
    /// stations, the last station with a key standing for it. A key of both
    /// sources goes to `matching` where the two stations have the same status
    /// and to `status_mismatch` where they do not; a key of one source only
    /// goes to `only_in_zabbix` or `only_in_sharepoint`.
    pub fn compare(zabbix_data: Vec<EstacaoInfo>, sharepoint_data: Vec<EstacaoInfo>) -> (result:
        ComparisonResult)
        ensures
            result.is_comparison_of(views(zabbix_data@), views(sharepoint_data@)),
    {
        let zabbix_keys = Comparator::join_keys(&zabbix_data, DataSource::Zabbix);
        let sharepoint_keys = Comparator::join_keys(&sharepoint_data, DataSource::SharePoint);
        let zabbix_map = Comparator::index_keys(&zabbix_keys);
        let sharepoint_map = Comparator::index_keys(&sharepoint_keys);

        let ghost a = views(zabbix_data@);
        let ghost b = views(sharepoint_data@);
        let ghost ka = join_keys(a, DataSource::Zabbix);
        let ghost kb = join_keys(b, DataSource::SharePoint);
        let ghost ia = zabbix_index(a);
        let ghost ib = sharepoint_index(b);
        proof {
            lemma_last_positions(ka);
            lemma_last_positions(kb);
        }

        let mut matching: Vec<(EstacaoInfo, EstacaoInfo)> = Vec::new();
        let mut status_mismatch: Vec<StatusMismatch> = Vec::new();
        let mut only_in_zabbix: Vec<EstacaoInfo> = Vec::new();

        let mut i: usize = 0;
        while i < zabbix_data.len()
            invariant
                i <= zabbix_data.len(),
                a == views(zabbix_data@),
                b == views(sharepoint_data@),
                ka == join_keys(a, DataSource::Zabbix),
                kb == join_keys(b, DataSource::SharePoint),
                ia == last_positions(ka),
                ib == last_positions(kb),
                texts(zabbix_keys@) == ka,
                holds_positions(zabbix_map@, ka),
                holds_positions(sharepoint_map@, kb),
                lists_keys(pair_keys(matching@), keys_below(matched_keys(a, b), ia, i as int), ia),
                lists_keys(
                    mismatch_keys(status_mismatch@),
                    keys_below(mismatched_keys(a, b), ia, i as int),
                    ia,
                ),
                lists_keys(
                    station_keys(only_in_zabbix@, DataSource::Zabbix),
                    keys_below(zabbix_only_keys(a, b), ia, i as int),
                    ia,
                ),
                forall|t: int|
                    0 <= t < matching.len() ==> pair_stands(#[trigger] matching[t], a, b),
                forall|t: int|
                    0 <= t < status_mismatch.len() ==> mismatch_stands(
                        #[trigger] status_mismatch[t],
                        a,
                        b,
                    ),
                forall|t: int|
                    0 <= t < only_in_zabbix.len() ==> station_stands(
                        #[trigger] only_in_zabbix[t],
                        DataSource::Zabbix,
                        a,
                    ),
            decreases zabbix_data.len() - i,
        {
            let key = &zabbix_keys[i];
            let ghost k = key@;
            proof {
                lemma_last_positions(ka);
                lemma_last_positions(kb);
                assert(ka[i as int] == k);
                assert(ka.contains(k));
                assert(a[i as int] == zabbix_data@[i as int]@);
            }
            let stands = match zabbix_map.get(key.as_str()) {
                Some(at) => *at == i,
                None => false,
            };
            let ghost pairs = pair_keys(matching@);
            let ghost mismatches = mismatch_keys(status_mismatch@);
            let ghost singles = station_keys(only_in_zabbix@, DataSource::Zabbix);
            if stands {
                match sharepoint_map.get(key.as_str()) {
                    Some(at) => {
                        let j: usize = *at;
                        assert(b[j as int] == sharepoint_data@[j as int]@);
                        let za = &zabbix_data[i];
                        let sp = &sharepoint_data[j];
                        if za.status == sp.status {
                            matching.push((za.clone(), sp.clone()));
                            proof {
                                assert(pair_keys(matching@) == pairs.push(k));
                                lemma_list_grows(pairs, matched_keys(a, b), ka, i as int);
                                lemma_list_stays(mismatches, mismatched_keys(a, b), ka, i as int);
                                lemma_list_stays(singles, zabbix_only_keys(a, b), ka, i as int);
                            }
                        } else {
                            status_mismatch.push(
                                StatusMismatch {
                                    id: key.clone(),
                                    nome: za.nome.clone(),
                                    zabbix_status: za.status,
                                    sharepoint_status: sp.status,
                                    zabbix_regional: clone_regional(&za.regional),
                                    sharepoint_regional: clone_regional(&sp.regional),
                                },
                            );
                            proof {
                                assert(mismatch_keys(status_mismatch@) == mismatches.push(k));
                                lemma_list_stays(pairs, matched_keys(a, b), ka, i as int);
                                lemma_list_grows(mismatches, mismatched_keys(a, b), ka, i as int);
                                lemma_list_stays(singles, zabbix_only_keys(a, b), ka, i as int);
                            }
                        }
                    },
                    None => {
                        only_in_zabbix.push(zabbix_data[i].clone());
                        proof {
                            assert(station_keys(only_in_zabbix@, DataSource::Zabbix)
                                == singles.push(k));
                            lemma_list_stays(pairs, matched_keys(a, b), ka, i as int);
                            lemma_list_stays(mismatches, mismatched_keys(a, b), ka, i as int);
                            lemma_list_grows(singles, zabbix_only_keys(a, b), ka, i as int);
                        }
                    },
                }
            } else {
                proof {
                    lemma_list_stays(pairs, matched_keys(a, b), ka, i as int);
                    lemma_list_stays(mismatches, mismatched_keys(a, b), ka, i as int);
                    lemma_list_stays(singles, zabbix_only_keys(a, b), ka, i as int);
                }
            }
            i += 1;
        }
        proof {
            lemma_list_complete(pair_keys(matching@), matched_keys(a, b), ka);
            lemma_list_complete(mismatch_keys(status_mismatch@), mismatched_keys(a, b), ka);
            lemma_list_complete(
                station_keys(only_in_zabbix@, DataSource::Zabbix),
                zabbix_only_keys(a, b),
                ka,
            );
        }

        let mut only_in_sharepoint: Vec<EstacaoInfo> = Vec::new();
        let mut j: usize = 0;
        while j < sharepoint_data.len()
            invariant
                j <= sharepoint_data.len(),
                a == views(zabbix_data@),
                b == views(sharepoint_data@),
                ka == join_keys(a, DataSource::Zabbix),
                kb == join_keys(b, DataSource::SharePoint),
                ia == last_positions(ka),
                ib == last_positions(kb),
                texts(sharepoint_keys@) == kb,
                holds_positions(zabbix_map@, ka),
                holds_positions(sharepoint_map@, kb),
                lists_keys(
                    station_keys(only_in_sharepoint@, DataSource::SharePoint),
                    keys_below(sharepoint_only_keys(a, b), ib, j as int),
                    ib,
                ),
                forall|t: int|
                    0 <= t < only_in_sharepoint.len() ==> station_stands(
                        #[trigger] only_in_sharepoint[t],
                        DataSource::SharePoint,
                        b,
                    ),
            decreases sharepoint_data.len() - j,
        {
            let key = &sharepoint_keys[j];
            let ghost k = key@;
            proof {
                lemma_last_positions(kb);
                assert(kb[j as int] == k);
                assert(kb.contains(k));
                assert(b[j as int] == sharepoint_data@[j as int]@);
            }
            let stands = match sharepoint_map.get(key.as_str()) {
                Some(at) => *at == j,
                None => false,
            };
            let ghost singles = station_keys(only_in_sharepoint@, DataSource::SharePoint);
            if stands && !zabbix_map.contains_key(key.as_str()) {
                only_in_sharepoint.push(sharepoint_data[j].clone());
                proof {
                    assert(station_keys(only_in_sharepoint@, DataSource::SharePoint)
                        == singles.push(k));
                    lemma_list_grows(singles, sharepoint_only_keys(a, b), kb, j as int);
                }
            } else {
                proof {
                    lemma_list_stays(singles, sharepoint_only_keys(a, b), kb, j as int);
                }
            }
            j += 1;
        }
        proof {
            lemma_list_complete(
                station_keys(only_in_sharepoint@, DataSource::SharePoint),
                sharepoint_only_keys(a, b),
                kb,
            );
        }

        ComparisonResult { matching, only_in_zabbix, only_in_sharepoint, status_mismatch }
    }
}

/// A list that holds each wanted key once holds, as a set, the wanted keys,
/// and no key twice.
pub proof fn lemma_listed_keys(
    listed: Seq<Seq<char>>,
    wanted: Set<Seq<char>>,
    index: Map<Seq<char>, int>,
)
    requires
        lists_keys(listed, wanted, index),
    ensures
        listed.to_set() == wanted,
        listed.no_duplicates(),
{
    assert forall|k: Seq<char>| listed.to_set().contains(k) <==> wanted.contains(k) by {
        if listed.contains(k) {
            let i = choose|i: int| 0 <= i < listed.len() && listed[i] == k;
            assert(wanted.contains(listed[i]));
        }
    }
    assert(listed.to_set() =~= wanted);
    assert forall|i: int, j: int|
        0 <= i < listed.len() && 0 <= j < listed.len() && i != j implies listed[i]
        != listed[j] by {
        if i < j {
            assert(index[listed[i]] < index[listed[j]]);
        } else {
            assert(index[listed[j]] < index[listed[i]]);
        }
    }
}

/// The four parts of a comparison partition the keys of the two sources:
/// every key of either source stands in one part, no part holds any other
/// key, no key stands in two parts, and none stands twice in its part.
pub proof fn lemma_comparison_partitions(
    result: ComparisonResult,
    a: Seq<EstacaoInfoView>,
    b: Seq<EstacaoInfoView>,
)
    requires
        result.is_comparison_of(a, b),
    ensures
        pair_keys(result.matching@).to_set() + mismatch_keys(result.status_mismatch@).to_set()
            + station_keys(result.only_in_zabbix@, DataSource::Zabbix).to_set() + station_keys(
            result.only_in_sharepoint@,
            DataSource::SharePoint,
        ).to_set() == join_keys(a, DataSource::Zabbix).to_set() + join_keys(
            b,
            DataSource::SharePoint,
        ).to_set(),
        pair_keys(result.matching@).to_set().disjoint(
            mismatch_keys(result.status_mismatch@).to_set(),
        ),
        pair_keys(result.matching@).to_set().disjoint(
            station_keys(result.only_in_zabbix@, DataSource::Zabbix).to_set(),
        ),
        pair_keys(result.matching@).to_set().disjoint(
            station_keys(result.only_in_sharepoint@, DataSource::SharePoint).to_set(),
        ),
        mismatch_keys(result.status_mismatch@).to_set().disjoint(
            station_keys(result.only_in_zabbix@, DataSource::Zabbix).to_set(),
        ),
        mismatch_keys(result.status_mismatch@).to_set().disjoint(
            station_keys(result.only_in_sharepoint@, DataSource::SharePoint).to_set(),
        ),
        station_keys(result.only_in_zabbix@, DataSource::Zabbix).to_set().disjoint(
            station_keys(result.only_in_sharepoint@, DataSource::SharePoint).to_set(),
        ),
        pair_keys(result.matching@).no_duplicates(),
        mismatch_keys(result.status_mismatch@).no_duplicates(),
        station_keys(result.only_in_zabbix@, DataSource::Zabbix).no_duplicates(),
        station_keys(result.only_in_sharepoint@, DataSource::SharePoint).no_duplicates(),
{
    let ka = join_keys(a, DataSource::Zabbix);
    let kb = join_keys(b, DataSource::SharePoint);
    lemma_last_positions(ka);
    lemma_last_positions(kb);
    lemma_listed_keys(pair_keys(result.matching@), matched_keys(a, b), zabbix_index(a));
    lemma_listed_keys(
        mismatch_keys(result.status_mismatch@),
        mismatched_keys(a, b),
        zabbix_index(a),
    );
    lemma_listed_keys(
        station_keys(result.only_in_zabbix@, DataSource::Zabbix),
        zabbix_only_keys(a, b),
        zabbix_index(a),
    );
    lemma_listed_keys(
        station_keys(result.only_in_sharepoint@, DataSource::SharePoint),
        sharepoint_only_keys(a, b),
        sharepoint_index(b),
    );
    let parts = matched_keys(a, b) + mismatched_keys(a, b) + zabbix_only_keys(a, b)
        + sharepoint_only_keys(a, b);
    assert forall|k: Seq<char>| parts.contains(k) <==> (ka.to_set() + kb.to_set()).contains(k) by {
        assert(zabbix_index(a).dom().contains(k) <==> ka.contains(k));
        assert(sharepoint_index(b).dom().contains(k) <==> kb.contains(k));
    }
    assert(parts =~= ka.to_set() + kb.to_set());
}

} // verus!
