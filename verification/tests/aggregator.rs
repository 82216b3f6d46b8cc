use estacoes_manager::models::common::{DataSource, EstacaoInfo, Regional, Status, TipoEstacao};
use estacoes_manager::services::aggregator::{AggregatedData, Aggregator};

fn station(id: &str, status: Status, regional: Option<&str>) -> EstacaoInfo {
    EstacaoInfo::new(
        id.to_string(),
        id.to_string(),
        status,
        regional.map(|r| Regional::new(r.to_string())),
        TipoEstacao::RFeye,
        DataSource::Zabbix,
    )
}

fn sample() -> Vec<EstacaoInfo> {
    vec![
        station("1", Status::Defeito, Some("UO021")),
        station("2", Status::Ativo, Some("GR02")),
        station("3", Status::Ativo, None),
        station("4", Status::Ativo, Some("GR01")),
        station("5", Status::Defeito, Some("UO021")),
        station("6", Status::Baixa, None),
        station("7", Status::Ativo, Some("GR02")),
    ]
}

fn ids(group: &[EstacaoInfo]) -> Vec<&str> {
    group.iter().map(|e| e.id.as_str()).collect()
}

fn matrix_keys(data: &AggregatedData) -> Vec<(u8, &str)> {
    data.by_status_and_regional.keys().map(|k| (k.0, k.1.as_str())).collect()
}

#[test]
fn stations_are_grouped_by_status() {
    let data = Aggregator::group_by_status_and_regional(&sample());
    assert_eq!(data.by_status.len(), 3);
    let of = |s: Status| data.by_status.iter().find(|g| g.0 == s).map(|g| ids(&g.1));
    assert_eq!(of(Status::Ativo), Some(vec!["2", "3", "4", "7"]));
    assert_eq!(of(Status::Defeito), Some(vec!["1", "5"]));
    assert_eq!(of(Status::Baixa), Some(vec!["6"]));
    assert_eq!(of(Status::Triagem), None);
}

#[test]
fn stations_are_grouped_by_regional_label() {
    let data = Aggregator::group_by_status_and_regional(&sample());
    assert_eq!(data.by_regional.len(), 4);
    let of = |r: &str| data.by_regional.iter().find(|g| g.0 == r).map(|g| ids(&g.1));
    assert_eq!(of("UO021"), Some(vec!["1", "5"]));
    assert_eq!(of("GR02"), Some(vec!["2", "7"]));
    assert_eq!(of("GR01"), Some(vec!["4"]));
    assert_eq!(of("SEM_REGIONAL"), Some(vec!["3", "6"]));
    assert_eq!(of("GR03"), None);
}

#[test]
fn the_groups_by_status_and_regional_come_in_the_order_of_their_keys() {
    let data = Aggregator::group_by_status_and_regional(&sample());
    assert_eq!(
        matrix_keys(&data),
        vec![(0, "GR01"), (0, "GR02"), (0, "SEM_REGIONAL"), (1, "UO021"), (8, "SEM_REGIONAL")]
    );
    let groups: Vec<Vec<&str>> = data.by_status_and_regional.values().map(|g| ids(g)).collect();
    assert_eq!(groups, vec![vec!["4"], vec!["2", "7"], vec!["3"], vec!["1", "5"], vec!["6"]]);
}

#[test]
fn labels_are_ordered_as_strings_are() {
    let stations = vec![
        station("1", Status::Ativo, Some("b")),
        station("2", Status::Ativo, Some("ab")),
        station("3", Status::Ativo, Some("a")),
        station("4", Status::Ativo, Some("B")),
        station("5", Status::Ativo, Some("é")),
        station("6", Status::Ativo, Some("")),
        station("7", Status::Ativo, None),
        station("8", Status::Ativo, Some("z")),
    ];
    let data = Aggregator::group_by_status_and_regional(&stations);
    assert_eq!(
        matrix_keys(&data),
        vec![
            (0, ""),
            (0, "B"),
            (0, "SEM_REGIONAL"),
            (0, "a"),
            (0, "ab"),
            (0, "b"),
            (0, "z"),
            (0, "é")
        ]
    );
}

#[test]
fn groups_and_counts_come_in_the_order_of_their_first_station() {
    let data = Aggregator::group_by_status_and_regional(&sample());
    let statuses: Vec<Status> = data.by_status.iter().map(|g| g.0).collect();
    assert_eq!(statuses, vec![Status::Defeito, Status::Ativo, Status::Baixa]);
    let counted: Vec<Status> = data.totals.by_status.iter().map(|c| c.0).collect();
    assert_eq!(counted, statuses);
    let labels: Vec<&str> = data.by_regional.iter().map(|g| g.0.as_str()).collect();
    assert_eq!(labels, vec!["UO021", "GR02", "SEM_REGIONAL", "GR01"]);
    let regionals: Vec<&str> = data.totals.by_regional.iter().map(|c| c.0.as_str()).collect();
    assert_eq!(regionals, vec!["UO021", "GR02", "GR01"]);
}

#[test]
fn the_totals_add_up_to_the_number_of_stations() {
    let stations = sample();
    let data = Aggregator::group_by_status_and_regional(&stations);
    assert_eq!(data.totals.total, 7);
    let by_status: usize = data.totals.by_status.iter().map(|c| c.1).sum();
    let by_regional: usize = data.totals.by_regional.iter().map(|c| c.1).sum();
    assert_eq!(by_status, stations.len());
    assert_eq!(by_regional + data.totals.without_regional, stations.len());
    assert_eq!(data.totals.without_regional, 2);
    let grouped: usize = data.by_regional.iter().map(|g| g.1.len()).sum();
    assert_eq!(grouped, stations.len());
    let cells: usize = data.by_status_and_regional.values().map(|g| g.len()).sum();
    assert_eq!(cells, stations.len());
}

#[test]
fn the_totals_count_each_status_and_regional() {
    let data = Aggregator::group_by_status_and_regional(&sample());
    let status = |s: Status| data.totals.by_status.iter().find(|c| c.0 == s).map(|c| c.1);
    assert_eq!(status(Status::Ativo), Some(4));
    assert_eq!(status(Status::Defeito), Some(2));
    assert_eq!(status(Status::Baixa), Some(1));
    assert_eq!(status(Status::Litigio), None);
    assert_eq!(data.totals.by_status.len(), 3);
    let regional = |r: &str| data.totals.by_regional.iter().find(|c| c.0 == r).map(|c| c.1);
    assert_eq!(regional("UO021"), Some(2));
    assert_eq!(regional("GR02"), Some(2));
    assert_eq!(regional("GR01"), Some(1));
    assert_eq!(regional("SEM_REGIONAL"), None);
    assert_eq!(data.totals.by_regional.len(), 3);
}

#[test]
fn no_stations_give_empty_groups() {
    let data = Aggregator::group_by_status_and_regional(&[]);
    assert_eq!(data.totals.total, 0);
    assert_eq!(data.totals.without_regional, 0);
    assert!(data.totals.by_status.is_empty());
    assert!(data.totals.by_regional.is_empty());
    assert!(data.by_status.is_empty());
    assert!(data.by_regional.is_empty());
    assert!(data.by_status_and_regional.is_empty());
    assert_eq!(data.stations_in(Status::Ativo, "GR01"), 0);
}

#[test]
fn a_regional_named_as_the_label_of_those_without_joins_them_in_the_groups() {
    let stations = vec![
        station("1", Status::Ativo, Some("SEM_REGIONAL")),
        station("2", Status::Ativo, None),
    ];
    let data = Aggregator::group_by_status_and_regional(&stations);
    assert_eq!(data.by_regional.len(), 1);
    assert_eq!(ids(&data.by_regional[0].1), vec!["1", "2"]);
    assert_eq!(data.by_status_and_regional.len(), 1);
    assert_eq!(data.totals.without_regional, 2);
    assert!(data.totals.by_regional.is_empty());
    assert_eq!(Aggregator::region_label(&stations[0]), "SEM_REGIONAL");
    assert_eq!(Aggregator::region_label(&stations[1]), "SEM_REGIONAL");
}

#[test]
fn the_size_of_a_group_is_looked_up_by_status_and_label() {
    let data = Aggregator::group_by_status_and_regional(&sample());
    assert_eq!(data.stations_in(Status::Ativo, "GR02"), 2);
    assert_eq!(data.stations_in(Status::Ativo, "GR01"), 1);
    assert_eq!(data.stations_in(Status::Ativo, "SEM_REGIONAL"), 1);
    assert_eq!(data.stations_in(Status::Defeito, "UO021"), 2);
    assert_eq!(data.stations_in(Status::Baixa, "SEM_REGIONAL"), 1);
    assert_eq!(data.stations_in(Status::Defeito, "GR02"), 0);
    assert_eq!(data.stations_in(Status::Triagem, "GR02"), 0);
    assert_eq!(data.stations_in(Status::Ativo, "gr02"), 0);
}

#[test]
fn the_stations_given_are_left_as_they_are() {
    let stations = sample();
    let _ = Aggregator::group_by_status_and_regional(&stations);
    assert_eq!(ids(&stations), vec!["1", "2", "3", "4", "5", "6", "7"]);
    assert_eq!(stations[0].regional, Some(Regional("UO021".to_string())));
}

#[test]
fn a_missing_regional_and_one_written_as_the_label_of_those_without_count_alike() {
    let stations = sample();
    let written: Vec<EstacaoInfo> = stations
        .iter()
        .map(|e| match e.regional {
            Some(_) => e.clone(),
            None => station(&e.id, e.status, Some("SEM_REGIONAL")),
        })
        .collect();
    let d = Aggregator::group_by_status_and_regional(&stations);
    let d2 = Aggregator::group_by_status_and_regional(&written);
    assert_eq!(d.totals.without_regional, 2);
    assert_eq!(d2.totals.without_regional, d.totals.without_regional);
    assert_eq!(d2.totals.by_regional, d.totals.by_regional);
    assert_eq!(d2.totals.by_status, d.totals.by_status);
    assert_eq!(d2.totals.total, d.totals.total);
    let sizes = |data: &AggregatedData| -> Vec<(String, usize)> {
        data.by_regional.iter().map(|g| (g.0.clone(), g.1.len())).collect()
    };
    assert_eq!(sizes(&d2), sizes(&d));
    let cells = |data: &AggregatedData| -> Vec<((u8, String), usize)> {
        data.by_status_and_regional.iter().map(|(k, g)| (k.clone(), g.len())).collect()
    };
    assert_eq!(cells(&d2), cells(&d));
    let counted: usize = d2.totals.by_regional.iter().map(|c| c.1).sum();
    assert_eq!(counted + d2.totals.without_regional, written.len());
}

#[test]
fn an_aggregation_is_copied_whole() {
    let data = Aggregator::group_by_status_and_regional(&sample());
    let copy = data.clone();
    assert_eq!(copy.totals.total, data.totals.total);
    assert_eq!(copy.totals.by_status, data.totals.by_status);
    assert_eq!(copy.totals.by_regional, data.totals.by_regional);
    assert_eq!(copy.totals.without_regional, data.totals.without_regional);
    assert_eq!(copy.by_status.len(), data.by_status.len());
    assert_eq!(copy.by_regional.len(), data.by_regional.len());
    assert_eq!(matrix_keys(&copy), matrix_keys(&data));
    assert_eq!(copy.stations_in(Status::Ativo, "GR02"), 2);
    assert_eq!(ids(&copy.by_status[0].1), ids(&data.by_status[0].1));
}
