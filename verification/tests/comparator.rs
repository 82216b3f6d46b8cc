use estacoes_manager::models::common::{DataSource, EstacaoInfo, Regional, Status, TipoEstacao};
use estacoes_manager::services::comparator::Comparator;

fn zabbix(id: &str, nome: &str, status: Status, regional: Option<&str>) -> EstacaoInfo {
    EstacaoInfo::new(
        id.to_string(),
        nome.to_string(),
        status,
        regional.map(|r| Regional::new(r.to_string())),
        TipoEstacao::RFeye,
        DataSource::Zabbix,
    )
}

fn sharepoint(id: &str, status: Status, regional: Option<&str>) -> EstacaoInfo {
    EstacaoInfo::new(
        id.to_string(),
        id.to_string(),
        status,
        regional.map(|r| Regional::new(r.to_string())),
        TipoEstacao::RFeye,
        DataSource::SharePoint,
    )
}

#[test]
fn a_different_status_is_a_mismatch() {
    let a = vec![zabbix("RFeye0023", "RFeye0023", Status::Ativo, Some("GR01"))];
    let b = vec![sharepoint("23", Status::Defeito, None)];
    let r = Comparator::compare(a, b);
    assert_eq!(r.matching.len(), 0);
    assert_eq!(r.only_in_zabbix.len(), 0);
    assert_eq!(r.only_in_sharepoint.len(), 0);
    assert_eq!(r.status_mismatch.len(), 1);
    let m = &r.status_mismatch[0];
    assert_eq!(m.id, "23");
    assert_eq!(m.nome, "RFeye0023");
    assert_eq!(m.zabbix_status, Status::Ativo);
    assert_eq!(m.sharepoint_status, Status::Defeito);
    assert_eq!(m.zabbix_regional, Some(Regional("GR01".to_string())));
    assert_eq!(m.sharepoint_regional, None);
}

#[test]
fn the_same_status_is_a_match() {
    let a = vec![zabbix("10001", "RFeye002300", Status::Ativo, None)];
    let b = vec![sharepoint("2300", Status::Ativo, Some("UO021"))];
    let r = Comparator::compare(a, b);
    assert_eq!(r.matching.len(), 1);
    assert_eq!(r.status_mismatch.len(), 0);
    assert_eq!(r.only_in_zabbix.len(), 0);
    assert_eq!(r.only_in_sharepoint.len(), 0);
    assert_eq!(r.matching[0].0.id, "10001");
    assert_eq!(r.matching[0].0.source, DataSource::Zabbix);
    assert_eq!(r.matching[0].1.id, "2300");
    assert_eq!(r.matching[0].1.regional, Some(Regional("UO021".to_string())));
    assert_eq!(r.matching[0].1.source, DataSource::SharePoint);
}

#[test]
fn the_monitoring_source_is_joined_by_name_and_the_other_by_id() {
    let a = vec![zabbix("2300", "Sonda", Status::Ativo, None)];
    let b = vec![sharepoint("2300", Status::Ativo, None)];
    let r = Comparator::compare(a, b);
    assert_eq!(r.matching.len(), 0);
    assert_eq!(r.only_in_zabbix.len(), 1);
    assert_eq!(r.only_in_zabbix[0].nome, "Sonda");
    assert_eq!(r.only_in_sharepoint.len(), 1);
    assert_eq!(r.only_in_sharepoint[0].id, "2300");
    assert_eq!(
        Comparator::join_key(DataSource::Zabbix, &zabbix("2300", "RFeye0007", Status::Ativo, None)),
        "7"
    );
    assert_eq!(
        Comparator::join_key(
            DataSource::SharePoint,
            &zabbix("2300", "RFeye0007", Status::Ativo, None)
        ),
        "2300"
    );
}

#[test]
fn nothing_compared_gives_nothing() {
    let r = Comparator::compare(vec![], vec![]);
    assert!(r.matching.is_empty());
    assert!(r.status_mismatch.is_empty());
    assert!(r.only_in_zabbix.is_empty());
    assert!(r.only_in_sharepoint.is_empty());
    let r = Comparator::compare(vec![zabbix("1", "a", Status::Ativo, None)], vec![]);
    assert_eq!(r.only_in_zabbix.len(), 1);
    let r = Comparator::compare(vec![], vec![sharepoint("b", Status::Ativo, None)]);
    assert_eq!(r.only_in_sharepoint.len(), 1);
}

#[test]
fn the_last_station_with_a_key_stands_for_it() {
    let a = vec![
        zabbix("1", "RFeye0023", Status::Ativo, None),
        zabbix("2", "rfeye23", Status::Defeito, None),
        zabbix("3", "RFeye99", Status::Ativo, None),
        zabbix("4", "UMS99", Status::Baixa, None),
    ];
    let b = vec![
        sharepoint("23", Status::Ativo, None),
        sharepoint("0023", Status::Defeito, None),
        sharepoint("55", Status::Ativo, None),
        sharepoint("CWSM55", Status::Triagem, None),
    ];
    let r = Comparator::compare(a, b);
    assert_eq!(r.matching.len(), 1);
    assert_eq!(r.matching[0].0.id, "2");
    assert_eq!(r.matching[0].1.id, "0023");
    assert_eq!(r.status_mismatch.len(), 0);
    assert_eq!(r.only_in_zabbix.len(), 1);
    assert_eq!(r.only_in_zabbix[0].id, "4");
    assert_eq!(r.only_in_sharepoint.len(), 1);
    assert_eq!(r.only_in_sharepoint[0].id, "CWSM55");
}

#[test]
fn the_parts_partition_the_keys_of_both_sources() {
    let a = vec![
        zabbix("1", "RFeye0001", Status::Ativo, None),
        zabbix("2", "RFeye0002", Status::Ativo, None),
        zabbix("3", "RFeye0003", Status::Defeito, None),
        zabbix("4", "Sonda-A", Status::Ativo, None),
        zabbix("5", "MIAer-SP", Status::Ativo, None),
    ];
    let b = vec![
        sharepoint("1", Status::Ativo, None),
        sharepoint("0002", Status::Baixa, None),
        sharepoint("miaer-sp", Status::Ativo, None),
        sharepoint("UMS7", Status::Ativo, None),
        sharepoint("sonda-b", Status::Ativo, None),
    ];
    let r = Comparator::compare(a, b);
    let mut matched: Vec<String> =
        r.matching.iter().map(|p| Comparator::join_key(DataSource::Zabbix, &p.0)).collect();
    let mut mismatched: Vec<String> = r.status_mismatch.iter().map(|m| m.id.clone()).collect();
    let mut only_a: Vec<String> = r
        .only_in_zabbix
        .iter()
        .map(|e| Comparator::join_key(DataSource::Zabbix, e))
        .collect();
    let mut only_b: Vec<String> = r
        .only_in_sharepoint
        .iter()
        .map(|e| Comparator::join_key(DataSource::SharePoint, e))
        .collect();
    assert_eq!(matched, vec!["1", "miaer-sp"]);
    assert_eq!(mismatched, vec!["2"]);
    assert_eq!(only_a, vec!["3", "sonda-a"]);
    assert_eq!(only_b, vec!["7", "sonda-b"]);
    let mut all: Vec<String> = Vec::new();
    all.append(&mut matched);
    all.append(&mut mismatched);
    all.append(&mut only_a);
    all.append(&mut only_b);
    all.sort();
    let mut unique = all.clone();
    unique.dedup();
    assert_eq!(all, unique);
    assert_eq!(all, vec!["1", "2", "3", "7", "miaer-sp", "sonda-a", "sonda-b"]);
    for p in &r.matching {
        assert_eq!(p.0.status, p.1.status);
        assert_eq!(
            Comparator::join_key(DataSource::Zabbix, &p.0),
            Comparator::join_key(DataSource::SharePoint, &p.1)
        );
    }
}

#[test]
fn a_mismatch_carries_both_regionals() {
    let a = vec![zabbix("1", "ERMx0005", Status::Manutencao, Some("GR02"))];
    let b = vec![sharepoint("ermx5", Status::Litigio, Some("UO072"))];
    let r = Comparator::compare(a, b);
    assert_eq!(r.status_mismatch.len(), 1);
    let m = &r.status_mismatch[0];
    assert_eq!(m.id, "5");
    assert_eq!(m.nome, "ERMx0005");
    assert_eq!(m.zabbix_status, Status::Manutencao);
    assert_eq!(m.sharepoint_status, Status::Litigio);
    assert_eq!(m.zabbix_regional, Some(Regional("GR02".to_string())));
    assert_eq!(m.sharepoint_regional, Some(Regional("UO072".to_string())));
}
