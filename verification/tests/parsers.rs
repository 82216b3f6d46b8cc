use estacoes_manager::error::AppError;
use estacoes_manager::models::common::{DataSource, Regional, Status, TipoEstacao};
use estacoes_manager::models::sharepoint::SharePointRecord;
use estacoes_manager::models::zabbix::{ZabbixGroup, ZabbixHost};
use estacoes_manager::parsers::csv_parser::CsvParser;
use estacoes_manager::parsers::zabbix_parser::ZabbixParser;

fn row(id: &str, situacao: &str, tipo: Option<&str>, detentor: Option<&str>) -> SharePointRecord {
    SharePointRecord {
        uf: None,
        municipio: None,
        local: None,
        detentor: detentor.map(|s| s.to_string()),
        tipo_estacao: tipo.map(|s| s.to_string()),
        id_rede: id.to_string(),
        situacao: situacao.to_string(),
        situacao_litigio: None,
        instrumento_fiscaliza: None,
        link_zabbix: None,
        ip_openvpn: None,
        patrimonio: None,
        observacoes: None,
        pendencia: None,
        acoes: None,
        responsavel: None,
        modificado: None,
        modificado_por: None,
    }
}

fn group(groupid: &str, name: &str) -> ZabbixGroup {
    ZabbixGroup {
        groupid: groupid.to_string(),
        name: name.to_string(),
        internal: None,
        flags: None,
        uuid: None,
    }
}

fn host(hostid: &str, name: &str, groups: Vec<ZabbixGroup>) -> ZabbixHost {
    ZabbixHost { hostid: hostid.to_string(), host: name.to_string(), name: name.to_string(), groups }
}

fn regional_of(detentor: &str) -> Option<Regional> {
    CsvParser::extract_regional(&row("1", "Ativo", None, Some(detentor)))
}

#[test]
fn rows_become_stations_one_for_one() {
    let rows = vec![
        row("RFeye002300", "Ativo", Some("RFeye"), Some("Anatel GR01")),
        row("23", "Disponível", None, None),
        row("ums300-1", "BAIXA", None, Some("UO021,GR05")),
    ];
    let stations = CsvParser::to_estacao_info(rows).unwrap();
    assert_eq!(stations.len(), 3);
    assert_eq!(stations[0].id, "RFeye002300");
    assert_eq!(stations[0].nome, "RFeye002300");
    assert_eq!(stations[0].status, Status::Ativo);
    assert_eq!(stations[0].regional, Some(Regional("GR01".to_string())));
    assert_eq!(stations[0].tipo, TipoEstacao::RFeye);
    assert_eq!(stations[0].source, DataSource::SharePoint);
    assert_eq!(stations[1].id, "23");
    assert_eq!(stations[1].status, Status::Disponivel);
    assert_eq!(stations[1].regional, None);
    assert_eq!(stations[1].tipo, TipoEstacao::Outro("23".to_string()));
    assert_eq!(stations[2].status, Status::Baixa);
    assert_eq!(stations[2].regional, Some(Regional("UO021".to_string())));
    assert_eq!(stations[2].tipo, TipoEstacao::UMS300);
}

#[test]
fn no_rows_give_no_stations() {
    assert_eq!(CsvParser::to_estacao_info(vec![]).unwrap().len(), 0);
    assert_eq!(ZabbixParser::to_estacao_info(vec![]).unwrap().len(), 0);
}

#[test]
fn an_unknown_situation_fails_the_whole_batch() {
    let rows = vec![
        row("1", "Ativo", None, None),
        row("2", "Quebrado", None, None),
        row("3", "Defeito", None, None),
    ];
    match CsvParser::to_estacao_info(rows) {
        Err(AppError::InvalidStatus(label)) => assert_eq!(label, "Quebrado"),
        other => panic!("expected an invalid status, got {:?}", other),
    }
    match CsvParser::to_estacao_info(vec![row("9", "Quebrado", None, None)]) {
        Err(e) => assert_eq!(e.to_string(), "Status inválido: Quebrado"),
        Ok(stations) => panic!("expected a failure, got {} stations", stations.len()),
    }
}

#[test]
fn the_first_unknown_situation_is_the_one_reported() {
    let rows = vec![
        row("1", "Ativo", None, None),
        row("2", "Parado", None, None),
        row("3", "Quebrado", None, None),
    ];
    match CsvParser::to_estacao_info(rows) {
        Err(AppError::InvalidStatus(label)) => assert_eq!(label, "Parado"),
        other => panic!("expected an invalid status, got {:?}", other),
    }
    match CsvParser::to_estacao_info(vec![row("1", "", None, None)]) {
        Err(AppError::InvalidStatus(label)) => assert_eq!(label, ""),
        other => panic!("expected an invalid status, got {:?}", other),
    }
}

#[test]
fn the_regional_of_a_row_is_the_first_token_with_a_prefix() {
    assert_eq!(regional_of("GR01"), Some(Regional("GR01".to_string())));
    assert_eq!(regional_of("Anatel GR01"), Some(Regional("GR01".to_string())));
    assert_eq!(regional_of("Anatel,UO021 GR01"), Some(Regional("UO021".to_string())));
    assert_eq!(regional_of("a, b,,GR7,"), Some(Regional("GR7".to_string())));
    assert_eq!(regional_of("GR"), Some(Regional("GR".to_string())));
    assert_eq!(regional_of("x GR01-SP;y"), Some(Regional("GR01-SP;y".to_string())));
    assert_eq!(regional_of("xGR01"), None);
    assert_eq!(regional_of("gr01 uo2"), None);
    assert_eq!(regional_of("G R01"), None);
    assert_eq!(regional_of("Anatel\tGR01"), Some(Regional("GR01".to_string())));
    assert_eq!(regional_of("Anatel\nUO7\r\nGR01"), Some(Regional("UO7".to_string())));
    assert_eq!(regional_of("Anatel\u{a0}GR01\u{2003}x"), Some(Regional("GR01".to_string())));
    assert_eq!(regional_of("Anatel;GR01"), None);
    assert_eq!(regional_of("Anatel-GR01"), None);
    assert_eq!(regional_of(""), None);
    assert_eq!(regional_of(" , "), None);
    assert_eq!(CsvParser::extract_regional(&row("1", "Ativo", None, None)), None);
}

#[test]
fn the_tipo_of_a_row_comes_from_its_column_or_its_id() {
    let tipo = |id: &str, t: Option<&str>| CsvParser::extract_tipo(&row(id, "Ativo", t, None));
    assert_eq!(tipo("x", Some("MIAer")), TipoEstacao::MIAer);
    assert_eq!(tipo("RFeye01", Some("UMS300")), TipoEstacao::UMS300);
    assert_eq!(tipo("RFeye01", Some("Sonda")), TipoEstacao::Outro("Sonda".to_string()));
    assert_eq!(tipo("RFeye01", Some("")), TipoEstacao::Outro(String::new()));
    assert_eq!(tipo("RFEYE01", None), TipoEstacao::RFeye);
    assert_eq!(tipo("MIAer-SP", None), TipoEstacao::MIAer);
    assert_eq!(tipo("CWSM212030", None), TipoEstacao::CelWirelessRMU);
    assert_eq!(tipo("Ums300", None), TipoEstacao::UMS300);
    assert_eq!(tipo("ERMx-1", None), TipoEstacao::ERMx);
    assert_eq!(tipo("Sonda-1", None), TipoEstacao::Outro("Sonda-1".to_string()));
}

#[test]
fn hosts_become_stations_one_for_one() {
    let hosts = vec![
        host("10", "RFeye002300", vec![group("54", "Estações ativas"), group("9", "GR01")]),
        host("11", "Sonda 7", vec![group("1", "Manutenção"), group("2", "Estacoes MIAer")]),
        host("12", "cwsm01", vec![]),
    ];
    let stations = ZabbixParser::to_estacao_info(hosts).unwrap();
    assert_eq!(stations.len(), 3);
    assert_eq!(stations[0].id, "10");
    assert_eq!(stations[0].nome, "RFeye002300");
    assert_eq!(stations[0].status, Status::Ativo);
    assert_eq!(stations[0].regional, Some(Regional("GR01".to_string())));
    assert_eq!(stations[0].tipo, TipoEstacao::RFeye);
    assert_eq!(stations[0].source, DataSource::Zabbix);
    assert_eq!(stations[1].id, "11");
    assert_eq!(stations[1].status, Status::Manutencao);
    assert_eq!(stations[1].regional, None);
    assert_eq!(stations[1].tipo, TipoEstacao::MIAer);
    assert_eq!(stations[2].status, Status::Desconhecido);
    assert_eq!(stations[2].regional, None);
    assert_eq!(stations[2].tipo, TipoEstacao::CelWirelessRMU);
}

#[test]
fn the_status_of_a_host_comes_from_the_first_telling_group() {
    let status = |groups: Vec<ZabbixGroup>| ZabbixParser::extract_status(&host("1", "h", groups));
    assert_eq!(status(vec![group("54", "x")]), Some(Status::Ativo));
    assert_eq!(status(vec![group("48", "x")]), Some(Status::Defeito));
    assert_eq!(status(vec![group("122", "x")]), Some(Status::Disponivel));
    assert_eq!(status(vec![group("58", "x")]), Some(Status::Nomadico));
    assert_eq!(status(vec![group("120", "x")]), Some(Status::Litigio));
    assert_eq!(status(vec![group("1", "DISPONÍVEL")]), Some(Status::Disponivel));
    assert_eq!(status(vec![group("1", "Nomádico")]), Some(Status::Nomadico));
    assert_eq!(status(vec![group("1", "Litígio")]), Some(Status::Litigio));
    assert_eq!(status(vec![group("1", "Manutenção")]), Some(Status::Manutencao));
    assert_eq!(status(vec![group("1", "triagem")]), Some(Status::Triagem));
    assert_eq!(status(vec![group("1", "Baixa")]), Some(Status::Baixa));
    assert_eq!(status(vec![group("1", "GR01"), group("2", "Defeito"), group("54", "x")]),
        Some(Status::Defeito));
    assert_eq!(status(vec![group("54", "Defeito")]), Some(Status::Ativo));
    assert_eq!(status(vec![group("540", "Estações ativas")]), None);
    assert_eq!(status(vec![]), None);
}

#[test]
fn the_status_of_a_group_id_is_exact() {
    assert_eq!(ZabbixParser::status_by_group_id("54"), Some(Status::Ativo));
    assert_eq!(ZabbixParser::status_by_group_id("48"), Some(Status::Defeito));
    assert_eq!(ZabbixParser::status_by_group_id("122"), Some(Status::Disponivel));
    assert_eq!(ZabbixParser::status_by_group_id("58"), Some(Status::Nomadico));
    assert_eq!(ZabbixParser::status_by_group_id("120"), Some(Status::Litigio));
    assert_eq!(ZabbixParser::status_by_group_id("054"), None);
    assert_eq!(ZabbixParser::status_by_group_id(""), None);
}

#[test]
fn the_regional_of_a_host_is_its_first_group_with_a_prefix() {
    let regional =
        |groups: Vec<ZabbixGroup>| ZabbixParser::extract_regional(&host("1", "h", groups));
    assert_eq!(
        regional(vec![group("1", "Ativo"), group("2", "UO021 - x"), group("3", "GR01")]),
        Some(Regional("UO021 - x".to_string()))
    );
    assert_eq!(regional(vec![group("1", "GR01")]), Some(Regional("GR01".to_string())));
    assert_eq!(regional(vec![group("1", "Regional GR01")]), None);
    assert_eq!(regional(vec![]), None);
}

#[test]
fn the_tipo_of_a_host_comes_from_its_name_or_its_groups() {
    let tipo = |name: &str, groups: Vec<ZabbixGroup>| {
        ZabbixParser::extract_tipo(&host("1", name, groups))
    };
    assert_eq!(tipo("RFeye002300", vec![group("1", "MIAer")]), TipoEstacao::RFeye);
    assert_eq!(tipo("UMS300-2", vec![]), TipoEstacao::UMS300);
    assert_eq!(tipo("Sonda", vec![group("1", "x"), group("2", "Rede ERM-x")]), TipoEstacao::ERMx);
    assert_eq!(
        tipo("Sonda", vec![group("1", "MIAER"), group("2", "rfeye")]),
        TipoEstacao::MIAer
    );
    assert_eq!(tipo("Sonda", vec![group("1", "CWSM")]), TipoEstacao::CelWirelessRMU);
    assert_eq!(tipo("EST-01", vec![group("1", "CWSM Norte")]), TipoEstacao::CelWirelessRMU);
    assert_eq!(tipo("EST-02", vec![group("1", "x"), group("2", "Rede UMS300")]), TipoEstacao::UMS300);
    assert_eq!(
        tipo("EST-03", vec![group("1", "ums e rfeye"), group("2", "miaer")]),
        TipoEstacao::RFeye
    );
    assert_eq!(tipo("Sonda", vec![group("1", "Regional")]), TipoEstacao::Outro("Sonda".to_string()));
    assert_eq!(tipo("Sonda", vec![]), TipoEstacao::Outro("Sonda".to_string()));
}
