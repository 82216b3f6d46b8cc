use estacoes_manager::models::common::{
    clone_regional, named_regional, spells, DataSource, EstacaoInfo, Regional, Status,
    TipoEstacao,
};
use estacoes_manager::models::zabbix::{ZabbixGroup, ZabbixHost};

fn group_named(groupid: &str, name: &str) -> ZabbixGroup {
    ZabbixGroup {
        groupid: groupid.to_string(),
        name: name.to_string(),
        internal: None,
        flags: None,
        uuid: None,
    }
}

fn host_with(groups: Vec<ZabbixGroup>) -> ZabbixHost {
    ZabbixHost {
        hostid: "10".to_string(),
        host: "h".to_string(),
        name: "RFeye002300".to_string(),
        groups,
    }
}

#[test]
fn status_is_resolved_from_its_labels() {
    assert_eq!(Status::from_str("ativo"), Some(Status::Ativo));
    assert_eq!(Status::from_str("Ativo"), Some(Status::Ativo));
    assert_eq!(Status::from_str("DEFEITO"), Some(Status::Defeito));
    assert_eq!(Status::from_str("Disponível"), Some(Status::Disponivel));
    assert_eq!(Status::from_str("DISPONÍVEL"), Some(Status::Disponivel));
    assert_eq!(Status::from_str("disponivel"), Some(Status::Disponivel));
    assert_eq!(Status::from_str("Triagem"), Some(Status::Triagem));
    assert_eq!(Status::from_str("Manutenção"), Some(Status::Manutencao));
    assert_eq!(Status::from_str("manutencao"), Some(Status::Manutencao));
    assert_eq!(Status::from_str("Nomádico"), Some(Status::Nomadico));
    assert_eq!(Status::from_str("nomadico"), Some(Status::Nomadico));
    assert_eq!(Status::from_str("Litígio"), Some(Status::Litigio));
    assert_eq!(Status::from_str("litigio"), Some(Status::Litigio));
    assert_eq!(Status::from_str("Baixa"), Some(Status::Baixa));
}

#[test]
fn status_is_not_resolved_from_other_labels() {
    assert_eq!(Status::from_str("Quebrado"), None);
    assert_eq!(Status::from_str(""), None);
    assert_eq!(Status::from_str("desconhecido"), None);
    assert_eq!(Status::from_str(" ativo"), None);
    assert_eq!(Status::from_str("ativo "), None);
}

#[test]
fn status_from_lowercase_is_exact() {
    assert_eq!(Status::from_lowercase("ativo"), Some(Status::Ativo));
    assert_eq!(Status::from_lowercase("Ativo"), None);
    assert_eq!(Status::from_lowercase("disponível"), Some(Status::Disponivel));
    assert_eq!(Status::from_lowercase("baixa"), Some(Status::Baixa));
    assert_eq!(Status::from_lowercase("baixas"), None);
}

#[test]
fn status_has_a_display_name() {
    assert_eq!(Status::Ativo.to_string(), "Ativo");
    assert_eq!(Status::Defeito.to_string(), "Defeito");
    assert_eq!(Status::Disponivel.to_string(), "Disponível");
    assert_eq!(Status::Triagem.to_string(), "Triagem");
    assert_eq!(Status::Desconhecido.to_string(), "Desconhecido");
    assert_eq!(Status::Manutencao.to_string(), "Manutenção");
    assert_eq!(Status::Nomadico.to_string(), "Nomádico");
    assert_eq!(Status::Litigio.to_string(), "Litígio");
    assert_eq!(Status::Baixa.to_string(), "Baixa");
}

#[test]
fn status_rank_follows_the_order_of_the_statuses() {
    let all = [
        Status::Ativo,
        Status::Defeito,
        Status::Disponivel,
        Status::Triagem,
        Status::Desconhecido,
        Status::Manutencao,
        Status::Nomadico,
        Status::Litigio,
        Status::Baixa,
    ];
    for (i, s) in all.iter().enumerate() {
        assert_eq!(s.rank() as usize, i);
        assert_eq!(Status::from_rank(i as u8), Some(*s));
    }
    for pair in all.windows(2) {
        assert!(pair[0] < pair[1]);
        assert!(pair[0].rank() < pair[1].rank());
    }
    assert_eq!(Status::from_rank(9), None);
    assert_eq!(Status::from_rank(255), None);
}

#[test]
fn tipo_is_mapped_from_its_exact_name() {
    assert_eq!(TipoEstacao::from_str("RFeye"), TipoEstacao::RFeye);
    assert_eq!(TipoEstacao::from_str("MIAer"), TipoEstacao::MIAer);
    assert_eq!(TipoEstacao::from_str("CelWireless RMU"), TipoEstacao::CelWirelessRMU);
    assert_eq!(TipoEstacao::from_str("UMS300"), TipoEstacao::UMS300);
    assert_eq!(TipoEstacao::from_str("ERM-x"), TipoEstacao::ERMx);
    assert_eq!(TipoEstacao::from_str("ERMx"), TipoEstacao::ERMx);
    assert_eq!(TipoEstacao::from_str("rfeye"), TipoEstacao::Outro("rfeye".to_string()));
    assert_eq!(TipoEstacao::from_str(""), TipoEstacao::Outro(String::new()));
    assert_eq!(TipoEstacao::from_str("Sonda X"), TipoEstacao::Outro("Sonda X".to_string()));
}

#[test]
fn tipo_has_a_display_name() {
    assert_eq!(TipoEstacao::RFeye.to_string(), "RFeye");
    assert_eq!(TipoEstacao::MIAer.to_string(), "MIAer");
    assert_eq!(TipoEstacao::CelWirelessRMU.to_string(), "CelWireless RMU");
    assert_eq!(TipoEstacao::UMS300.to_string(), "UMS300");
    assert_eq!(TipoEstacao::ERMx.to_string(), "ERM-x");
    assert_eq!(TipoEstacao::Outro("Sonda".to_string()).to_string(), "Sonda");
}

#[test]
fn tipo_is_inferred_from_a_name_in_priority_order() {
    assert_eq!(TipoEstacao::infer_from_name("rfeye002300"), Some(TipoEstacao::RFeye));
    assert_eq!(TipoEstacao::infer_from_name("x-miaer-1"), Some(TipoEstacao::MIAer));
    assert_eq!(TipoEstacao::infer_from_name("cwsm212030"), Some(TipoEstacao::CelWirelessRMU));
    assert_eq!(TipoEstacao::infer_from_name("ums300"), Some(TipoEstacao::UMS300));
    assert_eq!(TipoEstacao::infer_from_name("ermx01"), Some(TipoEstacao::ERMx));
    assert_eq!(TipoEstacao::infer_from_name("erm"), Some(TipoEstacao::ERMx));
    assert_eq!(TipoEstacao::infer_from_name("ums and rfeye"), Some(TipoEstacao::RFeye));
    assert_eq!(TipoEstacao::infer_from_name("erm miaer"), Some(TipoEstacao::MIAer));
    assert_eq!(TipoEstacao::infer_from_name("RFEYE"), None);
    assert_eq!(TipoEstacao::infer_from_name(""), None);
    assert_eq!(TipoEstacao::infer_from_name("estacao 12"), None);
}

#[test]
fn regional_is_known_by_its_prefix() {
    assert!(Regional::is_token(&vec!['G', 'R', '0', '1']));
    assert!(Regional::is_token(&vec!['U', 'O', '2']));
    assert!(Regional::is_token(&vec!['G', 'R']));
    assert!(!Regional::is_token(&vec!['G']));
    assert!(!Regional::is_token(&vec!['g', 'r', '1']));
    assert!(!Regional::is_token(&vec![' ', 'G', 'R']));
    assert!(!Regional::is_token(&vec![]));
    let r = Regional::new("GR01".to_string());
    assert_eq!(r.0, "GR01");
    assert_eq!(r.to_string(), "GR01");
    assert_eq!(r.clone(), r);
    assert_eq!(clone_regional(&Some(r.clone())), Some(r));
    assert_eq!(clone_regional(&None), None);
}

#[test]
fn a_regional_written_as_the_label_of_those_without_names_none() {
    let gr = Some(Regional::new("GR01".to_string()));
    assert_eq!(named_regional(&gr), gr.as_ref());
    assert_eq!(named_regional(&Some(Regional::new("SEM_REGIONAL".to_string()))), None);
    assert_eq!(named_regional(&None), None);
    let near = Some(Regional::new("SEM_REGIONAL ".to_string()));
    assert_eq!(named_regional(&near), near.as_ref());
    let lower = Some(Regional::new("sem_regional".to_string()));
    assert_eq!(named_regional(&lower), lower.as_ref());
}

#[test]
fn data_source_has_a_display_name() {
    assert_eq!(DataSource::Zabbix.to_string(), "Zabbix");
    assert_eq!(DataSource::SharePoint.to_string(), "SharePoint");
}

#[test]
fn a_station_is_built_and_copied_field_by_field() {
    let e = EstacaoInfo::new(
        "10".to_string(),
        "RFeye0010".to_string(),
        Status::Ativo,
        Some(Regional::new("GR01".to_string())),
        TipoEstacao::Outro("x".to_string()),
        DataSource::Zabbix,
    );
    let c = e.clone();
    assert_eq!(c.id, "10");
    assert_eq!(c.nome, "RFeye0010");
    assert_eq!(c.status, Status::Ativo);
    assert_eq!(c.regional, Some(Regional("GR01".to_string())));
    assert_eq!(c.tipo, TipoEstacao::Outro("x".to_string()));
    assert_eq!(c.source, DataSource::Zabbix);
    assert_eq!(TipoEstacao::UMS300.clone(), TipoEstacao::UMS300);
}

#[test]
fn spells_compares_with_a_word() {
    assert!(spells(&vec!['o', 'k'], "ok"));
    assert!(!spells(&vec!['o', 'k'], "ko"));
    assert!(!spells(&vec!['o'], "ok"));
}

#[test]
fn the_first_group_with_an_id_is_found() {
    let host = host_with(vec![
        group_named("7", "first"),
        group_named("54", "Ativo"),
        group_named("7", "second"),
    ]);
    assert_eq!(host.get_group_by_id("7").map(|g| g.name.as_str()), Some("first"));
    assert_eq!(host.get_group_by_id("54").map(|g| g.name.as_str()), Some("Ativo"));
    assert!(host.get_group_by_id("5").is_none());
    assert!(host_with(vec![]).get_group_by_id("7").is_none());
}

#[test]
fn the_groups_with_a_name_prefix_are_found_in_order() {
    let host = host_with(vec![
        group_named("1", "GR01"),
        group_named("2", "Ativo"),
        group_named("3", "GR02"),
        group_named("4", "xGR"),
    ]);
    let found: Vec<&str> =
        host.get_groups_by_name_prefix("GR").iter().map(|g| g.groupid.as_str()).collect();
    assert_eq!(found, vec!["1", "3"]);
    assert_eq!(host.get_groups_by_name_prefix("").len(), 4);
    assert!(host.get_groups_by_name_prefix("UO").is_empty());
}
