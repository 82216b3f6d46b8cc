use crate::config::{
    STATUS_ATIVO, STATUS_DEFEITO, STATUS_DISPONIVEL, STATUS_LITIGIO, STATUS_NOMADICO,
};
use crate::error::Result;
use crate::models::common::{
    has_regional_prefix, regional_view, status_of_label, tipo_in_name, DataSource, EstacaoInfo,
    EstacaoInfoView, Regional, Status, TipoEstacao, TipoEstacaoView,
};
use crate::models::zabbix::{ZabbixGroup, ZabbixHost};
use crate::utils::normalizer::{normalized_text, Normalizer};
use crate::utils::text::{chars_of, lowercase, same_chars, to_lowercase};
use vstd::prelude::*;

verus! {

/// The ingestion of the hosts of the monitoring source.
pub struct ZabbixParser;

/// The status that the id of a group stands for, if it is one of the known
/// ids.
pub open spec fn status_of_group_id(groupid: Seq<char>) -> Option<Status> {
    if groupid == STATUS_ATIVO@ {
        Some(Status::Ativo)
    } else if groupid == STATUS_DEFEITO@ {
        Some(Status::Defeito)
    } else if groupid == STATUS_DISPONIVEL@ {
        Some(Status::Disponivel)
    } else if groupid == STATUS_NOMADICO@ {
        Some(Status::Nomadico)
    } else if groupid == STATUS_LITIGIO@ {
        Some(Status::Litigio)
    } else {
        None
    }
}

/// The status that a group tells of: the one of its id, and where the id is
/// not a known one, the one that its name, without accents and in lowercase,
/// is a label of.
pub open spec fn group_status(group: ZabbixGroup) -> Option<Status> {
    match status_of_group_id(group.groupid@) {
        Some(status) => Some(status),
        None => status_of_label(lowercase(normalized_text(group.name@))),
    }
}

/// The status that the first of the groups to tell of one tells of.
pub open spec fn first_group_status(groups: Seq<ZabbixGroup>) -> Option<Status>
    decreases groups.len(),
{
    if groups.len() == 0 {
        None
    } else {
        match group_status(groups[0]) {
            Some(status) => Some(status),
            None => first_group_status(groups.skip(1)),
        }
    }
}

/// The name of the first of the groups that is named as a regional unit is.
pub open spec fn first_group_regional(groups: Seq<ZabbixGroup>) -> Option<Seq<char>>
    decreases groups.len(),
{
    if groups.len() == 0 {
        None
    } else if has_regional_prefix(groups[0].name@) {
        Some(groups[0].name@)
    } else {
        first_group_regional(groups.skip(1))
    }
}

/// The hardware type that the first of the groups to tell of one tells of:
/// the name of a group is searched for the same marks as that of a host.
pub open spec fn first_group_tipo(groups: Seq<ZabbixGroup>) -> Option<TipoEstacaoView>
    decreases groups.len(),
{
    if groups.len() == 0 {
        None
    } else {
        match tipo_in_name(lowercase(groups[0].name@)) {
            Some(tipo) => Some(tipo),
            None => first_group_tipo(groups.skip(1)),
        }
    }
}

/// The status of a host: the one that its groups tell of, and unknown where
/// they tell of none.
pub open spec fn host_status(host: ZabbixHost) -> Status {
    match first_group_status(host.groups@) {
        Some(status) => status,
        None => Status::Desconhecido,
    }
}

/// The hardware type of a host: the one that its name tells of, else the
/// one that its groups tell of, else its name as a free-form type.
pub open spec fn host_tipo(host: ZabbixHost) -> TipoEstacaoView {
    match tipo_in_name(lowercase(host.name@)) {
        Some(tipo) => tipo,
        None => match first_group_tipo(host.groups@) {
            Some(tipo) => tipo,
            None => TipoEstacaoView::Outro(host.name@),
        },
    }
}

/// The station that a host describes.
pub open spec fn host_station(host: ZabbixHost) -> EstacaoInfoView {
    EstacaoInfoView {
        id: host.hostid@,
        nome: host.name@,
        status: host_status(host),
        regional: first_group_regional(host.groups@),
        tipo: host_tipo(host),
        source: DataSource::Zabbix,
    }
}

/// Whether the id of a group is the known id `known`.
fn is_id(groupid: &Vec<char>, known: &str) -> (r: bool)
    ensures
        r == (groupid@ == known@),
{
    let k = chars_of(known);
    same_chars(groupid, &k)
}

impl ZabbixParser {
    /// The status that the id of a group stands for, if it is one of the
    /// known ids.
    pub fn status_by_group_id(groupid: &str) -> (status: Option<Status>)
        ensures
            status == status_of_group_id(groupid@),
    {
        let id = chars_of(groupid);
        if is_id(&id, STATUS_ATIVO) {
            Some(Status::Ativo)
        } else if is_id(&id, STATUS_DEFEITO) {
            Some(Status::Defeito)
        } else if is_id(&id, STATUS_DISPONIVEL) {
            Some(Status::Disponivel)
        } else if is_id(&id, STATUS_NOMADICO) {
            Some(Status::Nomadico)
        } else if is_id(&id, STATUS_LITIGIO) {
            Some(Status::Litigio)
        } else {
            None
        }
    }

    /// The status of a host: that of the first of its groups that tells of
    /// one, by its id or else by its name.
    pub fn extract_status(host: &ZabbixHost) -> (status: Option<Status>)
        ensures
            status == first_group_status(host.groups@),
    {
        let mut i: usize = 0;
        assert(host.groups@.skip(0) == host.groups@);
        while i < host.groups.len()
            invariant
                i <= host.groups.len(),
                first_group_status(host.groups@) == first_group_status(
                    host.groups@.skip(i as int),
                ),
            decreases host.groups.len() - i,
        {
            let group = &host.groups[i];
            proof {
                assert(host.groups@.skip(i as int)[0] == *group);
                assert(host.groups@.skip(i as int).skip(1) == host.groups@.skip(i + 1));
            }
            match ZabbixParser::status_by_group_id(group.groupid.as_str()) {
                Some(status) => {
                    return Some(status);
                },
                None => {},
            }
            let plain = Normalizer::normalize_text(group.name.as_str());
            let label = to_lowercase(plain.as_str());
            match Status::from_lowercase(label.as_str()) {
                Some(status) => {
                    return Some(status);
                },
                None => {},
            }
            i += 1;
        }
        None
    }

    /// The regional unit of a host: the first of its groups that is named
    /// as a regional unit is.
    pub fn extract_regional(host: &ZabbixHost) -> (regional: Option<Regional>)
        ensures
            regional_view(regional) == first_group_regional(host.groups@),
    {
        let mut i: usize = 0;
        assert(host.groups@.skip(0) == host.groups@);
        while i < host.groups.len()
            invariant
                i <= host.groups.len(),
                first_group_regional(host.groups@) == first_group_regional(
                    host.groups@.skip(i as int),
                ),
            decreases host.groups.len() - i,
        {
            let group = &host.groups[i];
            proof {
                assert(host.groups@.skip(i as int)[0] == *group);
                assert(host.groups@.skip(i as int).skip(1) == host.groups@.skip(i + 1));
            }
            let name = chars_of(group.name.as_str());
            if Regional::is_token(&name) {
                return Some(Regional::new(group.name.clone()));
            }
            i += 1;
        }
        None
    }

    /// The hardware type of a host: the one that its name tells of, else
    /// the one that the first of its groups to tell of one tells of, the
    /// names of the groups being searched as that of the host is, else its
    /// name as a free-form type.
    pub fn extract_tipo(host: &ZabbixHost) -> (tipo: TipoEstacao)
        ensures
            tipo@ == host_tipo(*host),
    {
        let nome = to_lowercase(host.name.as_str());
        match TipoEstacao::infer_from_name(nome.as_str()) {
            Some(tipo) => {
                return tipo;
            },
            None => {},
        }
        let mut i: usize = 0;
        assert(host.groups@.skip(0) == host.groups@);
        while i < host.groups.len()
            invariant
                i <= host.groups.len(),
                tipo_in_name(lowercase(host.name@)) is None,
                first_group_tipo(host.groups@) == first_group_tipo(host.groups@.skip(i as int)),
            decreases host.groups.len() - i,
        {
            let group = &host.groups[i];
            proof {
                assert(host.groups@.skip(i as int)[0] == *group);
                assert(host.groups@.skip(i as int).skip(1) == host.groups@.skip(i + 1));
            }
            let group_name = to_lowercase(group.name.as_str());
            match TipoEstacao::infer_from_name(group_name.as_str()) {
                Some(tipo) => {
                    return tipo;
                },
                None => {},
            }
            i += 1;
        }
        TipoEstacao::Outro(host.name.clone())
    }

    /// Turns the hosts of the monitoring source into stations, one for each
    /// host and in the order of the hosts. A host whose groups tell of no
    /// status gets the unknown status: this never fails.
    pub fn to_estacao_info(hosts: Vec<ZabbixHost>) -> (result: Result<Vec<EstacaoInfo>>)
        ensures
            result matches Ok(stations) && stations.len() == hosts.len() && forall|i: int|
                0 <= i < stations.len() ==> (#[trigger] stations[i])@ == host_station(hosts[i]),
    {
        let mut estacoes: Vec<EstacaoInfo> = Vec::new();
        let mut i: usize = 0;
        while i < hosts.len()
            invariant
                i <= hosts.len(),
                estacoes.len() == i,
                forall|j: int| 0 <= j < i ==> (#[trigger] estacoes[j])@ == host_station(hosts[j]),
            decreases hosts.len() - i,
        {
            let host = &hosts[i];
            let status = match ZabbixParser::extract_status(host) {
                Some(status) => status,
                None => Status::Desconhecido,
            };
            let regional = ZabbixParser::extract_regional(host);
            let tipo = ZabbixParser::extract_tipo(host);
            let estacao = EstacaoInfo::new(
                host.hostid.clone(),
                host.name.clone(),
                status,
                regional,
                tipo,
                DataSource::Zabbix,
            );
            estacoes.push(estacao);
            i += 1;
        }
        Ok(estacoes)
    }
}

} // verus!
