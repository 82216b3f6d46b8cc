use vstd::prelude::*;

verus! {

/// One row of the tabular source, by its columns.
#[derive(Debug, Clone)]
pub struct SharePointRecord {
    pub uf: Option<String>,
    pub municipio: Option<String>,
    pub local: Option<String>,
    pub detentor: Option<String>,
    pub tipo_estacao: Option<String>,
    pub id_rede: String,
    pub situacao: String,
    pub situacao_litigio: Option<String>,
    pub instrumento_fiscaliza: Option<String>,
    pub link_zabbix: Option<String>,
    pub ip_openvpn: Option<String>,
    pub patrimonio: Option<String>,
    pub observacoes: Option<String>,
    pub pendencia: Option<String>,
    pub acoes: Option<String>,
    pub responsavel: Option<String>,
    pub modificado: Option<String>,
    pub modificado_por: Option<String>,
}

} // verus!
