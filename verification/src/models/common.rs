use crate::config::{REGIONAL_PREFIX_GR, REGIONAL_PREFIX_UO, SEM_REGIONAL};
use crate::utils::text::{
    chars_contain, chars_match_at, chars_of, lowercase, occurs_in, same_chars, starts_with,
    to_lowercase,
};
use vstd::prelude::*;

verus! {

/// The canonical status of a station.
#[derive(Debug, Clone, Copy, PartialEq, Eq, Structural, PartialOrd, Ord, Hash)]
pub enum Status {
    Ativo,
    Defeito,
    Disponivel,
    Triagem,
    Desconhecido,
    Manutencao,
    Nomadico,
    Litigio,
    Baixa,
}

/// The status that a lowercase label stands for, if any.
pub open spec fn status_of_label(label: Seq<char>) -> Option<Status> {
    if label == "ativo"@ {
        Some(Status::Ativo)
    } else if label == "defeito"@ {
        Some(Status::Defeito)
    } else if label == "disponível"@ || label == "disponivel"@ {
        Some(Status::Disponivel)
    } else if label == "triagem"@ {
        Some(Status::Triagem)
    } else if label == "manutenção"@ || label == "manutencao"@ {
        Some(Status::Manutencao)
    } else if label == "nomádico"@ || label == "nomadico"@ {
        Some(Status::Nomadico)
    } else if label == "litígio"@ || label == "litigio"@ {
        Some(Status::Litigio)
    } else if label == "baixa"@ {
        Some(Status::Baixa)
    } else {
        None
    }
}

/// Whether `chars` spells the string `word`.
pub fn spells(chars: &Vec<char>, word: &str) -> (r: bool)
    ensures
        r == (chars@ == word@),
{
    let w = chars_of(word);
    same_chars(chars, &w)
}

impl Status {
    /// The place of a status in the order of the enumeration, from 0.
    pub open spec fn spec_rank(self) -> u8 {
        match self {
            Status::Ativo => 0,
            Status::Defeito => 1,
            Status::Disponivel => 2,
            Status::Triagem => 3,
            Status::Desconhecido => 4,
            Status::Manutencao => 5,
            Status::Nomadico => 6,
            Status::Litigio => 7,
            Status::Baixa => 8,
        }
    }

    /// The display name of a status.
    pub open spec fn display(self) -> Seq<char> {
        match self {
            Status::Ativo => "Ativo"@,
            Status::Defeito => "Defeito"@,
            Status::Disponivel => "Disponível"@,
            Status::Triagem => "Triagem"@,
            Status::Desconhecido => "Desconhecido"@,
            Status::Manutencao => "Manutenção"@,
            Status::Nomadico => "Nomádico"@,
            Status::Litigio => "Litígio"@,
            Status::Baixa => "Baixa"@,
        }
    }

    /// The place of the status in the order of the enumeration, from 0.
    #[verifier::when_used_as_spec(spec_rank)]
    pub fn rank(self) -> (r: u8)
        ensures
            r == self.spec_rank(),
    {
        match self {
            Status::Ativo => 0,
            Status::Defeito => 1,
            Status::Disponivel => 2,
            Status::Triagem => 3,
            Status::Desconhecido => 4,
            Status::Manutencao => 5,
            Status::Nomadico => 6,
            Status::Litigio => 7,
            Status::Baixa => 8,
        }
    }

    /// The status with the given rank.
    pub fn from_rank(rank: u8) -> (r: Option<Status>)
        ensures
            r matches Some(s) ==> s.spec_rank() == rank,
            r is Some <==> rank <= 8,
    {
        match rank {
            0 => Some(Status::Ativo),
            1 => Some(Status::Defeito),
            2 => Some(Status::Disponivel),
            3 => Some(Status::Triagem),
            4 => Some(Status::Desconhecido),
            5 => Some(Status::Manutencao),
            6 => Some(Status::Nomadico),
            7 => Some(Status::Litigio),
            8 => Some(Status::Baixa),
            _ => None,
        }
    }

    /// Resolves a label that is already in lowercase.
    pub fn from_lowercase(label: &str) -> (r: Option<Status>)
        ensures
            r == status_of_label(label@),
    {
        let l = chars_of(label);
        if spells(&l, "ativo") {
            Some(Status::Ativo)
        } else if spells(&l, "defeito") {
            Some(Status::Defeito)
        } else if spells(&l, "disponível") || spells(&l, "disponivel") {
            Some(Status::Disponivel)
        } else if spells(&l, "triagem") {
            Some(Status::Triagem)
        } else if spells(&l, "manutenção") || spells(&l, "manutencao") {
            Some(Status::Manutencao)
        } else if spells(&l, "nomádico") || spells(&l, "nomadico") {
            Some(Status::Nomadico)
        } else if spells(&l, "litígio") || spells(&l, "litigio") {
            Some(Status::Litigio)
        } else if spells(&l, "baixa") {
            Some(Status::Baixa)
        } else {
            None
        }
    }

    /// Resolves a label whatever its case: the label is put in lowercase and
    /// looked up among the known labels.
    pub fn from_str(s: &str) -> (r: Option<Status>)
        ensures
            r == status_of_label(lowercase(s@)),
    {
        let lower = to_lowercase(s);
        Status::from_lowercase(lower.as_str())
    }

    /// The display name of the status.
    pub fn to_string(&self) -> (s: String)
        ensures
            s@ == self.display(),
    {
        match self {
            Status::Ativo => "Ativo".to_string(),
            Status::Defeito => "Defeito".to_string(),
            Status::Disponivel => "Disponível".to_string(),
            Status::Triagem => "Triagem".to_string(),
            Status::Desconhecido => "Desconhecido".to_string(),
            Status::Manutencao => "Manutenção".to_string(),
            Status::Nomadico => "Nomádico".to_string(),
            Status::Litigio => "Litígio".to_string(),
            Status::Baixa => "Baixa".to_string(),
        }
    }
}

/// Which of the two sources a station comes from.
#[derive(Debug, Clone, Copy, PartialEq, Eq, Structural)]
pub enum DataSource {
    Zabbix,
    SharePoint,
}

impl DataSource {
    /// The display name of a source.
    pub open spec fn display(self) -> Seq<char> {
        match self {
            DataSource::Zabbix => "Zabbix"@,
            DataSource::SharePoint => "SharePoint"@,
        }
    }

    /// The display name of the source.
    pub fn to_string(&self) -> (s: String)
        ensures
            s@ == self.display(),
    {
        match self {
            DataSource::Zabbix => "Zabbix".to_string(),
            DataSource::SharePoint => "SharePoint".to_string(),
        }
    }
}

/// A regional unit, named by its token.
#[derive(Debug, PartialEq, Eq, PartialOrd, Ord, Hash)]
pub struct Regional(pub String);

impl View for Regional {
    type V = Seq<char>;

    open spec fn view(&self) -> Seq<char> {
        self.0@
    }
}

impl Clone for Regional {
    fn clone(&self) -> (r: Self)
        ensures
            r == *self,
    {
        Regional(self.0.clone())
    }
}

/// `name` begins as the token of a regional unit does.
pub open spec fn has_regional_prefix(name: Seq<char>) -> bool {
    starts_with(name, REGIONAL_PREFIX_GR@) || starts_with(name, REGIONAL_PREFIX_UO@)
}

impl Regional {
    /// Whether `name` begins as the token of a regional unit does.
    pub fn is_token(name: &Vec<char>) -> (r: bool)
        ensures
            r == has_regional_prefix(name@),
    {
        let gr = chars_of(REGIONAL_PREFIX_GR);
        let uo = chars_of(REGIONAL_PREFIX_UO);
        chars_match_at(name, &gr, 0) || chars_match_at(name, &uo, 0)
    }

    /// The regional unit with the given token.
    pub fn new(s: String) -> (r: Self)
        ensures
            r.0 == s,
    {
        Regional(s)
    }

    /// The token of the regional unit.
    pub fn to_string(&self) -> (s: String)
        ensures
            s@ == self@,
    {
        self.0.clone()
    }
}

/// The hardware type of a station: a known one, or the name as it was given.
#[derive(Debug, PartialEq, Eq)]
pub enum TipoEstacao {
    RFeye,
    MIAer,
    CelWirelessRMU,
    UMS300,
    ERMx,
    Outro(String),
}

/// A hardware type, with the free-form name as a sequence of characters.
pub enum TipoEstacaoView {
    RFeye,
    MIAer,
    CelWirelessRMU,
    UMS300,
    ERMx,
    Outro(Seq<char>),
}

impl View for TipoEstacao {
    type V = TipoEstacaoView;

    open spec fn view(&self) -> TipoEstacaoView {
        match self {
            TipoEstacao::RFeye => TipoEstacaoView::RFeye,
            TipoEstacao::MIAer => TipoEstacaoView::MIAer,
            TipoEstacao::CelWirelessRMU => TipoEstacaoView::CelWirelessRMU,
            TipoEstacao::UMS300 => TipoEstacaoView::UMS300,
            TipoEstacao::ERMx => TipoEstacaoView::ERMx,
            TipoEstacao::Outro(s) => TipoEstacaoView::Outro(s@),
        }
    }
}

impl Clone for TipoEstacao {
    fn clone(&self) -> (r: Self)
        ensures
            r == *self,
    {
        match self {
            TipoEstacao::RFeye => TipoEstacao::RFeye,
            TipoEstacao::MIAer => TipoEstacao::MIAer,
            TipoEstacao::CelWirelessRMU => TipoEstacao::CelWirelessRMU,
            TipoEstacao::UMS300 => TipoEstacao::UMS300,
            TipoEstacao::ERMx => TipoEstacao::ERMx,
            TipoEstacao::Outro(s) => TipoEstacao::Outro(s.clone()),
        }
    }
}

/// The hardware type that an explicit type name stands for. A name that is
/// not one of the known ones is kept as it is.
pub open spec fn tipo_of_name(name: Seq<char>) -> TipoEstacaoView {
    if name == "RFeye"@ {
        TipoEstacaoView::RFeye
    } else if name == "MIAer"@ {
        TipoEstacaoView::MIAer
    } else if name == "CelWireless RMU"@ {
        TipoEstacaoView::CelWirelessRMU
    } else if name == "UMS300"@ {
        TipoEstacaoView::UMS300
    } else if name == "ERM-x"@ || name == "ERMx"@ {
        TipoEstacaoView::ERMx
    } else {
        TipoEstacaoView::Outro(name)
    }
}

impl TipoEstacaoView {
    /// The display name of a hardware type.
    pub open spec fn display(self) -> Seq<char> {
        match self {
            TipoEstacaoView::RFeye => "RFeye"@,
            TipoEstacaoView::MIAer => "MIAer"@,
            TipoEstacaoView::CelWirelessRMU => "CelWireless RMU"@,
            TipoEstacaoView::UMS300 => "UMS300"@,
            TipoEstacaoView::ERMx => "ERM-x"@,
            TipoEstacaoView::Outro(s) => s,
        }
    }
}

/// The hardware type that a lowercase name tells of, be it the name of a
/// station or that of a group: the first of the known marks that stands in
/// the name decides.
pub open spec fn tipo_in_name(lower: Seq<char>) -> Option<TipoEstacaoView> {
    if occurs_in(lower, "rfeye"@) {
        Some(TipoEstacaoView::RFeye)
    } else if occurs_in(lower, "miaer"@) {
        Some(TipoEstacaoView::MIAer)
    } else if occurs_in(lower, "cwsm"@) {
        Some(TipoEstacaoView::CelWirelessRMU)
    } else if occurs_in(lower, "ums"@) {
        Some(TipoEstacaoView::UMS300)
    } else if occurs_in(lower, "erm"@) {
        Some(TipoEstacaoView::ERMx)
    } else {
        None
    }
}

/// The hardware type of an optional one, by its view.
pub open spec fn tipo_view(tipo: Option<TipoEstacao>) -> Option<TipoEstacaoView> {
    match tipo {
        Some(t) => Some(t@),
        None => None,
    }
}

/// Whether `mark` stands somewhere in `text`.
fn holds(text: &Vec<char>, mark: &str) -> (r: bool)
    ensures
        r == occurs_in(text@, mark@),
{
    let m = chars_of(mark);
    chars_contain(text, &m)
}

impl TipoEstacao {
    /// Infers the hardware type from a name, given in lowercase, be it the
    /// name of a station or that of a group: the first of the known marks
    /// that stands in it decides.
    pub fn infer_from_name(lower: &str) -> (tipo: Option<TipoEstacao>)
        ensures
            tipo_view(tipo) == tipo_in_name(lower@),
    {
        let name = chars_of(lower);
        if holds(&name, "rfeye") {
            Some(TipoEstacao::RFeye)
        } else if holds(&name, "miaer") {
            Some(TipoEstacao::MIAer)
        } else if holds(&name, "cwsm") {
            Some(TipoEstacao::CelWirelessRMU)
        } else if holds(&name, "ums") {
            Some(TipoEstacao::UMS300)
        } else if holds(&name, "erm") {
            Some(TipoEstacao::ERMx)
        } else {
            None
        }
    }

    /// Maps an explicit type name, compared exactly, to the hardware type.
    pub fn from_str(s: &str) -> (t: TipoEstacao)
        ensures
            t@ == tipo_of_name(s@),
    {
        let name = chars_of(s);
        if spells(&name, "RFeye") {
            TipoEstacao::RFeye
        } else if spells(&name, "MIAer") {
            TipoEstacao::MIAer
        } else if spells(&name, "CelWireless RMU") {
            TipoEstacao::CelWirelessRMU
        } else if spells(&name, "UMS300") {
            TipoEstacao::UMS300
        } else if spells(&name, "ERM-x") || spells(&name, "ERMx") {
            TipoEstacao::ERMx
        } else {
            TipoEstacao::Outro(s.to_string())
        }
    }

    /// The display name of the hardware type.
    pub fn to_string(&self) -> (s: String)
        ensures
            s@ == self@.display(),
    {
        match self {
            TipoEstacao::RFeye => "RFeye".to_string(),
            TipoEstacao::MIAer => "MIAer".to_string(),
            TipoEstacao::CelWirelessRMU => "CelWireless RMU".to_string(),
            TipoEstacao::UMS300 => "UMS300".to_string(),
            TipoEstacao::ERMx => "ERM-x".to_string(),
            TipoEstacao::Outro(s) => s.clone(),
        }
    }
}

/// The token of a regional unit that may be absent.
pub open spec fn regional_view(regional: Option<Regional>) -> Option<Seq<char>> {
    match regional {
        Some(r) => Some(r@),
        None => None,
    }
}

/// The token of the regional unit that a station is counted under: none
/// where the station has no unit, and none as well where its unit is written
/// as the label of those without one, which says the same.
pub open spec fn regional_token(regional: Option<Regional>) -> Option<Seq<char>> {
    match regional {
        Some(r) => if r@ == SEM_REGIONAL@ {
            None
        } else {
            Some(r@)
        },
        None => None,
    }
}

/// The regional unit that a station is counted under: none where it has no
/// unit or where its unit is written as the label of those without one.
pub fn named_regional(regional: &Option<Regional>) -> (named: Option<&Regional>)
    ensures
        match named {
            Some(r) => regional_token(*regional) == Some(r@) && *regional == Some(*r),
            None => regional_token(*regional) is None,
        },
{
    match regional {
        Some(r) => {
            let token = chars_of(r.0.as_str());
            if spells(&token, SEM_REGIONAL) {
                None
            } else {
                Some(r)
            }
        },
        None => None,
    }
}

/// A copy of a regional unit that may be absent.
pub fn clone_regional(regional: &Option<Regional>) -> (r: Option<Regional>)
    ensures
        r == *regional,
{
    match regional {
        Some(r) => Some(r.clone()),
        None => None,
    }
}

/// A station as one source describes it.
#[derive(Debug)]
pub struct EstacaoInfo {
    pub id: String,
    pub nome: String,
    pub status: Status,
    pub regional: Option<Regional>,
    pub tipo: TipoEstacao,
    pub source: DataSource,
}

/// A station, with its texts as sequences of characters.
pub struct EstacaoInfoView {
    pub id: Seq<char>,
    pub nome: Seq<char>,
    pub status: Status,
    pub regional: Option<Seq<char>>,
    pub tipo: TipoEstacaoView,
    pub source: DataSource,
}

impl View for EstacaoInfo {
    type V = EstacaoInfoView;

    open spec fn view(&self) -> EstacaoInfoView {
        EstacaoInfoView {
            id: self.id@,
            nome: self.nome@,
            status: self.status,
            regional: regional_view(self.regional),
            tipo: self.tipo@,
            source: self.source,
        }
    }
}

impl Clone for EstacaoInfo {
    fn clone(&self) -> (r: Self)
        ensures
            r == *self,
    {
        EstacaoInfo {
            id: self.id.clone(),
            nome: self.nome.clone(),
            status: self.status,
            regional: clone_regional(&self.regional),
            tipo: self.tipo.clone(),
            source: self.source,
        }
    }
}

impl EstacaoInfo {
    /// The station with the given fields.
    pub fn new(
        id: String,
        nome: String,
        status: Status,
        regional: Option<Regional>,
        tipo: TipoEstacao,
        source: DataSource,
    ) -> (e: Self)
        ensures
            e == (EstacaoInfo { id, nome, status, regional, tipo, source }),
    {
        Self { id, nome, status, regional, tipo, source }
    }
}

/// The stations of a collection, each by its view.
pub open spec fn views(stations: Seq<EstacaoInfo>) -> Seq<EstacaoInfoView> {
    stations.map_values(|e: EstacaoInfo| e@)
}

} // verus!
