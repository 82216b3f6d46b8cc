use crate::error::{AppError, Result};
use crate::models::common::{
    has_regional_prefix, regional_view, status_of_label, tipo_in_name, tipo_of_name, DataSource,
    EstacaoInfo, EstacaoInfoView, Regional, Status, TipoEstacao, TipoEstacaoView,
};
use crate::models::sharepoint::SharePointRecord;
use crate::utils::text::{
    chars_between, chars_of, is_whitespace, is_whitespace_char, lowercase, string_of,
    to_lowercase,
};
use vstd::prelude::*;

verus! {

/// The ingestion of the rows of the tabular source.
pub struct CsvParser;

/// A character that parts the tokens of the holder text: a white space
/// character or a comma.
pub open spec fn is_separator(c: char) -> bool {
    is_whitespace(c) || c == ','
}

/// Whether `c` parts the tokens of the holder text.
fn is_separator_char(c: char) -> (r: bool)
    ensures
        r == is_separator(c),
{
    is_whitespace_char(c) || c == ','
}

/// The length of the first token of `text`: the characters before its first
/// separator.
pub open spec fn first_token_len(text: Seq<char>) -> nat
    decreases text.len(),
{
    if text.len() == 0 || is_separator(text[0]) {
        0
    } else {
        1 + first_token_len(text.skip(1))
    }
}

/// The first token of `text` that begins as the token of a regional unit
/// does, the tokens being what the separators part.
pub open spec fn regional_in(text: Seq<char>) -> Option<Seq<char>>
    decreases text.len(),
{
    let n = first_token_len(text);
    if has_regional_prefix(text.take(n as int)) {
        Some(text.take(n as int))
    } else if n < text.len() {
        regional_in(text.skip(n as int + 1))
    } else {
        None
    }
}

/// The regional unit of a row: the one that its holder text names.
pub open spec fn record_regional(record: SharePointRecord) -> Option<Seq<char>> {
    match record.detentor {
        Some(d) => regional_in(d@),
        None => None,
    }
}

/// The hardware type of a row: the one that its type column names, and
/// without that column the one that its network id tells of.
pub open spec fn record_tipo(record: SharePointRecord) -> TipoEstacaoView {
    match record.tipo_estacao {
        Some(t) => tipo_of_name(t@),
        None => match tipo_in_name(lowercase(record.id_rede@)) {
            Some(t) => t,
            None => TipoEstacaoView::Outro(record.id_rede@),
        },
    }
}

/// The status of a row, where its situation label is a known one.
pub open spec fn record_status(record: SharePointRecord) -> Option<Status> {
    status_of_label(lowercase(record.situacao@))
}

/// The station that a row with the given status describes.
pub open spec fn record_station(record: SharePointRecord, status: Status) -> EstacaoInfoView {
    EstacaoInfoView {
        id: record.id_rede@,
        nome: record.id_rede@,
        status,
        regional: record_regional(record),
        tipo: record_tipo(record),
        source: DataSource::SharePoint,
    }
}

/// The row at `at` is the first whose situation label is not a known one.
pub open spec fn is_first_unresolved(records: Seq<SharePointRecord>, at: int) -> bool {
    &&& 0 <= at < records.len()
    &&& record_status(records[at]) is None
    &&& forall|j: int| 0 <= j < at ==> (#[trigger] record_status(records[j])) is Some
}

/// The situation label of every row is a known one.
pub open spec fn all_resolved(records: Seq<SharePointRecord>) -> bool {
    forall|j: int| 0 <= j < records.len() ==> (#[trigger] record_status(records[j])) is Some
}

/// The first token of a text is no longer than the text.
proof fn lemma_first_token_len(text: Seq<char>)
    ensures
        first_token_len(text) <= text.len(),
    decreases text.len(),
{
    if !(text.len() == 0 || is_separator(text[0])) {
        lemma_first_token_len(text.skip(1));
    }
}

impl CsvParser {
    /// The regional unit that the holder text of a row names: the text is
    /// parted at white space and commas, and the first part that begins as
    /// the token of a regional unit does is taken.
    pub fn extract_regional(record: &SharePointRecord) -> (regional: Option<Regional>)
        ensures
            regional_view(regional) == record_regional(*record),
    {
        match &record.detentor {
            None => None,
            Some(detentor) => {
                let text = chars_of(detentor.as_str());
                let len = text.len();
                let mut start: usize = 0;
                assert(text@.skip(0) == text@);
                loop
                    invariant
                        len == text.len(),
                        start <= len,
                        text@ == detentor@,
                        record.detentor == Some(*detentor),
                        regional_in(text@) == regional_in(text@.skip(start as int)),
                    decreases len - start,
                {
                    let ghost rest = text@.skip(start as int);
                    let mut end: usize = start;
                    proof {
                        lemma_first_token_len(rest);
                    }
                    while end < len && !is_separator_char(text[end])
                        invariant
                            len == text.len(),
                            start <= end <= len,
                            rest == text@.skip(start as int),
                            first_token_len(rest) == (end - start) + first_token_len(
                                text@.skip(end as int),
                            ),
                        decreases len - end,
                    {
                        assert(text@.skip(end as int).skip(1) == text@.skip(end + 1));
                        end += 1;
                    }
                    let token = chars_between(&text, start, end);
                    proof {
                        assert(first_token_len(rest) == end - start);
                        assert(rest.take(end - start) == text@.subrange(start as int, end as int));
                        if end < len {
                            assert(rest.skip(end - start + 1) == text@.skip(end + 1));
                        }
                    }
                    if Regional::is_token(&token) {
                        return Some(Regional::new(string_of(&text, start, end)));
                    }
                    if end == len {
                        return None;
                    }
                    start = end + 1;
                }
            },
        }
    }

    /// The hardware type of a row: the one that its type column names, and
    /// without that column the one that its network id tells of; where the
    /// id tells of none, the id itself as a free-form type.
    pub fn extract_tipo(record: &SharePointRecord) -> (tipo: TipoEstacao)
        ensures
            tipo@ == record_tipo(*record),
    {
        match &record.tipo_estacao {
            Some(t) => TipoEstacao::from_str(t.as_str()),
            None => {
                let id = to_lowercase(record.id_rede.as_str());
                match TipoEstacao::infer_from_name(id.as_str()) {
                    Some(t) => t,
                    None => TipoEstacao::Outro(record.id_rede.clone()),
                }
            },
        }
    }

    /// Turns the rows of the tabular source into stations, one for each row
    /// and in the order of the rows. The situation label of a row must be a
    /// known one: at the first row where it is not, the whole batch fails
    /// with that label, and no station is returned.
    pub fn to_estacao_info(records: Vec<SharePointRecord>) -> (result: Result<Vec<EstacaoInfo>>)
        ensures
            result is Ok <==> all_resolved(records@),
            match result {
                Ok(stations) => {
                    &&& stations.len() == records.len()
                    &&& forall|i: int|
                        0 <= i < stations.len() ==> record_status(records[i]) == Some(
                            stations[i].status,
                        ) && (#[trigger] stations[i])@ == record_station(
                            records[i],
                            stations[i].status,
                        )
                },
                Err(e) => exists|at: int|
                    #![trigger is_first_unresolved(records@, at)]
                    is_first_unresolved(records@, at) && e.is_invalid_status(
                        records[at].situacao@,
                    ),
            },
    {
        let mut estacoes: Vec<EstacaoInfo> = Vec::new();
        let mut i: usize = 0;
        while i < records.len()
            invariant
                i <= records.len(),
                estacoes.len() == i,
                forall|j: int| 0 <= j < i ==> (#[trigger] record_status(records[j])) is Some,
                forall|j: int|
                    0 <= j < i ==> record_status(records[j]) == Some(estacoes[j].status) && (
                    #[trigger] estacoes[j])@ == record_station(records[j], estacoes[j].status),
            decreases records.len() - i,
        {
            let record = &records[i];
            let status = match Status::from_str(record.situacao.as_str()) {
                Some(status) => status,
                None => {
                    assert(is_first_unresolved(records@, i as int));
                    return Err(AppError::InvalidStatus(record.situacao.clone()));
                },
            };
            let regional = CsvParser::extract_regional(record);
            let tipo = CsvParser::extract_tipo(record);
            let estacao = EstacaoInfo::new(
                record.id_rede.clone(),
                record.id_rede.clone(),
                status,
                regional,
                tipo,
                DataSource::SharePoint,
            );
            estacoes.push(estacao);
            i += 1;
        }
        Ok(estacoes)
    }
}

} // verus!
