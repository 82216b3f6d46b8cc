use crate::models::common::{EstacaoInfo, Status};
use crate::reports::layout::{
    align_left, center, centered, decimal, decimal_text, left_aligned, push_repeated, repeat_char,
    repeated,
};
use crate::reports::paint::{bold, yellow};
use crate::services::aggregator::{index_map_entries, key_texts, AggregatedData};
use crate::services::grouping::{has_key, keys_of};
use crate::utils::text::{
    chars_between, chars_le, chars_of, lemma_text_le_antisymmetric, lemma_text_le_total,
    lemma_text_le_transitive, same_chars, string_of, text_le, text_lt,
};
use vstd::prelude::*;

verus! {

/// The summary of a collection of stations.
pub struct SummaryReport;

/// The head of the summary.
pub open spec fn header_text() -> Seq<char> {
    repeated('═', 80) + "\n"@ + centered("RELATÓRIO RESUMIDO"@, 80) + "\n"@ + repeated('═', 80)
        + "\n\n"@
}

/// The line that tells how many stations have no regional unit, which
/// stands only where there are such stations.
pub open spec fn without_regional_text(without: nat, painted_without: Seq<char>) -> Seq<char> {
    if without > 0 {
        "  Sem regional definida: "@ + painted_without + "\n"@
    } else {
        Seq::empty()
    }
}

/// The general figures of the summary, with the painted numbers.
pub open spec fn general_stats_text(
    without: nat,
    painted_total: Seq<char>,
    painted_without: Seq<char>,
) -> Seq<char> {
    "📊 ESTATÍSTICAS GERAIS\n"@ + repeated('─', 40) + "\n"@ + "  Total de estações: "@
        + painted_total + "\n"@ + without_regional_text(without, painted_without) + "\n\n"@
}

/// The statuses in the order of their names.
pub open spec fn statuses_by_name() -> Seq<Status> {
    seq![
        Status::Ativo,
        Status::Baixa,
        Status::Defeito,
        Status::Desconhecido,
        Status::Disponivel,
        Status::Litigio,
        Status::Manutencao,
        Status::Nomadico,
        Status::Triagem,
    ]
}

/// A key of `keys` is of the given status.
pub open spec fn has_status(keys: Seq<(u8, Seq<char>)>, status: Status) -> bool {
    exists|i: int| 0 <= i < keys.len() && (#[trigger] keys[i]).0 == status.spec_rank()
}

/// The rows of the matrix: the statuses of the keys, in the order of their
/// names.
pub open spec fn matrix_rows(keys: Seq<(u8, Seq<char>)>) -> Seq<Status> {
    statuses_by_name().filter(|s: Status| has_status(keys, s))
}

/// The labels of the keys, in order.
pub open spec fn labels_of(keys: Seq<(u8, Seq<char>)>) -> Seq<Seq<char>> {
    keys.map_values(|k: (u8, Seq<char>)| k.1)
}

/// `columns` holds the texts of `labels`, each once, in the order of
/// strings.
pub open spec fn is_sorted_set_of(columns: Seq<Seq<char>>, labels: Seq<Seq<char>>) -> bool {
    &&& forall|i: int, j: int|
        0 <= i < j < columns.len() ==> text_lt(#[trigger] columns[i], #[trigger] columns[j])
    &&& forall|i: int| 0 <= i < columns.len() ==> labels.contains(#[trigger] columns[i])
    &&& forall|i: int| 0 <= i < labels.len() ==> columns.contains(#[trigger] labels[i])
}

/// The texts of rows of characters.
pub open spec fn row_texts(rows: Seq<Vec<char>>) -> Seq<Seq<char>> {
    rows.map_values(|r: Vec<char>| r@)
}

/// The head of a column: the first nine characters of its label, in a field
/// of ten.
pub open spec fn column_head(label: Seq<char>) -> Seq<char> {
    left_aligned(
        if label.len() > 9 {
            label.take(9)
        } else {
            label
        },
        10,
    )
}

/// The heads of the columns, one after the other.
pub open spec fn column_heads(columns: Seq<Seq<char>>) -> Seq<char>
    decreases columns.len(),
{
    if columns.len() == 0 {
        Seq::empty()
    } else {
        column_heads(columns.drop_last()) + column_head(columns.last())
    }
}

/// The number of the stations in the group with the key `k`, 0 where there
/// is no such group.
pub open spec fn group_size(
    entries: Seq<((u8, Seq<char>), Seq<EstacaoInfo>)>,
    k: (u8, Seq<char>),
) -> nat {
    if has_key(entries, k) {
        let at = choose|at: int| 0 <= at < entries.len() && (#[trigger] entries[at]).0 == k;
        entries[at].1.len()
    } else {
        0
    }
}

/// The cell of a number of stations: the number, or a dash for none, in a
/// field of ten.
pub open spec fn count_cell(n: nat) -> Seq<char> {
    left_aligned(
        if n > 0 {
            decimal(n)
        } else {
            "-"@
        },
        10,
    )
}

/// The cells of the row of a status, one for each column.
pub open spec fn row_cells(
    entries: Seq<((u8, Seq<char>), Seq<EstacaoInfo>)>,
    status: Status,
    columns: Seq<Seq<char>>,
) -> Seq<char>
    decreases columns.len(),
{
    if columns.len() == 0 {
        Seq::empty()
    } else {
        row_cells(entries, status, columns.drop_last()) + count_cell(
            group_size(entries, (status.spec_rank(), columns.last())),
        )
    }
}

/// The row of a status: its name in a field of fifteen, then its cells.
pub open spec fn row_text(
    entries: Seq<((u8, Seq<char>), Seq<EstacaoInfo>)>,
    status: Status,
    columns: Seq<Seq<char>>,
) -> Seq<char> {
    left_aligned(status.display(), 15) + row_cells(entries, status, columns) + "\n"@
}

/// The rows of the statuses, one after the other.
pub open spec fn rows_text(
    entries: Seq<((u8, Seq<char>), Seq<EstacaoInfo>)>,
    rows: Seq<Status>,
    columns: Seq<Seq<char>>,
) -> Seq<char>
    decreases rows.len(),
{
    if rows.len() == 0 {
        Seq::empty()
    } else {
        rows_text(entries, rows.drop_last(), columns) + row_text(entries, rows.last(), columns)
    }
}

/// The matrix of the statuses and the regional units: a column for each
/// label and a row for each status of the groups, each cell with the number
/// of the stations of its group.
pub open spec fn matrix_text(
    entries: Seq<((u8, Seq<char>), Seq<EstacaoInfo>)>,
    columns: Seq<Seq<char>>,
) -> Seq<char> {
    "🔀 MATRIZ STATUS × REGIONAL\n"@ + repeated('─', 40) + "\n"@ + "\n"@ + left_aligned(
        Seq::empty(),
        15,
    ) + column_heads(columns) + "\n"@ + rows_text(
        entries,
        matrix_rows(keys_of(entries)),
        columns,
    ) + "\n\n"@
}

/// Whether a key of `keys` is of the given status.
fn has_status_key(keys: &Vec<(u8, String)>, status: Status) -> (r: bool)
    ensures
        r == has_status(key_texts(keys@), status),
{
    let rank = status.rank();
    let mut i: usize = 0;
    while i < keys.len()
        invariant
            i <= keys.len(),
            rank == status.spec_rank(),
            forall|j: int| 0 <= j < i ==> (#[trigger] key_texts(keys@)[j]).0 != rank,
        decreases keys.len() - i,
    {
        if keys[i].0 == rank {
            assert(key_texts(keys@)[i as int].0 == rank);
            return true;
        }
        i += 1;
    }
    false
}

impl SummaryReport {
    /// The head of the summary.
    pub fn header() -> (header: String)
        ensures
            header@ == header_text(),
    {
        let mut header = repeat_char('═', 80);
        header.append("\n");
        header.append(center("RELATÓRIO RESUMIDO", 80).as_str());
        header.append("\n");
        push_repeated(&mut header, '═', 80);
        header.append("\n\n");
        header
    }

    /// The general figures of the summary, given the number of the stations
    /// and that of those without a regional unit as they were painted. The
    /// second is told only where it is not 0.
    pub fn general_stats_with(
        without_regional: usize,
        painted_total: &str,
        painted_without: &str,
    ) -> (stats: String)
        ensures
            stats@ == general_stats_text(
                without_regional as nat,
                painted_total@,
                painted_without@,
            ),
    {
        let mut stats = "📊 ESTATÍSTICAS GERAIS\n".to_string();
        push_repeated(&mut stats, '─', 40);
        stats.append("\n");
        stats.append("  Total de estações: ");
        stats.append(painted_total);
        stats.append("\n");
        if without_regional > 0 {
            let mut line = "  Sem regional definida: ".to_string();
            line.append(painted_without);
            line.append("\n");
            stats.append(line.as_str());
        } else {
            assert(stats@ + Seq::<char>::empty() == stats@);
        }
        stats.append("\n\n");
        stats
    }

    /// The general figures of the summary: the number of the stations in
    /// bold and, where there are any, that of those without a regional unit
    /// in yellow.
    pub fn general_stats(data: &AggregatedData) -> (stats: String)
        ensures
            exists|painted_total: Seq<char>, painted_without: Seq<char>|
                stats@ == #[trigger] general_stats_text(
                    data.totals.without_regional as nat,
                    painted_total,
                    painted_without,
                ),
    {
        let total = bold(decimal_text(data.totals.total).as_str());
        if data.totals.without_regional > 0 {
            let without = yellow(decimal_text(data.totals.without_regional).as_str());
            SummaryReport::general_stats_with(
                data.totals.without_regional,
                total.as_str(),
                without.as_str(),
            )
        } else {
            SummaryReport::general_stats_with(data.totals.without_regional, total.as_str(), "")
        }
    }

    /// The rows of the matrix: the statuses of the keys, in the order of
    /// their names.
    pub fn matrix_rows(keys: &Vec<(u8, String)>) -> (rows: Vec<Status>)
        ensures
            rows@ == matrix_rows(key_texts(keys@)),
    {
        let mut order: Vec<Status> = Vec::new();
        order.push(Status::Ativo);
        order.push(Status::Baixa);
        order.push(Status::Defeito);
        order.push(Status::Desconhecido);
        order.push(Status::Disponivel);
        order.push(Status::Litigio);
        order.push(Status::Manutencao);
        order.push(Status::Nomadico);
        order.push(Status::Triagem);
        assert(order@ == statuses_by_name());
        let mut rows: Vec<Status> = Vec::new();
        let mut i: usize = 0;
        while i < order.len()
            invariant
                i <= order.len(),
                rows@ == order@.take(i as int).filter(
                    |s: Status| has_status(key_texts(keys@), s),
                ),
            decreases order.len() - i,
        {
            proof {
                assert(order@.take(i + 1).drop_last() == order@.take(i as int));
                reveal(Seq::filter);
            }
            if has_status_key(keys, order[i]) {
                rows.push(order[i]);
            }
            i += 1;
        }
        assert(order@.take(i as int) == order@);
        rows
    }

    /// The columns of the matrix: the labels of the keys, each once, in the
    /// order of strings.
    pub fn matrix_columns(keys: &Vec<(u8, String)>) -> (columns: Vec<Vec<char>>)
        ensures
            is_sorted_set_of(row_texts(columns@), labels_of(key_texts(keys@))),
    {
        let mut columns: Vec<Vec<char>> = Vec::new();
        let ghost labels = labels_of(key_texts(keys@));
        let mut i: usize = 0;
        while i < keys.len()
            invariant
                i <= keys.len(),
                labels == labels_of(key_texts(keys@)),
                is_sorted_set_of(row_texts(columns@), labels.take(i as int)),
            decreases keys.len() - i,
        {
            let label = chars_of(keys[i].1.as_str());
            let ghost before = row_texts(columns@);
            let ghost seen = labels.take(i as int);
            proof {
                assert(labels[i as int] == label@);
                assert(labels.take(i + 1) == seen.push(label@));
            }
            let mut at: usize = 0;
            while at < columns.len() && !chars_le(&label, &columns[at])
                invariant
                    at <= columns.len(),
                    before == row_texts(columns@),
                    forall|j: int| 0 <= j < at ==> text_lt(#[trigger] before[j], label@),
                decreases columns.len() - at,
            {
                proof {
                    lemma_text_le_total(label@, before[at as int]);
                }
                at += 1;
            }
            if at < columns.len() && same_chars(&label, &columns[at]) {
                proof {
                    let more = seen.push(label@);
                    assert forall|j: int| 0 <= j < before.len() implies more.contains(
                        #[trigger] before[j],
                    ) by {
                        let n = choose|n: int| 0 <= n < seen.len() && seen[n] == before[j];
                        assert(more[n] == before[j]);
                    }
                    assert forall|n: int| 0 <= n < more.len() implies before.contains(
                        #[trigger] more[n],
                    ) by {
                        if n < seen.len() {
                            assert(before.contains(seen[n]));
                        } else {
                            assert(before[at as int] == label@);
                        }
                    }
                }
            } else {
                columns.insert(at, label);
                proof {
                    let after = row_texts(columns@);
                    let more = seen.push(label@);
                    assert(after == before.insert(at as int, label@));
                    if at < before.len() {
                        assert(text_lt(label@, before[at as int]));
                    }
                    assert forall|a: int, b: int| 0 <= a < b < after.len() implies text_lt(
                        #[trigger] after[a],
                        #[trigger] after[b],
                    ) by {
                        if b < at {
                            assert(text_lt(before[a], before[b]));
                        } else if b == at {
                            assert(text_lt(before[a], label@));
                        } else if a == at {
                            if b - 1 > at {
                                assert(text_lt(before[at as int], before[b - 1]));
                                lemma_text_le_transitive(
                                    label@,
                                    before[at as int],
                                    before[b - 1],
                                );
                                if label@ == before[b - 1] {
                                    lemma_text_le_antisymmetric(
                                        before[at as int],
                                        before[b - 1],
                                    );
                                }
                            }
                        } else if a < at {
                            assert(text_lt(before[a], before[b - 1]));
                        } else {
                            assert(text_lt(before[a - 1], before[b - 1]));
                        }
                    }
                    assert forall|j: int| 0 <= j < after.len() implies more.contains(
                        #[trigger] after[j],
                    ) by {
                        if j == at {
                            assert(more[seen.len() as int] == label@);
                        } else {
                            let old_j = if j < at {
                                j
                            } else {
                                j - 1
                            };
                            assert(after[j] == before[old_j]);
                            let n = choose|n: int| 0 <= n < seen.len() && seen[n] == before[old_j];
                            assert(more[n] == after[j]);
                        }
                    }
                    assert forall|n: int| 0 <= n < more.len() implies after.contains(
                        #[trigger] more[n],
                    ) by {
                        if n < seen.len() {
                            assert(before.contains(seen[n]));
                            let j = choose|j: int| 0 <= j < before.len() && before[j] == seen[n];
                            if j < at {
                                assert(after[j] == more[n]);
                            } else {
                                assert(after[j + 1] == more[n]);
                            }
                        } else {
                            assert(after[at as int] == label@);
                        }
                    }
                }
            }
            i += 1;
        }
        assert(labels.take(i as int) == labels);
        columns
    }

    /// The cell of the group of a status and a label.
    fn cell(data: &AggregatedData, status: Status, label: &Vec<char>) -> (cell: String)
        requires
            keys_of(index_map_entries(data.by_status_and_regional)).no_duplicates(),
        ensures
            cell@ == count_cell(
                group_size(
                    index_map_entries(data.by_status_and_regional),
                    (status.spec_rank(), label@),
                ),
            ),
    {
        let regional = string_of(label, 0, label.len());
        assert(regional@ == label@);
        let n = data.stations_in(status, regional.as_str());
        proof {
            let entries = index_map_entries(data.by_status_and_regional);
            let k = (status.spec_rank(), label@);
            if has_key(entries, k) {
                let found = choose|found: int|
                    0 <= found < entries.len() && (#[trigger] entries[found]).0 == k
                        && entries[found].1.len() == n;
                assert forall|at: int|
                    0 <= at < entries.len() && (#[trigger] entries[at]).0 == k implies at
                    == found by {
                    assert(keys_of(entries)[at] == k);
                    assert(keys_of(entries)[found] == k);
                }
            }
            assert(group_size(entries, k) == n);
        }
        if n > 0 {
            align_left(decimal_text(n).as_str(), 10)
        } else {
            align_left("-", 10)
        }
    }

    /// The row of a status, with a cell for each column.
    fn row(data: &AggregatedData, status: Status, columns: &Vec<Vec<char>>) -> (row: String)
        requires
            keys_of(index_map_entries(data.by_status_and_regional)).no_duplicates(),
        ensures
            row@ == row_text(
                index_map_entries(data.by_status_and_regional),
                status,
                row_texts(columns@),
            ),
    {
        let ghost entries = index_map_entries(data.by_status_and_regional);
        let mut row = align_left(status.to_string().as_str(), 15);
        let ghost name = row@;
        let mut j: usize = 0;
        assert(row@ == name + row_cells(entries, status, row_texts(columns@).take(0)));
        while j < columns.len()
            invariant
                j <= columns.len(),
                entries == index_map_entries(data.by_status_and_regional),
                keys_of(entries).no_duplicates(),
                name == left_aligned(status.display(), 15),
                row@ == name + row_cells(entries, status, row_texts(columns@).take(j as int)),
            decreases columns.len() - j,
        {
            let cell = SummaryReport::cell(data, status, &columns[j]);
            proof {
                let texts = row_texts(columns@);
                assert(texts.take(j + 1).drop_last() == texts.take(j as int));
                assert(texts.take(j + 1).last() == columns@[j as int]@);
            }
            row.append(cell.as_str());
            j += 1;
        }
        assert(row_texts(columns@).take(j as int) == row_texts(columns@));
        row.append("\n");
        row
    }

    /// The matrix of the statuses and the regional units: a column for each
    /// label of the groups, in the order of strings, and a row for each of
    /// their statuses, in the order of their names; each cell tells the
    /// number of the stations of its group, or a dash for none.
    pub fn status_regional_matrix(data: &AggregatedData) -> (section: String)
        ensures
            exists|columns: Seq<Seq<char>>|
                is_sorted_set_of(
                    columns,
                    labels_of(keys_of(index_map_entries(data.by_status_and_regional))),
                ) && section@ == #[trigger] matrix_text(
                    index_map_entries(data.by_status_and_regional),
                    columns,
                ),
    {
        let ghost entries = index_map_entries(data.by_status_and_regional);
        let keys = data.group_keys();
        let columns = SummaryReport::matrix_columns(&keys);
        let rows = SummaryReport::matrix_rows(&keys);
        let ghost texts = row_texts(columns@);

        let mut section = "🔀 MATRIZ STATUS × REGIONAL\n".to_string();
        push_repeated(&mut section, '─', 40);
        section.append("\n");
        section.append("\n");
        section.append(align_left("", 15).as_str());
        let ghost head = section@;
        proof {
            reveal_strlit("");
            assert(""@ == Seq::<char>::empty());
        }

        let mut j: usize = 0;
        assert(section@ == head + column_heads(texts.take(0)));
        while j < columns.len()
            invariant
                j <= columns.len(),
                texts == row_texts(columns@),
                section@ == head + column_heads(texts.take(j as int)),
            decreases columns.len() - j,
        {
            let label = &columns[j];
            let shown = if label.len() > 9 {
                string_of(label, 0, 9)
            } else {
                string_of(label, 0, label.len())
            };
            proof {
                assert(texts.take(j + 1).drop_last() == texts.take(j as int));
                assert(texts.take(j + 1).last() == label@);
                assert(label@.subrange(0, 9) == label@.take(9));
                assert(label@.subrange(0, label@.len() as int) == label@);
            }
            section.append(align_left(shown.as_str(), 10).as_str());
            j += 1;
        }
        assert(texts.take(j as int) == texts);
        section.append("\n");
        let ghost top = section@;

        let mut i: usize = 0;
        assert(section@ == top + rows_text(entries, rows@.take(0), texts));
        while i < rows.len()
            invariant
                i <= rows.len(),
                entries == index_map_entries(data.by_status_and_regional),
                keys_of(entries).no_duplicates(),
                texts == row_texts(columns@),
                section@ == top + rows_text(entries, rows@.take(i as int), texts),
            decreases rows.len() - i,
        {
            let row = SummaryReport::row(data, rows[i], &columns);
            proof {
                assert(rows@.take(i + 1).drop_last() == rows@.take(i as int));
            }
            section.append(row.as_str());
            i += 1;
        }
        assert(rows@.take(i as int) == rows@);
        section.append("\n\n");
        assert(section@ == matrix_text(entries, texts));
        section
    }
}

} // verus!
