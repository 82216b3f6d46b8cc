use crate::models::common::{named_regional, regional_token, EstacaoInfo, Regional};
use crate::reports::layout::{
    centered, decimal, decimal_text, center, push_repeated, repeat_char, repeated,
};
use crate::reports::paint::{blue, cyan, green, red, yellow};
use crate::services::comparator::{ComparisonResult, StatusMismatch};
use vstd::prelude::*;

verus! {

/// The report of what a comparison of the two sources found.
pub struct DiscrepancyReport;

/// The pattern of the time in the footer of the report.
pub const TIMESTAMP_PATTERN: &'static str = "%d/%m/%Y %H:%M:%S";

/// Calls `chrono::Local::now` and `DateTime::format`, and takes the
/// formatted time as a string. Nothing is promised of it: it tells the time
/// of the clock in the time zone of the machine. The pattern is the one of
/// the footer, which the formatter knows.
#[verifier::external_body]
fn local_time(pattern: &str) -> (stamp: String)
    requires
        pattern@ == TIMESTAMP_PATTERN@,
{
    chrono::Local::now().format(pattern).to_string()
}

/// The three painted texts of a mismatch: its key and the status in each
/// source.
pub type MismatchPaint = (Seq<char>, Seq<char>, Seq<char>);

/// The head of the report.
pub open spec fn header_text() -> Seq<char> {
    repeated('=', 80) + "\n"@ + centered("RELATÓRIO DE DISCREPÂNCIAS"@, 80) + "\n"@ + centered(
        "Zabbix vs SharePoint"@,
        80,
    ) + "\n"@ + repeated('=', 80) + "\n\n"@
}

/// The summary of the report: the number of entries of each part.
pub open spec fn summary_text(
    matching: nat,
    mismatches: nat,
    only_zabbix: nat,
    only_sharepoint: nat,
) -> Seq<char> {
    "📊 RESUMO\n"@ + repeated('-', 40) + "\n"@ + "  ✅ Estações correspondentes: "@ + decimal(
        matching,
    ) + "\n"@ + "  ⚠️  Discrepâncias de status: "@ + decimal(mismatches) + "\n"@
        + "  📡 Apenas no Zabbix: "@ + decimal(only_zabbix) + "\n"@
        + "  📝 Apenas no SharePoint: "@ + decimal(only_sharepoint) + "\n"@ + "\n\n"@
}

/// The token of a regional unit, or the mark of a missing one.
pub open spec fn regional_or_na(regional: Option<Seq<char>>) -> Seq<char> {
    match regional {
        Some(r) => r,
        None => "N/A"@,
    }
}

/// The line of the regional units of a mismatch, which stands only where
/// the two differ. A unit written as the label of those without one is told
/// as a missing one.
pub open spec fn mismatch_regional_text(mismatch: StatusMismatch) -> Seq<char> {
    if regional_token(mismatch.zabbix_regional) != regional_token(mismatch.sharepoint_regional) {
        "  Regional Zabbix: "@ + regional_or_na(regional_token(mismatch.zabbix_regional))
            + " | Regional SharePoint: "@ + regional_or_na(
            regional_token(mismatch.sharepoint_regional),
        ) + "\n"@
    } else {
        Seq::empty()
    }
}

/// The entry of a mismatch, with its painted texts.
pub open spec fn mismatch_text(mismatch: StatusMismatch, paint: MismatchPaint) -> Seq<char> {
    "\n  ID: "@ + paint.0 + "\n"@ + "  Nome: "@ + mismatch.nome@ + "\n"@ + "  Status Zabbix: "@
        + paint.1 + " | Status SharePoint: "@ + paint.2 + "\n"@ + mismatch_regional_text(
        mismatch,
    )
}

/// The entry of a station, with its painted name.
pub open spec fn station_text(station: EstacaoInfo, painted_name: Seq<char>) -> Seq<char> {
    "\n  • "@ + painted_name + " ("@ + station.id@ + ")\n"@ + "    Status: "@
        + station.status.display() + " | Regional: "@ + regional_or_na(
        regional_token(station.regional),
    ) + "\n"@
}

/// The entries of the mismatches, one after the other.
pub open spec fn mismatches_text(
    mismatches: Seq<StatusMismatch>,
    paints: Seq<MismatchPaint>,
) -> Seq<char>
    decreases mismatches.len(),
{
    if mismatches.len() == 0 {
        Seq::empty()
    } else {
        mismatches_text(mismatches.drop_last(), paints.drop_last()) + mismatch_text(
            mismatches.last(),
            paints.last(),
        )
    }
}

/// The entries of the stations, one after the other.
pub open spec fn stations_text(stations: Seq<EstacaoInfo>, paints: Seq<Seq<char>>) -> Seq<char>
    decreases stations.len(),
{
    if stations.len() == 0 {
        Seq::empty()
    } else {
        stations_text(stations.drop_last(), paints.drop_last()) + station_text(
            stations.last(),
            paints.last(),
        )
    }
}

/// The section of the mismatches.
pub open spec fn mismatch_section_text(
    mismatches: Seq<StatusMismatch>,
    paints: Seq<MismatchPaint>,
) -> Seq<char> {
    "⚠️  DISCREPÂNCIAS DE STATUS\n"@ + repeated('-', 40) + "\n"@ + mismatches_text(
        mismatches,
        paints,
    ) + "\n\n"@
}

/// The section of the stations that only the monitoring source has.
pub open spec fn zabbix_section_text(stations: Seq<EstacaoInfo>, paints: Seq<Seq<char>>) -> Seq<
    char,
> {
    "📡 APENAS NO ZABBIX\n"@ + repeated('-', 40) + "\n"@ + stations_text(stations, paints)
        + "\n\n"@
}

/// The section of the stations that only the tabular source has.
pub open spec fn sharepoint_section_text(
    stations: Seq<EstacaoInfo>,
    paints: Seq<Seq<char>>,
) -> Seq<char> {
    "📝 APENAS NO SHAREPOINT\n"@ + repeated('-', 40) + "\n"@ + stations_text(stations, paints)
        + "\n\n"@
}

/// The foot of the report, with the time at which it was made.
pub open spec fn footer_text(stamp: Seq<char>) -> Seq<char> {
    repeated('=', 80) + "\n"@ + "Gerado em: "@ + stamp + "\n"@
}

/// The whole report: head, summary, a section for each part that holds
/// something, but for the matches, and the foot.
pub open spec fn report_text(
    comparison: ComparisonResult,
    mismatch_paints: Seq<MismatchPaint>,
    zabbix_paints: Seq<Seq<char>>,
    sharepoint_paints: Seq<Seq<char>>,
    stamp: Seq<char>,
) -> Seq<char> {
    header_text() + summary_text(
        comparison.matching@.len(),
        comparison.status_mismatch@.len(),
        comparison.only_in_zabbix@.len(),
        comparison.only_in_sharepoint@.len(),
    ) + (if comparison.status_mismatch@.len() > 0 {
        mismatch_section_text(comparison.status_mismatch@, mismatch_paints)
    } else {
        Seq::empty()
    }) + (if comparison.only_in_zabbix@.len() > 0 {
        zabbix_section_text(comparison.only_in_zabbix@, zabbix_paints)
    } else {
        Seq::empty()
    }) + (if comparison.only_in_sharepoint@.len() > 0 {
        sharepoint_section_text(comparison.only_in_sharepoint@, sharepoint_paints)
    } else {
        Seq::empty()
    }) + footer_text(stamp)
}

/// The token of a regional unit, or the mark of a missing one.
fn regional_or_na_text(regional: &Option<Regional>) -> (text: String)
    ensures
        text@ == regional_or_na(regional_token(*regional)),
{
    match named_regional(regional) {
        Some(r) => r.to_string(),
        None => "N/A".to_string(),
    }
}

impl DiscrepancyReport {
    /// The head of the report.
    pub fn header() -> (header: String)
        ensures
            header@ == header_text(),
    {
        let mut header = repeat_char('=', 80);
        header.append("\n");
        header.append(center("RELATÓRIO DE DISCREPÂNCIAS", 80).as_str());
        header.append("\n");
        header.append(center("Zabbix vs SharePoint", 80).as_str());
        header.append("\n");
        push_repeated(&mut header, '=', 80);
        header.append("\n\n");
        header
    }

    /// The summary of the report: the number of entries of each part.
    pub fn summary_section(comparison: &ComparisonResult) -> (summary: String)
        ensures
            summary@ == summary_text(
                comparison.matching@.len(),
                comparison.status_mismatch@.len(),
                comparison.only_in_zabbix@.len(),
                comparison.only_in_sharepoint@.len(),
            ),
    {
        let mut summary = "📊 RESUMO\n".to_string();
        push_repeated(&mut summary, '-', 40);
        summary.append("\n");
        summary.append("  ✅ Estações correspondentes: ");
        summary.append(decimal_text(comparison.matching.len()).as_str());
        summary.append("\n");
        summary.append("  ⚠️  Discrepâncias de status: ");
        summary.append(decimal_text(comparison.status_mismatch.len()).as_str());
        summary.append("\n");
        summary.append("  📡 Apenas no Zabbix: ");
        summary.append(decimal_text(comparison.only_in_zabbix.len()).as_str());
        summary.append("\n");
        summary.append("  📝 Apenas no SharePoint: ");
        summary.append(decimal_text(comparison.only_in_sharepoint.len()).as_str());
        summary.append("\n");
        summary.append("\n\n");
        summary
    }

    /// The entry of a mismatch, given its key and the status in each source
    /// as they were painted. The regional units are told only where the two
    /// sources differ in them.
    pub fn mismatch_entry(
        mismatch: &StatusMismatch,
        painted_id: &str,
        painted_zabbix_status: &str,
        painted_sharepoint_status: &str,
    ) -> (entry: String)
        ensures
            entry@ == mismatch_text(
                *mismatch,
                (painted_id@, painted_zabbix_status@, painted_sharepoint_status@),
            ),
    {
        let mut entry = "\n  ID: ".to_string();
        entry.append(painted_id);
        entry.append("\n");
        entry.append("  Nome: ");
        entry.append(mismatch.nome.as_str());
        entry.append("\n");
        entry.append("  Status Zabbix: ");
        entry.append(painted_zabbix_status);
        entry.append(" | Status SharePoint: ");
        entry.append(painted_sharepoint_status);
        entry.append("\n");
        if mismatch.regionals_differ() {
            let mut line = "  Regional Zabbix: ".to_string();
            line.append(regional_or_na_text(&mismatch.zabbix_regional).as_str());
            line.append(" | Regional SharePoint: ");
            line.append(regional_or_na_text(&mismatch.sharepoint_regional).as_str());
            line.append("\n");
            entry.append(line.as_str());
        } else {
            assert(entry@ + Seq::<char>::empty() == entry@);
        }
        entry
    }

    /// The entry of a station, given its name as it was painted.
    pub fn station_entry(station: &EstacaoInfo, painted_name: &str) -> (entry: String)
        ensures
            entry@ == station_text(*station, painted_name@),
    {
        let mut entry = "\n  • ".to_string();
        entry.append(painted_name);
        entry.append(" (");
        entry.append(station.id.as_str());
        entry.append(")\n");
        entry.append("    Status: ");
        entry.append(station.status.to_string().as_str());
        entry.append(" | Regional: ");
        entry.append(regional_or_na_text(&station.regional).as_str());
        entry.append("\n");
        entry
    }

    /// The foot of the report, with the time at which it was made.
    pub fn footer(stamp: &str) -> (footer: String)
        ensures
            footer@ == footer_text(stamp@),
    {
        let mut footer = repeat_char('=', 80);
        footer.append("\n");
        footer.append("Gerado em: ");
        footer.append(stamp);
        footer.append("\n");
        footer
    }

    /// The section of the mismatches: an entry for each, in order, with its
    /// key painted yellow, its status in the monitoring source red and its
    /// status in the tabular source blue.
    pub fn status_mismatch_section(comparison: &ComparisonResult) -> (section: String)
        ensures
            exists|paints: Seq<MismatchPaint>|
                paints.len() == comparison.status_mismatch@.len() && section@
                    == #[trigger] mismatch_section_text(comparison.status_mismatch@, paints),
    {
        let mut section = "⚠️  DISCREPÂNCIAS DE STATUS\n".to_string();
        push_repeated(&mut section, '-', 40);
        section.append("\n");
        let ghost head = section@;
        let ghost mut paints: Seq<MismatchPaint> = Seq::empty();
        let mut i: usize = 0;
        assert(section@ == head + mismatches_text(
            comparison.status_mismatch@.take(0),
            paints,
        ));
        while i < comparison.status_mismatch.len()
            invariant
                i <= comparison.status_mismatch.len(),
                paints.len() == i,
                head == "⚠️  DISCREPÂNCIAS DE STATUS\n"@ + repeated('-', 40) + "\n"@,
                section@ == head + mismatches_text(
                    comparison.status_mismatch@.take(i as int),
                    paints,
                ),
            decreases comparison.status_mismatch.len() - i,
        {
            let mismatch = &comparison.status_mismatch[i];
            let id = yellow(mismatch.id.as_str());
            let zabbix_status = red(mismatch.zabbix_status.to_string().as_str());
            let sharepoint_status = blue(mismatch.sharepoint_status.to_string().as_str());
            let entry = DiscrepancyReport::mismatch_entry(
                mismatch,
                id.as_str(),
                zabbix_status.as_str(),
                sharepoint_status.as_str(),
            );
            proof {
                let seen = comparison.status_mismatch@.take(i as int);
                let more = comparison.status_mismatch@.take(i + 1);
                let paint = (id@, zabbix_status@, sharepoint_status@);
                assert(more.drop_last() == seen);
                assert(paints.push(paint).drop_last() == paints);
                assert(mismatches_text(more, paints.push(paint)) == mismatches_text(seen, paints)
                    + mismatch_text(*mismatch, paint));
                paints = paints.push(paint);
            }
            section.append(entry.as_str());
            i += 1;
        }
        assert(comparison.status_mismatch@.take(i as int) == comparison.status_mismatch@);
        section.append("\n\n");
        assert(section@ == mismatch_section_text(comparison.status_mismatch@, paints));
        section
    }

    /// The section of the stations that only the monitoring source has: an
    /// entry for each, in order, with its name painted cyan.
    pub fn only_in_zabbix_section(comparison: &ComparisonResult) -> (section: String)
        ensures
            exists|paints: Seq<Seq<char>>|
                paints.len() == comparison.only_in_zabbix@.len() && section@
                    == #[trigger] zabbix_section_text(comparison.only_in_zabbix@, paints),
    {
        let mut section = "📡 APENAS NO ZABBIX\n".to_string();
        push_repeated(&mut section, '-', 40);
        section.append("\n");
        let ghost head = section@;
        let ghost mut paints: Seq<Seq<char>> = Seq::empty();
        let mut i: usize = 0;
        assert(section@ == head + stations_text(comparison.only_in_zabbix@.take(0), paints));
        while i < comparison.only_in_zabbix.len()
            invariant
                i <= comparison.only_in_zabbix.len(),
                paints.len() == i,
                head == "📡 APENAS NO ZABBIX\n"@ + repeated('-', 40) + "\n"@,
                section@ == head + stations_text(
                    comparison.only_in_zabbix@.take(i as int),
                    paints,
                ),
            decreases comparison.only_in_zabbix.len() - i,
        {
            let station = &comparison.only_in_zabbix[i];
            let name = cyan(station.nome.as_str());
            let entry = DiscrepancyReport::station_entry(station, name.as_str());
            proof {
                let seen = comparison.only_in_zabbix@.take(i as int);
                let more = comparison.only_in_zabbix@.take(i + 1);
                assert(more.drop_last() == seen);
                assert(paints.push(name@).drop_last() == paints);
                assert(stations_text(more, paints.push(name@)) == stations_text(seen, paints)
                    + station_text(*station, name@));
                paints = paints.push(name@);
            }
            section.append(entry.as_str());
            i += 1;
        }
        assert(comparison.only_in_zabbix@.take(i as int) == comparison.only_in_zabbix@);
        section.append("\n\n");
        assert(section@ == zabbix_section_text(comparison.only_in_zabbix@, paints));
        section
    }

    /// The section of the stations that only the tabular source has: an
    /// entry for each, in order, with its name painted green.
    pub fn only_in_sharepoint_section(comparison: &ComparisonResult) -> (section: String)
        ensures
            exists|paints: Seq<Seq<char>>|
                paints.len() == comparison.only_in_sharepoint@.len() && section@
                    == #[trigger] sharepoint_section_text(comparison.only_in_sharepoint@, paints),
    {
        let mut section = "📝 APENAS NO SHAREPOINT\n".to_string();
        push_repeated(&mut section, '-', 40);
        section.append("\n");
        let ghost head = section@;
        let ghost mut paints: Seq<Seq<char>> = Seq::empty();
        let mut i: usize = 0;
        assert(section@ == head + stations_text(comparison.only_in_sharepoint@.take(0), paints));
        while i < comparison.only_in_sharepoint.len()
            invariant
                i <= comparison.only_in_sharepoint.len(),
                paints.len() == i,
                head == "📝 APENAS NO SHAREPOINT\n"@ + repeated('-', 40) + "\n"@,
                section@ == head + stations_text(
                    comparison.only_in_sharepoint@.take(i as int),
                    paints,
                ),
            decreases comparison.only_in_sharepoint.len() - i,
        {
            let station = &comparison.only_in_sharepoint[i];
            let name = green(station.nome.as_str());
            let entry = DiscrepancyReport::station_entry(station, name.as_str());
            proof {
                let seen = comparison.only_in_sharepoint@.take(i as int);
                let more = comparison.only_in_sharepoint@.take(i + 1);
                assert(more.drop_last() == seen);
                assert(paints.push(name@).drop_last() == paints);
                assert(stations_text(more, paints.push(name@)) == stations_text(seen, paints)
                    + station_text(*station, name@));
                paints = paints.push(name@);
            }
            section.append(entry.as_str());
            i += 1;
        }
        assert(comparison.only_in_sharepoint@.take(i as int) == comparison.only_in_sharepoint@);
        section.append("\n\n");
        assert(section@ == sharepoint_section_text(comparison.only_in_sharepoint@, paints));
        section
    }

    /// The report of a comparison, made at the time that `stamp` tells:
    /// head, summary, a section for each part that holds something, but
    /// for the matches, and the foot.
    pub fn generate_at(comparison: &ComparisonResult, stamp: &str) -> (report: String)
        ensures
            exists|
                mismatch_paints: Seq<MismatchPaint>,
                zabbix_paints: Seq<Seq<char>>,
                sharepoint_paints: Seq<Seq<char>>,
            |
                mismatch_paints.len() == comparison.status_mismatch@.len() && zabbix_paints.len()
                    == comparison.only_in_zabbix@.len() && sharepoint_paints.len()
                    == comparison.only_in_sharepoint@.len() && report@ == #[trigger] report_text(
                    *comparison,
                    mismatch_paints,
                    zabbix_paints,
                    sharepoint_paints,
                    stamp@,
                ),
    {
        let mut report = DiscrepancyReport::header();
        report.append(DiscrepancyReport::summary_section(comparison).as_str());

        let ghost mut mismatch_paints: Seq<MismatchPaint> = Seq::empty();
        let ghost mut zabbix_paints: Seq<Seq<char>> = Seq::empty();
        let ghost mut sharepoint_paints: Seq<Seq<char>> = Seq::empty();

        let ghost so_far = report@;
        if comparison.status_mismatch.len() > 0 {
            let section = DiscrepancyReport::status_mismatch_section(comparison);
            proof {
                mismatch_paints = choose|paints: Seq<MismatchPaint>|
                    paints.len() == comparison.status_mismatch@.len() && section@
                        == #[trigger] mismatch_section_text(comparison.status_mismatch@, paints);
            }
            report.append(section.as_str());
        } else {
            assert(report@ == so_far + Seq::<char>::empty());
        }

        let ghost so_far = report@;
        if comparison.only_in_zabbix.len() > 0 {
            let section = DiscrepancyReport::only_in_zabbix_section(comparison);
            proof {
                zabbix_paints = choose|paints: Seq<Seq<char>>|
                    paints.len() == comparison.only_in_zabbix@.len() && section@
                        == #[trigger] zabbix_section_text(comparison.only_in_zabbix@, paints);
            }
            report.append(section.as_str());
        } else {
            assert(report@ == so_far + Seq::<char>::empty());
        }

        let ghost so_far = report@;
        if comparison.only_in_sharepoint.len() > 0 {
            let section = DiscrepancyReport::only_in_sharepoint_section(comparison);
            proof {
                sharepoint_paints = choose|paints: Seq<Seq<char>>|
                    paints.len() == comparison.only_in_sharepoint@.len() && section@
                        == #[trigger] sharepoint_section_text(
                        comparison.only_in_sharepoint@,
                        paints,
                    );
            }
            report.append(section.as_str());
        } else {
            assert(report@ == so_far + Seq::<char>::empty());
        }

        report.append(DiscrepancyReport::footer(stamp).as_str());
        proof {
            if comparison.status_mismatch@.len() == 0 {
                mismatch_paints = Seq::empty();
            }
            if comparison.only_in_zabbix@.len() == 0 {
                zabbix_paints = Seq::empty();
            }
            if comparison.only_in_sharepoint@.len() == 0 {
                sharepoint_paints = Seq::empty();
            }
            assert(report@ == report_text(
                *comparison,
                mismatch_paints,
                zabbix_paints,
                sharepoint_paints,
                stamp@,
            ));
        }
        report
    }

    /// The report of a comparison, made now: head, summary, a section for
    /// each part that holds something, but for the matches, and the foot
    /// with the local time.
    pub fn generate(comparison: &ComparisonResult) -> (report: String)
        ensures
            exists|
                mismatch_paints: Seq<MismatchPaint>,
                zabbix_paints: Seq<Seq<char>>,
                sharepoint_paints: Seq<Seq<char>>,
                stamp: Seq<char>,
            |
                mismatch_paints.len() == comparison.status_mismatch@.len() && zabbix_paints.len()
                    == comparison.only_in_zabbix@.len() && sharepoint_paints.len()
                    == comparison.only_in_sharepoint@.len() && report@ == #[trigger] report_text(
                    *comparison,
                    mismatch_paints,
                    zabbix_paints,
                    sharepoint_paints,
                    stamp,
                ),
    {
        let stamp = local_time(TIMESTAMP_PATTERN);
        DiscrepancyReport::generate_at(comparison, stamp.as_str())
    }
}

} // verus!
