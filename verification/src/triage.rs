use vstd::prelude::*;
use crate::text::{append_str, string_from_chars, string_views};

verus! {

/// Finding entries (title and details) as plain values.
pub open spec fn finding_views(v: Seq<(String, String)>) -> Seq<(Seq<char>, Seq<char>)> {
    v.map_values(|e: (String, String)| (e.0@, e.1@))
}

/// One bullet line per finding: `- title | details`.
pub open spec fn finding_lines(items: Seq<(Seq<char>, Seq<char>)>) -> Seq<char>
    decreases items.len(),
{
    if items.len() == 0 {
        seq![]
    } else {
        finding_lines(items.drop_last()) + "- "@ + items.last().0 + " | "@ + items.last().1 + "\n"@
    }
}

/// A report section: its bullet lines, or `None` when it is empty.
pub open spec fn section_text(items: Seq<(Seq<char>, Seq<char>)>) -> Seq<char> {
    if items.len() == 0 {
        "None\n"@
    } else {
        finding_lines(items)
    }
}

/// One bullet line per state update.
pub open spec fn update_lines(updates: Seq<Seq<char>>) -> Seq<char>
    decreases updates.len(),
{
    if updates.len() == 0 {
        seq![]
    } else {
        update_lines(updates.drop_last()) + "- "@ + updates.last() + "\n"@
    }
}

/// The body of a triage report from its three sections, highest priority first.
pub open spec fn triage_body(
    report_only: bool,
    high: Seq<(Seq<char>, Seq<char>)>,
    watch: Seq<(Seq<char>, Seq<char>)>,
    noise: Seq<(Seq<char>, Seq<char>)>,
    updates: Seq<Seq<char>>,
) -> Seq<char> {
    (if report_only {
        "Report-only mode\n"@
    } else {
        seq![]
    }) + "## High-Priority\n"@ + section_text(high) + "## Watch\n"@ + section_text(watch)
        + "## Noise\n"@ + section_text(noise) + "## State Updates\n"@ + update_lines(updates)
        + "No architectural invention\n"@
}

fn append_section(out: &mut Vec<char>, findings: &Vec<(String, String)>)
    ensures
        final(out)@ == old(out)@ + section_text(finding_views(findings@)),
{
    if findings.len() == 0 {
        append_str(out, "None\n");
        return;
    }
    let ghost start = out@;
    let ghost fs = finding_views(findings@);
    let mut i: usize = 0;
    assert(start + finding_lines(fs.take(0)) =~= start);
    while i < findings.len()
        invariant
            i <= findings@.len(),
            fs == finding_views(findings@),
            out@ == start + finding_lines(fs.take(i as int)),
        decreases findings.len() - i,
    {
        assert(fs.take(i + 1).drop_last() =~= fs.take(i as int));
        assert(fs[i as int] == (findings@[i as int].0@, findings@[i as int].1@));
        append_str(out, "- ");
        append_str(out, findings[i].0.as_str());
        append_str(out, " | ");
        append_str(out, findings[i].1.as_str());
        append_str(out, "\n");
        i = i + 1;
        assert(out@ =~= start + finding_lines(fs.take(i as int)));
    }
    assert(fs.take(i as int) =~= fs);
}

/// The text of one report section.
pub fn format_section(findings: &Vec<(String, String)>) -> (r: String)
    ensures
        r@ == section_text(finding_views(findings@)),
{
    let mut out: Vec<char> = Vec::new();
    append_section(&mut out, findings);
    assert(out@ =~= section_text(finding_views(findings@)));
    string_from_chars(&out)
}

/// The body of a triage report, from the findings of each section (already ordered) and the
/// state updates.
pub fn triage_report_body(
    report_only: bool,
    high: &Vec<(String, String)>,
    watch: &Vec<(String, String)>,
    noise: &Vec<(String, String)>,
    state_updates: &Vec<String>,
) -> (r: String)
    ensures
        r@ == triage_body(
            report_only,
            finding_views(high@),
            finding_views(watch@),
            finding_views(noise@),
            string_views(state_updates@),
        ),
{
    let mut out: Vec<char> = Vec::new();
    if report_only {
        append_str(&mut out, "Report-only mode\n");
    }
    append_str(&mut out, "## High-Priority\n");
    append_section(&mut out, high);
    append_str(&mut out, "## Watch\n");
    append_section(&mut out, watch);
    append_str(&mut out, "## Noise\n");
    append_section(&mut out, noise);
    append_str(&mut out, "## State Updates\n");
    let ghost start = out@;
    let ghost us = string_views(state_updates@);
    let mut i: usize = 0;
    assert(start + update_lines(us.take(0)) =~= start);
    while i < state_updates.len()
        invariant
            i <= state_updates@.len(),
            us == string_views(state_updates@),
            out@ == start + update_lines(us.take(i as int)),
        decreases state_updates.len() - i,
    {
        assert(us.take(i + 1).drop_last() =~= us.take(i as int));
        assert(us[i as int] == state_updates@[i as int]@);
        append_str(&mut out, "- ");
        append_str(&mut out, state_updates[i].as_str());
        append_str(&mut out, "\n");
        i = i + 1;
        assert(out@ =~= start + update_lines(us.take(i as int)));
    }
    assert(us.take(i as int) =~= us);
    append_str(&mut out, "No architectural invention\n");
    let ghost want = triage_body(
        report_only,
        finding_views(high@),
        finding_views(watch@),
        finding_views(noise@),
        us,
    );
    assert(out@ =~= want);
    string_from_chars(&out)
}

} // verus!
