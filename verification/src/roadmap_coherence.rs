use vstd::prelude::*;
use vstd::string::StringExecFns;
use crate::text::{chars_of, contains, contains_str, string_views};

verus! {

/// The four planning documents whose agreement is checked.
#[derive(Debug, Clone, PartialEq, Eq)]
pub struct RoadmapCoherenceInput {
    pub feature_list: String,
    pub product_roadmap: String,
    pub bead_tracker: String,
    pub test_plan: String,
}

/// What the check found.
#[derive(Debug, Clone, PartialEq, Eq)]
pub struct RoadmapCoherenceReport {
    pub coherent: bool,
    pub phase_gates: Vec<String>,
    pub test_mappings: Vec<String>,
    pub acceptance_criteria: Vec<String>,
    pub dangling_tasks: Vec<String>,
    pub summary: String,
}

/// The roadmap declares the stage-three convergence gate.
pub open spec fn has_stage_three_gate(input: RoadmapCoherenceInput) -> bool {
    contains(input.product_roadmap@, "Stage 3 | Convergence"@)
}

/// A document carries the convergence row in its in-progress, partly green state.
pub open spec fn has_convergence_row(doc: Seq<char>) -> bool {
    contains(doc, "| BI-029 |"@) && contains(doc, "Red->Green partial"@) && contains(
        doc,
        "In Progress"@,
    )
}

/// The test plan maps the convergence work to its test.
pub open spec fn has_test_mapping(input: RoadmapCoherenceInput) -> bool {
    contains(input.test_plan@, "T-046"@) && contains(input.test_plan@, "roadmap coherence"@)
}

/// The feature list still shows the convergence row as planned.
pub open spec fn has_dangling_task(input: RoadmapCoherenceInput) -> bool {
    contains(input.feature_list@, "| BI-029 |"@) && contains(input.feature_list@, "| Planned |"@)
}

/// All four documents agree and nothing is left dangling.
pub open spec fn roadmap_coherent(input: RoadmapCoherenceInput) -> bool {
    has_stage_three_gate(input) && has_convergence_row(input.feature_list@) && has_convergence_row(
        input.bead_tracker@,
    ) && has_test_mapping(input) && !has_dangling_task(input)
}

fn one_string(s: &str) -> (r: Vec<String>)
    ensures
        string_views(r@) == seq![s@],
{
    let mut v: Vec<String> = Vec::new();
    v.push(String::from_str(s));
    assert(string_views(v@) =~= seq![s@]);
    v
}

fn convergence_row(doc: &Vec<char>) -> (r: bool)
    ensures
        r == has_convergence_row(doc@),
{
    contains_str(doc, "| BI-029 |") && contains_str(doc, "Red->Green partial") && contains_str(
        doc,
        "In Progress",
    )
}

/// Checks that the roadmap, the feature list, the tracker and the test plan agree on the
/// convergence stage.
pub fn validate_roadmap_coherence(input: &RoadmapCoherenceInput) -> (r: RoadmapCoherenceReport)
    ensures
        r.coherent == roadmap_coherent(*input),
        string_views(r.phase_gates@) == (if has_stage_three_gate(*input) {
            seq!["Stage 3 convergence"@]
        } else {
            seq![]
        }),
        string_views(r.test_mappings@) == (if has_test_mapping(*input) {
            seq!["BI-029 -> T-046"@]
        } else {
            seq![]
        }),
        string_views(r.acceptance_criteria@) == seq![
            "all active work has test mapping"@,
            "phase gates"@,
            "no unlabeled tasks"@,
        ],
        string_views(r.dangling_tasks@) == (if has_dangling_task(*input) {
            seq!["BI-029"@]
        } else {
            seq![]
        }),
        r.summary@ == (if r.coherent {
            "roadmap coherence satisfied"@
        } else {
            "missing test mapping or phase gate coherence"@
        }),
{
    let roadmap = chars_of(input.product_roadmap.as_str());
    let features = chars_of(input.feature_list.as_str());
    let tracker = chars_of(input.bead_tracker.as_str());
    let plan = chars_of(input.test_plan.as_str());
    let stage_three_gate = contains_str(&roadmap, "Stage 3 | Convergence");
    let convergence = convergence_row(&features);
    let tracker_row = convergence_row(&tracker);
    let test_mapping = contains_str(&plan, "T-046") && contains_str(&plan, "roadmap coherence");
    let mut acceptance_criteria: Vec<String> = Vec::new();
    acceptance_criteria.push(String::from_str("all active work has test mapping"));
    acceptance_criteria.push(String::from_str("phase gates"));
    acceptance_criteria.push(String::from_str("no unlabeled tasks"));
    assert(string_views(acceptance_criteria@) =~= seq![
        "all active work has test mapping"@,
        "phase gates"@,
        "no unlabeled tasks"@,
    ]);
    let dangling = contains_str(&features, "| BI-029 |") && contains_str(&features, "| Planned |");
    let dangling_tasks: Vec<String> = if dangling {
        one_string("BI-029")
    } else {
        Vec::new()
    };
    assert(!dangling ==> string_views(dangling_tasks@) =~= Seq::<Seq<char>>::empty());
    let coherent = stage_three_gate && convergence && tracker_row && test_mapping
        && !dangling;
    let summary = if coherent {
        String::from_str("roadmap coherence satisfied")
    } else {
        String::from_str("missing test mapping or phase gate coherence")
    };
    let phase_gates: Vec<String> = if stage_three_gate {
        one_string("Stage 3 convergence")
    } else {
        Vec::new()
    };
    assert(!stage_three_gate ==> string_views(phase_gates@) =~= Seq::<Seq<char>>::empty());
    let test_mappings: Vec<String> = if test_mapping {
        one_string("BI-029 -> T-046")
    } else {
        Vec::new()
    };
    assert(!test_mapping ==> string_views(test_mappings@) =~= Seq::<Seq<char>>::empty());
    RoadmapCoherenceReport {
        coherent,
        phase_gates,
        test_mappings,
        acceptance_criteria,
        dangling_tasks,
        summary,
    }
}

} // verus!
