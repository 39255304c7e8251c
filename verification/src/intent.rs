//! Test intent: test recommendations derived from an impact report — which
//! scenarios to test (by confidence tier), which risks the change brings,
//! where coverage is missing, and what is deliberately not tested, each with
//! the reasoning behind it.
use vstd::prelude::*;

use crate::confidence::{chain_spec, mul_conf, mul_conf_exec, CONFIDENCE_ONE};
use crate::edge::{tier_of, ConfidenceTier};
use crate::explanation::{
    chain_ok, percent, percent_exec, step_confidences, step_views, ExplanationChain, ReasoningStep,
};
use crate::report::{AmbiguityEntry, ImpactEntry, ImpactReport, NotImpactedEntry};
use crate::text::{cat2, cat3, chars_of, decimal, decimal_exec, extend, join, join_strings, push_str, string_of, views};

verus! {

broadcast use vstd::string::group_string_axioms;

/// Test intent: what to test and why.
#[derive(Debug, Clone)]
pub struct TestIntent {
    /// High-confidence scenarios: definitely test these
    pub high_confidence: Vec<TestScenario>,
    /// Medium-confidence scenarios: recommended
    pub medium_confidence: Vec<TestScenario>,
    /// Low-confidence scenarios: if time permits
    pub low_confidence: Vec<TestScenario>,
    /// Identified risks
    pub risks: Vec<Risk>,
    /// Coverage gaps identified
    pub coverage_gaps: Vec<CoverageGap>,
    /// Entities deliberately not tested, with the reasoning
    pub decided_not_to_test: Vec<SkippedEntity>,
    /// Summary statistics
    pub summary: TestIntentSummary,
}

/// One recommended test scenario. Confidence in millionths.
#[derive(Debug, Clone)]
pub struct TestScenario {
    pub description: String,
    pub rationale: String,
    pub confidence: u32,
    pub related_entity: String,
    pub explanation_chain: ExplanationChain,
}

/// A risk the change brings.
#[derive(Debug, Clone)]
pub struct Risk {
    pub severity: RiskSeverity,
    pub description: String,
    pub mitigation: String,
}

/// How severe a risk is.
#[derive(Debug, Clone, Copy, PartialEq, Eq, Structural)]
pub enum RiskSeverity {
    High,
    Medium,
    Low,
}

/// An entity deliberately not tested. Confidence in millionths.
#[derive(Debug, Clone)]
pub struct SkippedEntity {
    pub entity: String,
    pub reason: String,
    pub confidence_of_safety: u32,
}

/// A gap in test coverage.
#[derive(Debug, Clone)]
pub struct CoverageGap {
    pub entity: String,
    pub description: String,
    pub recommendation: String,
}

/// Summary counts.
#[derive(Debug, Clone, Copy, PartialEq, Eq, Structural)]
pub struct TestIntentSummary {
    pub total_scenarios: usize,
    pub high_count: usize,
    pub medium_count: usize,
    pub low_count: usize,
    pub risk_count: usize,
}

/// An explanation as plain values: summary, steps, overall confidence.
pub open spec fn chain_view(c: ExplanationChain) -> (Seq<char>, Seq<(usize, Seq<char>, Seq<char>, u32)>, u32) {
    (c.summary@, step_views(c.steps@), c.overall_confidence)
}

/// A scenario as plain values.
pub open spec fn scenario_view(s: TestScenario) -> (
    Seq<char>,
    Seq<char>,
    u32,
    Seq<char>,
    (Seq<char>, Seq<(usize, Seq<char>, Seq<char>, u32)>, u32),
) {
    (s.description@, s.rationale@, s.confidence, s.related_entity@, chain_view(s.explanation_chain))
}

/// The views of some scenarios.
pub open spec fn scenario_views(v: Seq<TestScenario>) -> Seq<
    (Seq<char>, Seq<char>, u32, Seq<char>, (Seq<char>, Seq<(usize, Seq<char>, Seq<char>, u32)>, u32)),
> {
    v.map_values(|s: TestScenario| scenario_view(s))
}

/// The scenario "still functions correctly" for a direct impact.
pub open spec fn direct_scenario(e: ImpactEntry) -> (
    Seq<char>,
    Seq<char>,
    u32,
    Seq<char>,
    (Seq<char>, Seq<(usize, Seq<char>, Seq<char>, u32)>, u32),
) {
    (
        "Verify "@ + e.name@ + " still functions correctly after change"@,
        e.reason@,
        e.confidence,
        e.name@,
        chain_view(e.explanation_chain),
    )
}

/// The error-handling scenario for a direct impact, at 0.9 of its confidence.
pub open spec fn error_scenario(e: ImpactEntry) -> (
    Seq<char>,
    Seq<char>,
    u32,
    Seq<char>,
    (Seq<char>, Seq<(usize, Seq<char>, Seq<char>, u32)>, u32),
) {
    let c = mul_conf(e.confidence as nat, 900_000) as u32;
    (
        "Verify "@ + e.name@ + " properly handles error cases after change"@,
        "Direct dependency means error handling paths may also be affected"@,
        c,
        e.name@,
        (
            "Error handling test for "@ + e.name@,
            seq![
                (
                    1usize,
                    "Direct dependency on changed code"@,
                    "Error paths may also be affected by the change"@,
                    c,
                ),
            ],
            c,
        ),
    )
}

/// The end-to-end scenario for an indirect impact.
pub open spec fn indirect_scenario(e: ImpactEntry) -> (
    Seq<char>,
    Seq<char>,
    u32,
    Seq<char>,
    (Seq<char>, Seq<(usize, Seq<char>, Seq<char>, u32)>, u32),
) {
    (
        "Verify "@ + e.name@ + " end-to-end flow still works (transitive dependency via "@ + decimal(
            e.depth as nat,
        ) + " hops)"@,
        e.reason@,
        e.confidence,
        e.name@,
        chain_view(e.explanation_chain),
    )
}

/// The scenarios of tier `t` from the first `n` direct impacts: each one's
/// own scenario in its tier, and its error-handling scenario among the high ones.
pub open spec fn direct_scenarios(ds: Seq<ImpactEntry>, n: int, t: ConfidenceTier) -> Seq<
    (Seq<char>, Seq<char>, u32, Seq<char>, (Seq<char>, Seq<(usize, Seq<char>, Seq<char>, u32)>, u32)),
>
    decreases n,
{
    if n <= 0 || n > ds.len() {
        seq![]
    } else {
        let e = ds[n - 1];
        direct_scenarios(ds, n - 1, t) + (if tier_of(e.confidence) == t {
            seq![direct_scenario(e)]
        } else {
            seq![]
        }) + (if t == ConfidenceTier::High {
            seq![error_scenario(e)]
        } else {
            seq![]
        })
    }
}

/// The scenarios of tier `t` from the first `n` indirect impacts.
pub open spec fn indirect_scenarios(is: Seq<ImpactEntry>, n: int, t: ConfidenceTier) -> Seq<
    (Seq<char>, Seq<char>, u32, Seq<char>, (Seq<char>, Seq<(usize, Seq<char>, Seq<char>, u32)>, u32)),
>
    decreases n,
{
    if n <= 0 || n > is.len() {
        seq![]
    } else {
        let e = is[n - 1];
        indirect_scenarios(is, n - 1, t) + if tier_of(e.confidence) == t {
            seq![indirect_scenario(e)]
        } else {
            seq![]
        }
    }
}

/// The scenarios of a tier for a report.
pub open spec fn tier_scenarios(r: ImpactReport, t: ConfidenceTier) -> Seq<
    (Seq<char>, Seq<char>, u32, Seq<char>, (Seq<char>, Seq<(usize, Seq<char>, Seq<char>, u32)>, u32)),
> {
    direct_scenarios(r.direct_impacts@, r.direct_impacts@.len() as int, t) + indirect_scenarios(
        r.indirect_impacts@,
        r.indirect_impacts@.len() as int,
        t,
    )
}

/// A risk as plain values.
pub open spec fn risk_view(r: Risk) -> (RiskSeverity, Seq<char>, Seq<char>) {
    (r.severity, r.description@, r.mitigation@)
}

/// The regression risks of the first `n` direct impacts.
pub open spec fn direct_risks(ds: Seq<ImpactEntry>, n: int) -> Seq<(RiskSeverity, Seq<char>, Seq<char>)>
    decreases n,
{
    if n <= 0 || n > ds.len() {
        seq![]
    } else {
        let e = ds[n - 1];
        direct_risks(ds, n - 1).push(
            (
                RiskSeverity::High,
                e.name@ + " directly depends on changed code — regression risk if behavior changes"@,
                "Run existing tests for "@ + e.name@ + " and verify expected behavior"@,
            ),
        )
    }
}

/// The risks of the first `n` indirect impacts: those above 0.7 confidence.
pub open spec fn indirect_risks(is: Seq<ImpactEntry>, n: int) -> Seq<(RiskSeverity, Seq<char>, Seq<char>)>
    decreases n,
{
    if n <= 0 || n > is.len() {
        seq![]
    } else {
        let e = is[n - 1];
        indirect_risks(is, n - 1) + if e.confidence > 700_000 {
            seq![
                (
                    RiskSeverity::Medium,
                    e.name@ + " is indirectly affected via "@ + decimal(e.depth as nat) + "-hop chain with "@
                        + decimal(percent(e.confidence)) + "% confidence"@,
                    "Integration test covering the path: "@ + join(views(e.path@), " → "@),
                ),
            ]
        } else {
            seq![]
        }
    }
}

/// The risk of an ambiguity.
pub open spec fn ambiguity_risk(a: AmbiguityEntry) -> (RiskSeverity, Seq<char>, Seq<char>) {
    (RiskSeverity::High, "Ambiguity: "@ + a.description@, a.recommendation@)
}

/// All risks of a report, in order: direct, indirect, ambiguities.
pub open spec fn report_risks(r: ImpactReport) -> Seq<(RiskSeverity, Seq<char>, Seq<char>)> {
    direct_risks(r.direct_impacts@, r.direct_impacts@.len() as int) + indirect_risks(
        r.indirect_impacts@,
        r.indirect_impacts@.len() as int,
    ) + r.ambiguities@.map_values(|a: AmbiguityEntry| ambiguity_risk(a))
}

/// The coverage gap of an impacted entity.
pub open spec fn gap_of(e: ImpactEntry) -> (Seq<char>, Seq<char>, Seq<char>) {
    (
        e.name@,
        e.name@ + " is impacted but has no linked test coverage in the graph"@,
        "Add test coverage for "@ + e.name@ + " focusing on the changed behavior"@,
    )
}

/// A coverage gap as plain values.
pub open spec fn gap_view(g: CoverageGap) -> (Seq<char>, Seq<char>, Seq<char>) {
    (g.entity@, g.description@, g.recommendation@)
}

/// A skipped entity as plain values.
pub open spec fn skipped_view(s: SkippedEntity) -> (Seq<char>, Seq<char>, u32) {
    (s.entity@, s.reason@, s.confidence_of_safety)
}

/// The views of some risks.
pub open spec fn risk_views(v: Seq<Risk>) -> Seq<(RiskSeverity, Seq<char>, Seq<char>)> {
    v.map_values(|x: Risk| risk_view(x))
}

/// The views of some coverage gaps.
pub open spec fn gap_views(v: Seq<CoverageGap>) -> Seq<(Seq<char>, Seq<char>, Seq<char>)> {
    v.map_values(|x: CoverageGap| gap_view(x))
}

/// The coverage gaps of some impacted entities.
pub open spec fn gaps_of(v: Seq<ImpactEntry>) -> Seq<(Seq<char>, Seq<char>, Seq<char>)> {
    v.map_values(|e: ImpactEntry| gap_of(e))
}

/// The views of some skipped entities.
pub open spec fn skipped_views(v: Seq<SkippedEntity>) -> Seq<(Seq<char>, Seq<char>, u32)> {
    v.map_values(|x: SkippedEntity| skipped_view(x))
}

/// What is skipped for an entity found not impacted: its name, reason and confidence.
pub open spec fn skip_of(n: NotImpactedEntry) -> (Seq<char>, Seq<char>, u32) {
    (n.name@, n.reason@, n.confidence)
}

/// The summary counts of an intent's lists.
pub open spec fn summary_of(t: TestIntent) -> TestIntentSummary {
    TestIntentSummary {
        total_scenarios: (t.high_confidence@.len() + t.medium_confidence@.len()
            + t.low_confidence@.len()) as usize,
        high_count: t.high_confidence@.len() as usize,
        medium_count: t.medium_confidence@.len() as usize,
        low_count: t.low_confidence@.len() as usize,
        risk_count: t.risks@.len() as usize,
    }
}

/// The intent derived from a report.
pub open spec fn intent_matches(r: ImpactReport, t: TestIntent) -> bool {
    &&& scenario_views(t.high_confidence@) == tier_scenarios(r, ConfidenceTier::High)
    &&& scenario_views(t.medium_confidence@) == tier_scenarios(r, ConfidenceTier::Medium)
    &&& scenario_views(t.low_confidence@) == tier_scenarios(r, ConfidenceTier::Low)
    &&& risk_views(t.risks@) == report_risks(r)
    &&& gap_views(t.coverage_gaps@) == gaps_of(r.direct_impacts@ + r.indirect_impacts@)
    &&& skipped_views(t.decided_not_to_test@) == r.not_impacted@.map_values(
        |n: NotImpactedEntry| skip_of(n),
    )
    &&& t.summary == summary_of(t)
}

/// The confidences of the impacts in a report are valid.
pub open spec fn report_confidences_ok(r: ImpactReport) -> bool {
    &&& forall|i: int|
        0 <= i < r.direct_impacts@.len() ==> (#[trigger] r.direct_impacts@[i]).confidence <= CONFIDENCE_ONE
    &&& forall|i: int|
        0 <= i < r.indirect_impacts@.len() ==> (#[trigger] r.indirect_impacts@[i]).confidence
            <= CONFIDENCE_ONE
}

/// The direct scenarios of a tier are of that tier, but for the
/// error-handling scenarios, which are all among the high ones.
proof fn lemma_direct_tiers(ds: Seq<ImpactEntry>, n: int, t: ConfidenceTier)
    requires
        0 <= n <= ds.len(),
    ensures
        forall|k: int|
            0 <= k < direct_scenarios(ds, n, t).len() ==> tier_of((#[trigger] direct_scenarios(ds, n, t)[k]).2) == t || (t
                == ConfidenceTier::High && exists|j: int| 0 <= j < n && direct_scenarios(ds, n, t)[k] == error_scenario(ds[j])),
    decreases n,
{
    if n > 0 {
        lemma_direct_tiers(ds, n - 1, t);
        let prev = direct_scenarios(ds, n - 1, t);
        let e = ds[n - 1];
        let own = if tier_of(e.confidence) == t {
            seq![direct_scenario(e)]
        } else {
            seq![]
        };
        let err = if t == ConfidenceTier::High {
            seq![error_scenario(e)]
        } else {
            seq![]
        };
        let all = direct_scenarios(ds, n, t);
        assert(all == prev + own + err);
        assert forall|k: int| 0 <= k < all.len() implies tier_of((#[trigger] all[k]).2) == t || (t == ConfidenceTier::High
            && exists|j: int| 0 <= j < n && all[k] == error_scenario(ds[j])) by {
            if k < prev.len() {
                assert(all[k] == prev[k]);
                if !(tier_of(prev[k].2) == t) {
                    let j = choose|j: int| 0 <= j < n - 1 && prev[k] == error_scenario(ds[j]);
                    assert(0 <= j < n && all[k] == error_scenario(ds[j]));
                }
            } else if k < prev.len() + own.len() {
                assert(all[k] == own[k - prev.len()]);
            } else {
                assert(all[k] == err[k - prev.len() - own.len()]);
                assert(all[k] == error_scenario(ds[n - 1]));
            }
        }
    }
}

/// The indirect scenarios of a tier are of that tier.
proof fn lemma_indirect_tiers(is: Seq<ImpactEntry>, n: int, t: ConfidenceTier)
    requires
        0 <= n <= is.len(),
    ensures
        forall|k: int|
            0 <= k < indirect_scenarios(is, n, t).len() ==> tier_of((#[trigger] indirect_scenarios(is, n, t)[k]).2) == t,
    decreases n,
{
    if n > 0 {
        lemma_indirect_tiers(is, n - 1, t);
        let prev = indirect_scenarios(is, n - 1, t);
        let all = indirect_scenarios(is, n, t);
        assert forall|k: int| 0 <= k < all.len() implies tier_of((#[trigger] all[k]).2) == t by {
            if k < prev.len() {
                assert(all[k] == prev[k]);
            }
        }
    }
}

/// The scenarios of a tier for a report are of that tier, but for the
/// error-handling scenarios of direct impacts, which are all high.
proof fn lemma_tier_scenarios(r: ImpactReport, t: ConfidenceTier)
    ensures
        forall|k: int|
            0 <= k < tier_scenarios(r, t).len() ==> tier_of((#[trigger] tier_scenarios(r, t)[k]).2) == t || (t
                == ConfidenceTier::High && exists|j: int|
                0 <= j < r.direct_impacts@.len() && tier_scenarios(r, t)[k] == error_scenario(r.direct_impacts@[j])),
{
    let ds = r.direct_impacts@;
    let is = r.indirect_impacts@;
    lemma_direct_tiers(ds, ds.len() as int, t);
    lemma_indirect_tiers(is, is.len() as int, t);
    let a = direct_scenarios(ds, ds.len() as int, t);
    let b = indirect_scenarios(is, is.len() as int, t);
    assert forall|k: int| 0 <= k < tier_scenarios(r, t).len() implies tier_of((#[trigger] tier_scenarios(r, t)[k]).2)
        == t || (t == ConfidenceTier::High && exists|j: int|
        0 <= j < r.direct_impacts@.len() && tier_scenarios(r, t)[k] == error_scenario(r.direct_impacts@[j])) by {
        if k < a.len() {
            assert(tier_scenarios(r, t)[k] == a[k]);
        } else {
            assert(tier_scenarios(r, t)[k] == b[k - a.len()]);
        }
    }
}

/// Each of the first `n` direct impacts has its own scenario among the
/// scenarios of its tier, and its error-handling scenario among the high ones.
proof fn lemma_direct_present(ds: Seq<ImpactEntry>, n: int, j: int)
    requires
        0 <= j < n <= ds.len(),
    ensures
        direct_scenarios(ds, n, tier_of(ds[j].confidence)).contains(direct_scenario(ds[j])),
        direct_scenarios(ds, n, ConfidenceTier::High).contains(error_scenario(ds[j])),
    decreases n,
{
    let t = tier_of(ds[j].confidence);
    let prev = direct_scenarios(ds, n - 1, t);
    let prevh = direct_scenarios(ds, n - 1, ConfidenceTier::High);
    let e = ds[n - 1];
    let own = if tier_of(e.confidence) == t {
        seq![direct_scenario(e)]
    } else {
        seq![]
    };
    let err = if t == ConfidenceTier::High {
        seq![error_scenario(e)]
    } else {
        seq![]
    };
    let ownh = if tier_of(e.confidence) == ConfidenceTier::High {
        seq![direct_scenario(e)]
    } else {
        seq![]
    };
    let errh = seq![error_scenario(e)];
    assert(direct_scenarios(ds, n, t) == prev + own + err);
    assert(direct_scenarios(ds, n, ConfidenceTier::High) == prevh + ownh + errh);
    if j < n - 1 {
        lemma_direct_present(ds, n - 1, j);
        let k = choose|k: int| 0 <= k < prev.len() && prev[k] == direct_scenario(ds[j]);
        assert(direct_scenarios(ds, n, t)[k] == prev[k]);
        let kh = choose|kh: int| 0 <= kh < prevh.len() && prevh[kh] == error_scenario(ds[j]);
        assert(direct_scenarios(ds, n, ConfidenceTier::High)[kh] == prevh[kh]);
    } else {
        assert(direct_scenarios(ds, n, t)[prev.len() as int] == direct_scenario(ds[j]));
        assert(direct_scenarios(ds, n, ConfidenceTier::High)[prevh.len() as int + ownh.len()] == error_scenario(ds[j]));
    }
}

/// Each of the first `n` indirect impacts has its scenario among the
/// scenarios of its tier.
proof fn lemma_indirect_present(is: Seq<ImpactEntry>, n: int, j: int)
    requires
        0 <= j < n <= is.len(),
    ensures
        indirect_scenarios(is, n, tier_of(is[j].confidence)).contains(indirect_scenario(is[j])),
    decreases n,
{
    let t = tier_of(is[j].confidence);
    let prev = indirect_scenarios(is, n - 1, t);
    if j < n - 1 {
        lemma_indirect_present(is, n - 1, j);
        let k = choose|k: int| 0 <= k < prev.len() && prev[k] == indirect_scenario(is[j]);
        assert(indirect_scenarios(is, n, t)[k] == prev[k]);
    } else {
        assert(indirect_scenarios(is, n, t)[prev.len() as int] == indirect_scenario(is[j]));
    }
}

/// No impact goes untested: each direct impact's scenario is in the list of
/// its confidence tier and its error-handling scenario among the high ones,
/// and each indirect impact's scenario is in the list of its tier.
pub proof fn every_impact_has_its_scenarios(r: ImpactReport, t: TestIntent)
    requires
        intent_matches(r, t),
    ensures
        forall|j: int|
            0 <= j < r.direct_impacts@.len() ==> scenario_views(
                tier_list(t, tier_of((#[trigger] r.direct_impacts@[j]).confidence)),
            ).contains(direct_scenario(r.direct_impacts@[j])) && scenario_views(t.high_confidence@).contains(
                error_scenario(r.direct_impacts@[j]),
            ),
        forall|j: int|
            0 <= j < r.indirect_impacts@.len() ==> scenario_views(
                tier_list(t, tier_of((#[trigger] r.indirect_impacts@[j]).confidence)),
            ).contains(indirect_scenario(r.indirect_impacts@[j])),
{
    let ds = r.direct_impacts@;
    let is = r.indirect_impacts@;
    assert forall|j: int| 0 <= j < ds.len() implies scenario_views(
        tier_list(t, tier_of((#[trigger] ds[j]).confidence)),
    ).contains(direct_scenario(ds[j])) && scenario_views(t.high_confidence@).contains(error_scenario(ds[j])) by {
        lemma_direct_present(ds, ds.len() as int, j);
        let tj = tier_of(ds[j].confidence);
        let a = direct_scenarios(ds, ds.len() as int, tj);
        let k = choose|k: int| 0 <= k < a.len() && a[k] == direct_scenario(ds[j]);
        assert(tier_scenarios(r, tj)[k] == a[k]);
        let ah = direct_scenarios(ds, ds.len() as int, ConfidenceTier::High);
        let kh = choose|kh: int| 0 <= kh < ah.len() && ah[kh] == error_scenario(ds[j]);
        assert(tier_scenarios(r, ConfidenceTier::High)[kh] == ah[kh]);
    }
    assert forall|j: int| 0 <= j < is.len() implies scenario_views(
        tier_list(t, tier_of((#[trigger] is[j]).confidence)),
    ).contains(indirect_scenario(is[j])) by {
        lemma_indirect_present(is, is.len() as int, j);
        let tj = tier_of(is[j].confidence);
        let a = direct_scenarios(ds, ds.len() as int, tj);
        let b = indirect_scenarios(is, is.len() as int, tj);
        let k = choose|k: int| 0 <= k < b.len() && b[k] == indirect_scenario(is[j]);
        assert(tier_scenarios(r, tj)[a.len() + k] == b[k]);
    }
}

/// The scenario list of a tier.
pub open spec fn tier_list(t: TestIntent, tier: ConfidenceTier) -> Seq<TestScenario> {
    match tier {
        ConfidenceTier::High => t.high_confidence@,
        ConfidenceTier::Medium => t.medium_confidence@,
        ConfidenceTier::Low => t.low_confidence@,
    }
}

/// Every scenario is placed in the list of the tier its confidence falls in
/// (high from 0.85, medium from 0.60, low below), except the error-handling
/// scenario of each direct impact, which is always among the high ones.
pub proof fn scenarios_sit_in_their_confidence_tier(r: ImpactReport, t: TestIntent)
    requires
        intent_matches(r, t),
    ensures
        forall|i: int|
            0 <= i < t.low_confidence@.len() ==> tier_of((#[trigger] t.low_confidence@[i]).confidence)
                == ConfidenceTier::Low,
        forall|i: int|
            0 <= i < t.medium_confidence@.len() ==> tier_of((#[trigger] t.medium_confidence@[i]).confidence)
                == ConfidenceTier::Medium,
        forall|i: int|
            0 <= i < t.high_confidence@.len() ==> tier_of((#[trigger] t.high_confidence@[i]).confidence)
                == ConfidenceTier::High || exists|j: int|
                0 <= j < r.direct_impacts@.len() && scenario_view(t.high_confidence@[i]) == error_scenario(
                    r.direct_impacts@[j],
                ),
{
    lemma_tier_scenarios(r, ConfidenceTier::High);
    lemma_tier_scenarios(r, ConfidenceTier::Medium);
    lemma_tier_scenarios(r, ConfidenceTier::Low);
    assert forall|i: int| 0 <= i < t.low_confidence@.len() implies tier_of((#[trigger] t.low_confidence@[i]).confidence)
        == ConfidenceTier::Low by {
        assert(scenario_views(t.low_confidence@)[i] == scenario_view(t.low_confidence@[i]));
        assert(tier_scenarios(r, ConfidenceTier::Low)[i] == scenario_view(t.low_confidence@[i]));
    }
    assert forall|i: int| 0 <= i < t.medium_confidence@.len() implies tier_of(
        (#[trigger] t.medium_confidence@[i]).confidence,
    ) == ConfidenceTier::Medium by {
        assert(scenario_views(t.medium_confidence@)[i] == scenario_view(t.medium_confidence@[i]));
        assert(tier_scenarios(r, ConfidenceTier::Medium)[i] == scenario_view(t.medium_confidence@[i]));
    }
    assert forall|i: int| 0 <= i < t.high_confidence@.len() implies tier_of((#[trigger] t.high_confidence@[i]).confidence)
        == ConfidenceTier::High || exists|j: int|
        0 <= j < r.direct_impacts@.len() && scenario_view(t.high_confidence@[i]) == error_scenario(
            r.direct_impacts@[j],
        ) by {
        assert(scenario_views(t.high_confidence@)[i] == scenario_view(t.high_confidence@[i]));
        assert(tier_scenarios(r, ConfidenceTier::High)[i] == scenario_view(t.high_confidence@[i]));
    }
}

/// Each direct impact gives two scenarios over the three tiers.
proof fn lemma_direct_count(ds: Seq<ImpactEntry>, n: int)
    requires
        0 <= n <= ds.len(),
    ensures
        direct_scenarios(ds, n, ConfidenceTier::High).len() + direct_scenarios(ds, n, ConfidenceTier::Medium).len()
            + direct_scenarios(ds, n, ConfidenceTier::Low).len() == 2 * n,
    decreases n,
{
    if n > 0 {
        lemma_direct_count(ds, n - 1);
    }
}

/// Each direct impact gives one regression risk.
proof fn lemma_direct_risks_len(ds: Seq<ImpactEntry>, n: int)
    requires
        0 <= n <= ds.len(),
    ensures
        direct_risks(ds, n).len() == n,
    decreases n,
{
    if n > 0 {
        lemma_direct_risks_len(ds, n - 1);
    }
}

/// Each indirect impact gives one scenario over the three tiers.
proof fn lemma_indirect_count(is: Seq<ImpactEntry>, n: int)
    requires
        0 <= n <= is.len(),
    ensures
        indirect_scenarios(is, n, ConfidenceTier::High).len() + indirect_scenarios(
            is,
            n,
            ConfidenceTier::Medium,
        ).len() + indirect_scenarios(is, n, ConfidenceTier::Low).len() == n,
    decreases n,
{
    if n > 0 {
        lemma_indirect_count(is, n - 1);
    }
}

fn direct_scenario_exec(e: &ImpactEntry) -> (r: TestScenario)
    ensures
        scenario_view(r) == direct_scenario(*e),
{
    TestScenario {
        description: cat3("Verify ", e.name.as_str(), " still functions correctly after change"),
        rationale: e.reason.clone(),
        confidence: e.confidence,
        related_entity: e.name.clone(),
        explanation_chain: e.explanation_chain.duplicate(),
    }
}

fn error_scenario_exec(e: &ImpactEntry) -> (r: TestScenario)
    requires
        e.confidence <= CONFIDENCE_ONE,
    ensures
        scenario_view(r) == error_scenario(*e),
{
    let c = mul_conf_exec(e.confidence, 900_000);
    let summary = cat2("Error handling test for ", e.name.as_str());
    let mut chain = ExplanationChain::new(summary.as_str());
    let ghost before = chain.steps@;
    chain.add_step(
        "Direct dependency on changed code",
        "Error paths may also be affected by the change",
        c,
    );
    proof {
        let cs = step_confidences(before).push(c);
        assert(step_confidences(before) =~= seq![]);
        assert(cs.drop_last() =~= seq![]);
        assert(chain_spec(cs.drop_last()) == CONFIDENCE_ONE);
        assert((1_000_000 * (c as nat)) / 1_000_000 == c as nat) by (nonlinear_arith);
        assert(chain_spec(cs) == c);
        assert(step_views(before) =~= seq![]);
    }
    TestScenario {
        description: cat3("Verify ", e.name.as_str(), " properly handles error cases after change"),
        rationale: "Direct dependency means error handling paths may also be affected".to_string(),
        confidence: c,
        related_entity: e.name.clone(),
        explanation_chain: chain,
    }
}

fn indirect_scenario_exec(e: &ImpactEntry) -> (r: TestScenario)
    ensures
        scenario_view(r) == indirect_scenario(*e),
{
    let mut d = chars_of("Verify ");
    push_str(&mut d, e.name.as_str());
    push_str(&mut d, " end-to-end flow still works (transitive dependency via ");
    extend(&mut d, &decimal_exec(e.depth as u64));
    push_str(&mut d, " hops)");
    TestScenario {
        description: string_of(&d),
        rationale: e.reason.clone(),
        confidence: e.confidence,
        related_entity: e.name.clone(),
        explanation_chain: e.explanation_chain.duplicate(),
    }
}

fn direct_risk_exec(e: &ImpactEntry) -> (r: Risk)
    ensures
        risk_view(r) == (
            RiskSeverity::High,
            e.name@ + " directly depends on changed code — regression risk if behavior changes"@,
            "Run existing tests for "@ + e.name@ + " and verify expected behavior"@,
        ),
{
    Risk {
        severity: RiskSeverity::High,
        description: cat2(
            e.name.as_str(),
            " directly depends on changed code — regression risk if behavior changes",
        ),
        mitigation: cat3("Run existing tests for ", e.name.as_str(), " and verify expected behavior"),
    }
}

fn indirect_risk_exec(e: &ImpactEntry) -> (r: Risk)
    ensures
        risk_view(r) == (
            RiskSeverity::Medium,
            e.name@ + " is indirectly affected via "@ + decimal(e.depth as nat) + "-hop chain with "@
                + decimal(percent(e.confidence)) + "% confidence"@,
            "Integration test covering the path: "@ + join(views(e.path@), " → "@),
        ),
{
    let mut d = chars_of(e.name.as_str());
    push_str(&mut d, " is indirectly affected via ");
    extend(&mut d, &decimal_exec(e.depth as u64));
    push_str(&mut d, "-hop chain with ");
    extend(&mut d, &decimal_exec(percent_exec(e.confidence)));
    push_str(&mut d, "% confidence");
    let mut m = chars_of("Integration test covering the path: ");
    let joined = join_strings(e.path.as_slice(), " → ");
    extend(&mut m, &joined);
    Risk { severity: RiskSeverity::Medium, description: string_of(&d), mitigation: string_of(&m) }
}

fn gap_exec(e: &ImpactEntry) -> (r: CoverageGap)
    ensures
        gap_view(r) == gap_of(*e),
{
    CoverageGap {
        entity: e.name.clone(),
        description: cat2(e.name.as_str(), " is impacted but has no linked test coverage in the graph"),
        recommendation: cat3("Add test coverage for ", e.name.as_str(), " focusing on the changed behavior"),
    }
}

/// Append a scenario to the list of its tier.
fn push_tier(
    t: ConfidenceTier,
    s: TestScenario,
    high: &mut Vec<TestScenario>,
    medium: &mut Vec<TestScenario>,
    low: &mut Vec<TestScenario>,
)
    ensures
        scenario_views(final(high)@) == scenario_views(old(high)@) + (if t == ConfidenceTier::High {
            seq![scenario_view(s)]
        } else {
            seq![]
        }),
        scenario_views(final(medium)@) == scenario_views(old(medium)@) + (if t == ConfidenceTier::Medium {
            seq![scenario_view(s)]
        } else {
            seq![]
        }),
        scenario_views(final(low)@) == scenario_views(old(low)@) + (if t == ConfidenceTier::Low {
            seq![scenario_view(s)]
        } else {
            seq![]
        }),
{
    let ghost v = scenario_view(s);
    match t {
        ConfidenceTier::High => {
            high.push(s);
            assert(scenario_views(high@) =~= scenario_views(old(high)@) + seq![v]);
            assert(scenario_views(medium@) =~= scenario_views(old(medium)@) + seq![]);
            assert(scenario_views(low@) =~= scenario_views(old(low)@) + seq![]);
        },
        ConfidenceTier::Medium => {
            medium.push(s);
            assert(scenario_views(medium@) =~= scenario_views(old(medium)@) + seq![v]);
            assert(scenario_views(high@) =~= scenario_views(old(high)@) + seq![]);
            assert(scenario_views(low@) =~= scenario_views(old(low)@) + seq![]);
        },
        ConfidenceTier::Low => {
            low.push(s);
            assert(scenario_views(low@) =~= scenario_views(old(low)@) + seq![v]);
            assert(scenario_views(high@) =~= scenario_views(old(high)@) + seq![]);
            assert(scenario_views(medium@) =~= scenario_views(old(medium)@) + seq![]);
        },
    }
}

/// Generate test intent from an impact report: for each direct impact, a
/// scenario in its confidence tier, an error-handling scenario among the
/// high ones (at 0.9 of its confidence) and a regression risk; for each
/// indirect impact, an end-to-end scenario in its tier and, above 0.7
/// confidence, a medium risk naming its path; a coverage gap for every
/// impacted entity; a high risk for every ambiguity; and every entity found
/// not impacted among those deliberately not tested.
pub fn generate_test_intent(report: &ImpactReport) -> (r: TestIntent)
    requires
        report_confidences_ok(*report),
        2 * report.direct_impacts@.len() + report.indirect_impacts@.len() <= usize::MAX,
    ensures
        intent_matches(*report, r),
        r.summary.total_scenarios == 2 * report.direct_impacts@.len() + report.indirect_impacts@.len(),
        r.risks@.len() >= report.direct_impacts@.len() + report.ambiguities@.len(),
{
    let ghost ds = report.direct_impacts@;
    let ghost is = report.indirect_impacts@;
    let mut high: Vec<TestScenario> = Vec::new();
    let mut medium: Vec<TestScenario> = Vec::new();
    let mut low: Vec<TestScenario> = Vec::new();
    let mut risks: Vec<Risk> = Vec::new();
    let mut i: usize = 0;
    while i < report.direct_impacts.len()
        invariant
            i <= ds.len(),
            ds == report.direct_impacts@,
            report_confidences_ok(*report),
            scenario_views(high@) == direct_scenarios(ds, i as int, ConfidenceTier::High),
            scenario_views(medium@) == direct_scenarios(ds, i as int, ConfidenceTier::Medium),
            scenario_views(low@) == direct_scenarios(ds, i as int, ConfidenceTier::Low),
            risk_views(risks@) == direct_risks(ds, i as int),
        decreases ds.len() - i,
    {
        let e = &report.direct_impacts[i];
        assert(e.confidence <= CONFIDENCE_ONE);
        let tier = ConfidenceTier::from_score(e.confidence);
        let s = direct_scenario_exec(e);
        push_tier(tier, s, &mut high, &mut medium, &mut low);
        let ghost prev_risks = risks@;
        let rk = direct_risk_exec(e);
        risks.push(rk);
        assert(risk_views(risks@) =~= risk_views(prev_risks).push(risk_view(rk)));
        let es = error_scenario_exec(e);
        let ghost prev_high = high@;
        high.push(es);
        assert(scenario_views(high@) =~= scenario_views(prev_high) + seq![scenario_view(es)]);
        i += 1;
        assert(ds[i - 1] == *e);
    }
    let mut j: usize = 0;
    while j < report.indirect_impacts.len()
        invariant
            j <= is.len(),
            ds == report.direct_impacts@,
            is == report.indirect_impacts@,
            report_confidences_ok(*report),
            scenario_views(high@) == direct_scenarios(ds, ds.len() as int, ConfidenceTier::High)
                + indirect_scenarios(is, j as int, ConfidenceTier::High),
            scenario_views(medium@) == direct_scenarios(ds, ds.len() as int, ConfidenceTier::Medium)
                + indirect_scenarios(is, j as int, ConfidenceTier::Medium),
            scenario_views(low@) == direct_scenarios(ds, ds.len() as int, ConfidenceTier::Low)
                + indirect_scenarios(is, j as int, ConfidenceTier::Low),
            risk_views(risks@) == direct_risks(ds, ds.len() as int) + indirect_risks(is, j as int),
        decreases is.len() - j,
    {
        let e = &report.indirect_impacts[j];
        let tier = ConfidenceTier::from_score(e.confidence);
        let s = indirect_scenario_exec(e);
        push_tier(tier, s, &mut high, &mut medium, &mut low);
        let ghost prev_risks = risks@;
        if e.confidence > 700_000 {
            let rk = indirect_risk_exec(e);
            risks.push(rk);
            assert(risk_views(risks@) =~= risk_views(prev_risks) + seq![risk_view(rk)]);
        } else {
            assert(risk_views(risks@) =~= risk_views(prev_risks) + seq![]);
        }
        j += 1;
        assert(is[j - 1] == *e);
    }
    let mut gaps: Vec<CoverageGap> = Vec::new();
    let mut k: usize = 0;
    while k < report.direct_impacts.len()
        invariant
            k <= ds.len(),
            ds == report.direct_impacts@,
            gap_views(gaps@) == gaps_of(ds.take(k as int)),
        decreases ds.len() - k,
    {
        let g = gap_exec(&report.direct_impacts[k]);
        let ghost prev = gaps@;
        gaps.push(g);
        assert(gap_views(gaps@) =~= gap_views(prev).push(gap_view(g)));
        assert(ds.take(k + 1) =~= ds.take(k as int).push(ds[k as int]));
        assert(gaps_of(ds.take(k + 1)) =~= gaps_of(ds.take(k as int)).push(gap_of(ds[k as int])));
        k += 1;
    }
    assert(ds.take(ds.len() as int) =~= ds);
    let mut k: usize = 0;
    while k < report.indirect_impacts.len()
        invariant
            k <= is.len(),
            ds == report.direct_impacts@,
            is == report.indirect_impacts@,
            gap_views(gaps@) == gaps_of(ds + is.take(k as int)),
        decreases is.len() - k,
    {
        let g = gap_exec(&report.indirect_impacts[k]);
        let ghost prev = gaps@;
        gaps.push(g);
        assert(gap_views(gaps@) =~= gap_views(prev).push(gap_view(g)));
        assert(ds + is.take(k + 1) =~= (ds + is.take(k as int)).push(is[k as int]));
        assert(gaps_of(ds + is.take(k + 1)) =~= gaps_of(ds + is.take(k as int)).push(gap_of(is[k as int])));
        k += 1;
    }
    assert(is.take(is.len() as int) =~= is);
    let ghost ns = report.not_impacted@;
    let mut skipped: Vec<SkippedEntity> = Vec::new();
    let mut k: usize = 0;
    while k < report.not_impacted.len()
        invariant
            k <= ns.len(),
            ns == report.not_impacted@,
            skipped_views(skipped@) == ns.take(k as int).map_values(|n: NotImpactedEntry| skip_of(n)),
        decreases ns.len() - k,
    {
        let n = &report.not_impacted[k];
        let sk = SkippedEntity {
            entity: n.name.clone(),
            reason: n.reason.clone(),
            confidence_of_safety: n.confidence,
        };
        let ghost prev = skipped@;
        skipped.push(sk);
        assert(skipped_views(skipped@) =~= skipped_views(prev).push(skipped_view(sk)));
        assert(ns.take(k + 1).map_values(|n: NotImpactedEntry| skip_of(n)) =~= ns.take(k as int).map_values(
            |n: NotImpactedEntry| skip_of(n),
        ).push(skip_of(ns[k as int])));
        k += 1;
    }
    assert(ns.take(ns.len() as int) =~= ns);
    let ghost amb = report.ambiguities@;
    let ghost base = risk_views(risks@);
    let mut k: usize = 0;
    while k < report.ambiguities.len()
        invariant
            k <= amb.len(),
            amb == report.ambiguities@,
            risk_views(risks@) == base + amb.take(k as int).map_values(|a: AmbiguityEntry| ambiguity_risk(a)),
        decreases amb.len() - k,
    {
        let a = &report.ambiguities[k];
        let rk = Risk {
            severity: RiskSeverity::High,
            description: cat2("Ambiguity: ", a.description.as_str()),
            mitigation: a.recommendation.clone(),
        };
        let ghost prev = risks@;
        risks.push(rk);
        assert(risk_views(risks@) =~= risk_views(prev).push(risk_view(rk)));
        assert(amb.take(k + 1).map_values(|a: AmbiguityEntry| ambiguity_risk(a)) =~= amb.take(
            k as int,
        ).map_values(|a: AmbiguityEntry| ambiguity_risk(a)).push(ambiguity_risk(amb[k as int])));
        k += 1;
    }
    assert(amb.take(amb.len() as int) =~= amb);
    proof {
        lemma_direct_count(ds, ds.len() as int);
        lemma_indirect_count(is, is.len() as int);
        lemma_direct_risks_len(ds, ds.len() as int);
    }
    let total = high.len() + medium.len() + low.len();
    let summary = TestIntentSummary {
        total_scenarios: total,
        high_count: high.len(),
        medium_count: medium.len(),
        low_count: low.len(),
        risk_count: risks.len(),
    };
    TestIntent {
        high_confidence: high,
        medium_confidence: medium,
        low_confidence: low,
        risks,
        coverage_gaps: gaps,
        decided_not_to_test: skipped,
        summary,
    }
}

} // verus!
