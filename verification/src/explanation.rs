//! Explanation chains: every conclusion of the reasoning engine comes with the
//! steps that led to it, each with its evidence, its inference and its
//! confidence (in millionths).
use vstd::prelude::*;

use crate::confidence::{chain_spec, lemma_chain_bound, mul_conf_exec, CONFIDENCE_ONE};
use crate::text::{cat2, cat3, chars_of, decimal, decimal_exec, extend, join, join_exec, push_str, string_of, views, vviews};

verus! {

broadcast use vstd::string::group_string_axioms;

/// One step of a reasoning chain.
#[derive(Debug, Clone)]
pub struct ReasoningStep {
    /// Step number in the chain, from 1
    pub step: usize,
    /// What data or observation this step is based on
    pub evidence: String,
    /// What conclusion was drawn from the evidence
    pub inference: String,
    /// How confident the inference is, in millionths of `[0, 1]`
    pub confidence: u32,
}

/// A complete explanation: a summary and the ordered steps behind it.
#[derive(Debug, Clone)]
pub struct ExplanationChain {
    /// Human-readable summary of the conclusion
    pub summary: String,
    /// The ordered reasoning steps
    pub steps: Vec<ReasoningStep>,
    /// The product of the step confidences, in millionths
    pub overall_confidence: u32,
}

/// A step as plain values: number, evidence, inference, confidence.
pub open spec fn step_view(s: ReasoningStep) -> (usize, Seq<char>, Seq<char>, u32) {
    (s.step, s.evidence@, s.inference@, s.confidence)
}

/// The steps of a chain as plain values.
pub open spec fn step_views(v: Seq<ReasoningStep>) -> Seq<(usize, Seq<char>, Seq<char>, u32)> {
    v.map_values(|s: ReasoningStep| step_view(s))
}

/// The confidences of some steps.
pub open spec fn step_confidences(v: Seq<ReasoningStep>) -> Seq<u32> {
    v.map_values(|s: ReasoningStep| s.confidence)
}

/// A chain is well formed: its steps are numbered from 1 and its overall
/// confidence is the product of theirs.
pub open spec fn chain_ok(c: ExplanationChain) -> bool {
    &&& forall|i: int| 0 <= i < c.steps@.len() ==> (#[trigger] c.steps@[i]).step == i + 1
    &&& forall|i: int| 0 <= i < c.steps@.len() ==> (#[trigger] c.steps@[i]).confidence <= CONFIDENCE_ONE
    &&& c.overall_confidence == chain_spec(step_confidences(c.steps@))
}

/// A confidence as a whole percentage (`{:.0}` of `c × 100`): rounded to the
/// nearest, ties to even.
pub open spec fn percent(c: u32) -> nat {
    let q = (c / 10_000) as nat;
    let r = (c % 10_000) as nat;
    if r > 5_000 {
        q + 1
    } else if r < 5_000 {
        q
    } else if q % 2 == 0 {
        q
    } else {
        q + 1
    }
}

/// The narrative line of one step.
pub open spec fn step_line(s: (usize, Seq<char>, Seq<char>, u32)) -> Seq<char> {
    "Step "@ + decimal(s.0 as nat) + ": Based on "@ + s.1 + " → concluded "@ + s.2 + " (confidence: "@
        + decimal(percent(s.3)) + "%)\n"@
}

/// The narrative lines of the first `n` steps.
pub open spec fn step_lines(steps: Seq<(usize, Seq<char>, Seq<char>, u32)>, n: int) -> Seq<char>
    decreases n,
{
    if n <= 0 || n > steps.len() {
        seq![]
    } else {
        step_lines(steps, n - 1) + step_line(steps[n - 1])
    }
}

/// The narrative of a chain: the summary in bold, one line per step, and the
/// overall confidence.
pub open spec fn narrative(c: ExplanationChain) -> Seq<char> {
    let steps = step_views(c.steps@);
    "**"@ + c.summary@ + "**\n\n"@ + step_lines(steps, steps.len() as int) + "\nOverall confidence: "@
        + decimal(percent(c.overall_confidence)) + "%"@
}

/// A confidence as a whole percentage.
pub fn percent_exec(c: u32) -> (r: u64)
    ensures
        r == percent(c),
{
    let q = (c / 10_000) as u64;
    let r = c % 10_000;
    if r > 5_000 {
        q + 1
    } else if r < 5_000 {
        q
    } else if q % 2 == 0 {
        q
    } else {
        q + 1
    }
}

impl ExplanationChain {
    /// A chain with a summary and no steps (overall confidence 1).
    pub fn new(summary: &str) -> (r: Self)
        ensures
            r.summary@ == summary@,
            r.steps@.len() == 0,
            r.overall_confidence == CONFIDENCE_ONE,
            chain_ok(r),
    {
        let r = ExplanationChain {
            summary: summary.to_string(),
            steps: Vec::new(),
            overall_confidence: CONFIDENCE_ONE,
        };
        assert(step_confidences(r.steps@) =~= seq![]);
        r
    }

    /// Add a step, numbered after the last; the overall confidence becomes
    /// the product of all step confidences.
    pub fn add_step(&mut self, evidence: &str, inference: &str, confidence: u32)
        requires
            chain_ok(*old(self)),
            confidence <= CONFIDENCE_ONE,
            old(self).steps@.len() < usize::MAX,
        ensures
            chain_ok(*final(self)),
            final(self).summary == old(self).summary,
            final(self).steps@.len() == old(self).steps@.len() + 1,
            step_views(final(self).steps@) == step_views(old(self).steps@).push(
                ((old(self).steps@.len() + 1) as usize, evidence@, inference@, confidence),
            ),
            final(self).overall_confidence == chain_spec(
                step_confidences(old(self).steps@).push(confidence),
            ),
    {
        let ghost old_steps = self.steps@;
        proof {
            lemma_chain_bound(step_confidences(old_steps));
        }
        let step_num = self.steps.len() + 1;
        let step = ReasoningStep {
            step: step_num,
            evidence: evidence.to_string(),
            inference: inference.to_string(),
            confidence,
        };
        self.steps.push(step);
        assert(step_confidences(self.steps@) =~= step_confidences(old_steps).push(confidence));
        assert(step_confidences(self.steps@).drop_last() =~= step_confidences(old_steps));
        self.overall_confidence = mul_conf_exec(self.overall_confidence, confidence);
        assert(step_views(self.steps@) =~= step_views(old_steps).push(
            (step_num, evidence@, inference@, confidence),
        ));
    }

    /// A copy of the chain, step by step.
    pub fn duplicate(&self) -> (r: Self)
        ensures
            r.summary@ == self.summary@,
            step_views(r.steps@) == step_views(self.steps@),
            step_confidences(r.steps@) == step_confidences(self.steps@),
            r.overall_confidence == self.overall_confidence,
            chain_ok(*self) ==> chain_ok(r),
    {
        let mut steps: Vec<ReasoningStep> = Vec::new();
        let mut i: usize = 0;
        while i < self.steps.len()
            invariant
                i <= self.steps.len(),
                steps@.len() == i,
                forall|k: int| 0 <= k < i ==> step_view(#[trigger] steps@[k]) == step_view(self.steps@[k]),
            decreases self.steps.len() - i,
        {
            let s = &self.steps[i];
            steps.push(
                ReasoningStep {
                    step: s.step,
                    evidence: s.evidence.clone(),
                    inference: s.inference.clone(),
                    confidence: s.confidence,
                },
            );
            i += 1;
        }
        let r = ExplanationChain {
            summary: self.summary.clone(),
            steps,
            overall_confidence: self.overall_confidence,
        };
        assert(step_views(r.steps@) =~= step_views(self.steps@));
        assert(step_confidences(r.steps@) =~= step_confidences(self.steps@));
        r
    }

    /// The chain as a human-readable narrative.
    pub fn to_narrative(&self) -> (r: String)
        ensures
            r@ == narrative(*self),
    {
        let ghost steps = step_views(self.steps@);
        let mut out: Vec<char> = Vec::new();
        push_str(&mut out, "**");
        push_str(&mut out, self.summary.as_str());
        push_str(&mut out, "**\n\n");
        let ghost head = out@;
        let mut i: usize = 0;
        while i < self.steps.len()
            invariant
                i <= self.steps.len(),
                steps == step_views(self.steps@),
                out@ == head + step_lines(steps, i as int),
            decreases self.steps.len() - i,
        {
            let s = &self.steps[i];
            push_str(&mut out, "Step ");
            extend(&mut out, &decimal_exec(s.step as u64));
            push_str(&mut out, ": Based on ");
            push_str(&mut out, s.evidence.as_str());
            push_str(&mut out, " → concluded ");
            push_str(&mut out, s.inference.as_str());
            push_str(&mut out, " (confidence: ");
            extend(&mut out, &decimal_exec(percent_exec(s.confidence)));
            push_str(&mut out, "%)\n");
            assert(steps[i as int] == step_view(*s));
            assert(out@ =~= head + step_lines(steps, i + 1));
            i += 1;
        }
        push_str(&mut out, "\nOverall confidence: ");
        extend(&mut out, &decimal_exec(percent_exec(self.overall_confidence)));
        push_str(&mut out, "%");
        assert(out@ =~= narrative(*self));
        string_of(&out)
    }
}

/// The steps explaining why an entity is impacted, reached along `path`.
pub open spec fn impact_steps(name: Seq<char>, path: Seq<Seq<char>>, confidence: u32) -> Seq<
    (usize, Seq<char>, Seq<char>, u32),
> {
    if path.len() <= 1 {
        seq![
            (
                1usize,
                "Direct reference to changed entity found in code"@,
                name + " directly references the changed code"@,
                confidence,
            ),
        ]
    } else {
        let hops = decimal((path.len() - 1) as nat);
        seq![
            (
                1usize,
                "Graph traversal found dependency path: "@ + join(path, " → "@),
                name + " is transitively dependent via "@ + hops + " hops"@,
                confidence,
            ),
        ] + if confidence < 850_000 {
            seq![
                (
                    2usize,
                    "Transitive confidence decays over "@ + hops + " hops"@,
                    "Each intermediate dependency reduces certainty"@,
                    confidence,
                ),
            ]
        } else {
            seq![]
        }
    }
}

/// Build the explanation of why an entity IS impacted: a direct reference
/// for a path of at most one entity; otherwise the dependency path, and, below
/// 0.85 confidence, the decay over its hops.
pub fn explain_impact(entity_name: &str, path: &[String], confidence: u32) -> (r: ExplanationChain)
    requires
        confidence <= CONFIDENCE_ONE,
    ensures
        chain_ok(r),
        r.summary@ == entity_name@ + " is impacted by this change"@,
        step_views(r.steps@) == impact_steps(entity_name@, views(path@), confidence),
{
    let summary = cat2(entity_name, " is impacted by this change");
    let mut chain = ExplanationChain::new(summary.as_str());
    if path.len() <= 1 {
        let inference = cat2(entity_name, " directly references the changed code");
        chain.add_step(
            "Direct reference to changed entity found in code",
            inference.as_str(),
            confidence,
        );
        assert(step_views(chain.steps@) =~= impact_steps(entity_name@, views(path@), confidence));
    } else {
        let mut parts: Vec<Vec<char>> = Vec::new();
        let mut i: usize = 0;
        while i < path.len()
            invariant
                i <= path.len(),
                vviews(parts@) == views(path@).take(i as int),
            decreases path.len() - i,
        {
            let c = chars_of(path[i].as_str());
            let ghost prev = vviews(parts@);
            parts.push(c);
            assert(vviews(parts@) =~= prev.push(c@));
            assert(views(path@).take(i + 1) =~= views(path@).take(i as int).push(path@[i as int]@));
            i += 1;
        }
        assert(views(path@).take(path.len() as int) =~= views(path@));
        let arrow = chars_of(" → ");
        let joined = join_exec(&parts, &arrow);
        let mut evidence = chars_of("Graph traversal found dependency path: ");
        extend(&mut evidence, &joined);
        let hops = decimal_exec((path.len() - 1) as u64);
        let mut inference = chars_of(entity_name);
        push_str(&mut inference, " is transitively dependent via ");
        extend(&mut inference, &hops);
        push_str(&mut inference, " hops");
        let ev = string_of(&evidence);
        let inf = string_of(&inference);
        chain.add_step(ev.as_str(), inf.as_str(), confidence);
        if confidence < 850_000 {
            let mut decay = chars_of("Transitive confidence decays over ");
            extend(&mut decay, &hops);
            push_str(&mut decay, " hops");
            let d = string_of(&decay);
            chain.add_step(d.as_str(), "Each intermediate dependency reduces certainty", confidence);
        }
        assert(step_views(chain.steps@) =~= impact_steps(entity_name@, views(path@), confidence));
    }
    chain
}

/// Build the explanation of why an entity is NOT impacted: one step on the
/// graph's connectivity, with the given reason.
pub fn explain_not_impacted(entity_name: &str, reason: &str, confidence: u32) -> (r: ExplanationChain)
    requires
        confidence <= CONFIDENCE_ONE,
    ensures
        chain_ok(r),
        r.summary@ == entity_name@ + " is NOT impacted by this change"@,
        step_views(r.steps@) == seq![
            (1usize, "Analyzed graph connectivity for "@ + entity_name@, reason@, confidence),
        ],
{
    let summary = cat2(entity_name, " is NOT impacted by this change");
    let mut chain = ExplanationChain::new(summary.as_str());
    let evidence = cat2("Analyzed graph connectivity for ", entity_name);
    chain.add_step(evidence.as_str(), reason, confidence);
    assert(step_views(chain.steps@) =~= seq![
        (1usize, "Analyzed graph connectivity for "@ + entity_name@, reason@, confidence),
    ]);
    chain
}

} // verus!
