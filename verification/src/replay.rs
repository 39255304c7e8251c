//! Replay checking: compare a decision trace with the trace of the same
//! decision derived again, and report every divergence.
use vstd::prelude::*;

use crate::text::{chars_of, decimal, decimal_exec, digit, extend, push_str, same_text, string_of};
use crate::trace::{analysis_steps, analysis_summary, trace_step_view, trace_step_views, DecisionTrace, TraceStep};

verus! {

broadcast use vstd::string::group_string_axioms;

/// The outcome of a replay check.
#[derive(Debug, Clone)]
pub struct ReplayResult {
    pub original_trace_id: u128,
    pub replayed_trace_id: u128,
    pub is_deterministic: bool,
    pub divergences: Vec<Divergence>,
    pub summary: String,
}

/// One difference between two traces.
#[derive(Debug, Clone)]
pub struct Divergence {
    pub step: usize,
    pub field: String,
    pub original_value: String,
    pub replayed_value: String,
}

/// A divergence as plain values.
pub open spec fn divergence_view(d: Divergence) -> (usize, Seq<char>, Seq<char>, Seq<char>) {
    (d.step, d.field@, d.original_value@, d.replayed_value@)
}

/// The views of some divergences.
pub open spec fn divergence_views(v: Seq<Divergence>) -> Seq<(usize, Seq<char>, Seq<char>, Seq<char>)> {
    v.map_values(|d: Divergence| divergence_view(d))
}

/// The four decimal digits of `f < 10⁴`, zero-padded.
pub open spec fn four_digits(f: nat) -> Seq<char> {
    seq![digit((f / 1_000) % 10), digit((f / 100) % 10), digit((f / 10) % 10), digit(f % 10)]
}

/// A confidence (in millionths) with four decimals, as `{:.4}` prints it:
/// rounded to the nearest ten-thousandth, ties to even.
pub open spec fn fixed4(c: u32) -> Seq<char> {
    let q = (c / 100) as nat;
    let r = (c % 100) as nat;
    let t = if r > 50 || (r == 50 && q % 2 == 1) {
        q + 1
    } else {
        q
    };
    decimal(t / 10_000) + "."@ + four_digits(t % 10_000)
}

/// Two confidences differ by more than 0.01.
pub open spec fn confidences_diverge(a: u32, b: u32) -> bool {
    a - b > 10_000 || b - a > 10_000
}

/// The divergences of the `i`-th steps of two traces (numbered `i + 1`):
/// their outputs, then their confidences.
pub open spec fn step_divergences(i: int, a: TraceStep, b: TraceStep) -> Seq<(usize, Seq<char>, Seq<char>, Seq<char>)> {
    (if a.output@ != b.output@ {
        seq![((i + 1) as usize, "output"@, a.output@, b.output@)]
    } else {
        seq![]
    }) + (if confidences_diverge(a.confidence, b.confidence) {
        seq![((i + 1) as usize, "confidence"@, fixed4(a.confidence), fixed4(b.confidence))]
    } else {
        seq![]
    })
}

/// The divergences of the first `n` pairs of steps.
pub open spec fn steps_divergences(a: Seq<TraceStep>, b: Seq<TraceStep>, n: int) -> Seq<
    (usize, Seq<char>, Seq<char>, Seq<char>),
>
    decreases n,
{
    if n <= 0 {
        seq![]
    } else {
        steps_divergences(a, b, n - 1) + step_divergences(n - 1, a[n - 1], b[n - 1])
    }
}

/// All divergences of two traces: the number of steps, then each pair of
/// steps they share, then the summaries.
pub open spec fn trace_divergences(o: DecisionTrace, p: DecisionTrace) -> Seq<(usize, Seq<char>, Seq<char>, Seq<char>)> {
    let a = o.reasoning_steps@;
    let b = p.reasoning_steps@;
    let m = if a.len() <= b.len() {
        a.len()
    } else {
        b.len()
    };
    (if a.len() != b.len() {
        seq![(0usize, "step_count"@, decimal(a.len()), decimal(b.len()))]
    } else {
        seq![]
    }) + steps_divergences(a, b, m as int) + (if o.output_summary@ != p.output_summary@ {
        seq![(0usize, "output_summary"@, o.output_summary@, p.output_summary@)]
    } else {
        seq![]
    })
}

/// The digits of a confidence with four decimals.
fn fixed4_exec(c: u32) -> (r: Vec<char>)
    ensures
        r@ == fixed4(c),
{
    let q = c / 100;
    let rem = c % 100;
    let t: u32 = if rem > 50 || (rem == 50 && q % 2 == 1) {
        q + 1
    } else {
        q
    };
    let mut out = decimal_exec((t / 10_000) as u64);
    push_str(&mut out, ".");
    let f = t % 10_000;
    let ghost head = out@;
    extend(&mut out, &decimal_exec(((f / 1_000) % 10) as u64));
    extend(&mut out, &decimal_exec(((f / 100) % 10) as u64));
    extend(&mut out, &decimal_exec(((f / 10) % 10) as u64));
    extend(&mut out, &decimal_exec((f % 10) as u64));
    assert(out@ =~= head + four_digits(f as nat));
    out
}

/// Compare two traces and list their divergences: the number of steps
/// (reported at step 0), each step they share (its output, and its
/// confidence where the two differ by more than 0.01), and the summary
/// (step 0). The replay is deterministic when nothing diverges.
pub fn compare_traces(original: &DecisionTrace, replayed: &DecisionTrace) -> (r: ReplayResult)
    ensures
        r.original_trace_id == original.trace_id,
        r.replayed_trace_id == replayed.trace_id,
        divergence_views(r.divergences@) == trace_divergences(*original, *replayed),
        r.is_deterministic == (r.divergences@.len() == 0),
        r.summary@ == if r.divergences@.len() == 0 {
            "Replay verified: decision is deterministic"@
        } else {
            "Replay found "@ + decimal(r.divergences@.len()) + " divergences"@
        },
{
    let a = &original.reasoning_steps;
    let b = &replayed.reasoning_steps;
    let mut divs: Vec<Divergence> = Vec::new();
    if a.len() != b.len() {
        divs.push(
            Divergence {
                step: 0,
                field: "step_count".to_string(),
                original_value: string_of(&decimal_exec(a.len() as u64)),
                replayed_value: string_of(&decimal_exec(b.len() as u64)),
            },
        );
    }
    let ghost head = divergence_views(divs@);
    assert(head =~= if a@.len() != b@.len() {
        seq![(0usize, "step_count"@, decimal(a@.len()), decimal(b@.len()))]
    } else {
        seq![]
    });
    let m = if a.len() <= b.len() {
        a.len()
    } else {
        b.len()
    };
    let mut i: usize = 0;
    while i < m
        invariant
            i <= m,
            m <= a@.len(),
            m <= b@.len(),
            divergence_views(divs@) == head + steps_divergences(a@, b@, i as int),
        decreases m - i,
    {
        let x = &a[i];
        let y = &b[i];
        let ghost before = divergence_views(divs@);
        if !same_text(&x.output, &y.output) {
            let d = Divergence {
                step: i + 1,
                field: "output".to_string(),
                original_value: x.output.clone(),
                replayed_value: y.output.clone(),
            };
            divs.push(d);
            assert(divergence_views(divs@) =~= before.push(divergence_view(d)));
        }
        let ghost mid = divergence_views(divs@);
        assert(mid =~= before + (if x.output@ != y.output@ {
            seq![((i + 1) as usize, "output"@, x.output@, y.output@)]
        } else {
            seq![]
        }));
        let diverge = if x.confidence >= y.confidence {
            x.confidence - y.confidence > 10_000
        } else {
            y.confidence - x.confidence > 10_000
        };
        if diverge {
            let d = Divergence {
                step: i + 1,
                field: "confidence".to_string(),
                original_value: string_of(&fixed4_exec(x.confidence)),
                replayed_value: string_of(&fixed4_exec(y.confidence)),
            };
            divs.push(d);
            assert(divergence_views(divs@) =~= mid.push(divergence_view(d)));
        }
        assert(divergence_views(divs@) =~= before + step_divergences(i as int, *x, *y));
        i += 1;
    }
    let ghost body = divergence_views(divs@);
    if !same_text(&original.output_summary, &replayed.output_summary) {
        let d = Divergence {
            step: 0,
            field: "output_summary".to_string(),
            original_value: original.output_summary.clone(),
            replayed_value: replayed.output_summary.clone(),
        };
        divs.push(d);
        assert(divergence_views(divs@) =~= body.push(divergence_view(d)));
    }
    assert(divergence_views(divs@) =~= trace_divergences(*original, *replayed));
    let is_deterministic = divs.len() == 0;
    let summary = if is_deterministic {
        "Replay verified: decision is deterministic".to_string()
    } else {
        let mut s = chars_of("Replay found ");
        extend(&mut s, &decimal_exec(divs.len() as u64));
        push_str(&mut s, " divergences");
        string_of(&s)
    };
    ReplayResult {
        original_trace_id: original.trace_id,
        replayed_trace_id: replayed.trace_id,
        is_deterministic,
        divergences: divs,
        summary,
    }
}

/// Steps that agree in output and confidence do not diverge.
proof fn lemma_agreeing_steps(a: Seq<TraceStep>, b: Seq<TraceStep>, n: int)
    requires
        0 <= n <= a.len(),
        n <= b.len(),
        forall|i: int| 0 <= i < n ==> #[trigger] a[i].output@ == b[i].output@ && a[i].confidence == b[i].confidence,
    ensures
        steps_divergences(a, b, n).len() == 0,
    decreases n,
{
    if n > 0 {
        lemma_agreeing_steps(a, b, n - 1);
        assert(a[n - 1].output@ == b[n - 1].output@);
    }
}

/// A trace replayed against itself shows no divergence.
pub proof fn self_replay_is_deterministic(t: DecisionTrace)
    ensures
        trace_divergences(t, t).len() == 0,
{
    let a = t.reasoning_steps@;
    lemma_agreeing_steps(a, a, a.len() as int);
}

/// Two traces of the same impact analysis (the same change set, graph size
/// and counts) show no divergence, whatever their identifiers, times and
/// durations.
pub proof fn same_analysis_replays_deterministically(
    a: DecisionTrace,
    b: DecisionTrace,
    graph_entity_count: usize,
    changed: Seq<Seq<char>>,
    direct_count: usize,
    indirect_count: usize,
    not_impacted_count: usize,
)
    requires
        trace_step_views(a.reasoning_steps@) == analysis_steps(
            graph_entity_count,
            changed,
            direct_count,
            indirect_count,
            not_impacted_count,
            a.timestamp,
        ),
        trace_step_views(b.reasoning_steps@) == analysis_steps(
            graph_entity_count,
            changed,
            direct_count,
            indirect_count,
            not_impacted_count,
            b.timestamp,
        ),
        a.output_summary@ == analysis_summary(direct_count, indirect_count, not_impacted_count),
        b.output_summary@ == analysis_summary(direct_count, indirect_count, not_impacted_count),
    ensures
        trace_divergences(a, b).len() == 0,
{
    let x = a.reasoning_steps@;
    let y = b.reasoning_steps@;
    assert(trace_step_views(x).len() == 3);
    assert(trace_step_views(y).len() == 3);
    assert forall|i: int| 0 <= i < 3 implies #[trigger] x[i].output@ == y[i].output@ && x[i].confidence
        == y[i].confidence by {
        assert(trace_step_views(x)[i] == trace_step_view(x[i]));
        assert(trace_step_views(y)[i] == trace_step_view(y[i]));
    }
    lemma_agreeing_steps(x, y, 3);
}

} // verus!
