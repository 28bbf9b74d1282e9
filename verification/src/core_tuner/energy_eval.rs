//! What the tuner sends to the agents to evaluate a configuration, and how it
//! reads their replies.

use vstd::prelude::*;
use crate::agent_target::ParameterLevel;
use crate::agent_target::messages::{TargetActionView, TargetCommandView, actions_of, command_of};
use crate::text::{split_fold, split_on, str_eq};
use super::shared::ProcessPool;
use super::states_gen::State;

verus! {

/// `NAME=VALUE`.
pub open spec fn assignment(name: Seq<char>, value: Seq<char>) -> Seq<char> {
    name + "="@ + value
}

/// `NAME=VALUE|` for each entry of `es`, in order.
pub open spec fn assignments_text(es: Seq<(Seq<char>, String)>) -> Seq<char>
    decreases es.len(),
{
    if es.len() == 0 {
        seq![]
    } else {
        assignments_text(es.drop_last()) + assignment(es.last().0, es.last().1@) + "|"@
    }
}

/// The request that asks the target agent to start the target with the
/// configuration whose entries are `es`.
pub open spec fn start_message(es: Seq<(Seq<char>, String)>) -> Seq<char> {
    "start_target|"@ + assignments_text(es)
}

/// The request `start_target|NAME=VALUE|...|` for the configuration `params`,
/// its parameters in the configuration's order.
pub fn start_target_message(params: &State) -> (r: String)
    ensures
        r@ == start_message(params.entries()),
{
    let n = params.len();
    let mut msg = "start_target|".to_owned();
    let ghost es = params.entries();
    let mut i: usize = 0;
    assert(es.take(0) =~= Seq::<(Seq<char>, String)>::empty());
    assert(msg@ =~= start_message(es.take(0)));
    while i < n
        invariant
            n == es.len(),
            es == params.entries(),
            i <= n,
            msg@ == start_message(es.take(i as int)),
        decreases n - i,
    {
        let (name, value) = params.entry_at(i);
        let ghost before = msg@;
        msg.append(name.as_str());
        msg.append("=");
        msg.append(value.as_str());
        msg.append("|");
        proof {
            let t = es.take(i + 1);
            assert(t.drop_last() =~= es.take(i as int));
            assert(t.last() == es[i as int]);
            assert(msg@ =~= before + name@ + "="@ + value@ + "|"@);
            assert(msg@ =~= start_message(t));
        }
        i = i + 1;
    }
    assert(es.take(n as int) =~= es);
    msg
}

/// What the tuner does on a reply of an agent during an evaluation.
pub enum EvalAction {
    /// The target started: ask the benchmark agent to run (`start_bench`).
    StartBench,
    /// The target did not start: the evaluation ends without a result.
    Abort,
    /// The benchmark gave no result: the configuration is not valid.
    Invalid,
    /// The benchmark measured the value written in this text.
    Measured(String),
}

/// The action after the target agent answers `reply` to a start request.
pub fn on_target_reply(reply: &str) -> (r: EvalAction)
    ensures
        reply@ == "target_ok"@ ==> r is StartBench,
        reply@ != "target_ok"@ ==> r is Abort,
{
    if str_eq(reply, "target_ok") {
        EvalAction::StartBench
    } else {
        EvalAction::Abort
    }
}

/// The action after the benchmark agent answers `reply`: `None` means that
/// it has no measure, anything else is the measure.
pub fn on_bench_reply(reply: &str) -> (r: EvalAction)
    ensures
        reply@ == "None"@ ==> r is Invalid,
        reply@ != "None"@ ==> (r matches EvalAction::Measured(t) && t@ == reply@),
{
    if str_eq(reply, "None") {
        EvalAction::Invalid
    } else {
        EvalAction::Measured(reply.to_owned())
    }
}

/// The agents that evaluate configurations: the addresses of the target
/// agents and of the benchmark agents.
pub struct EnergyEval {
    pub targets_pool: ProcessPool,
    pub benchs_pool: ProcessPool,
}

impl EnergyEval {
    /// The pools of the agents at the addresses `targets` and `benchs`, in
    /// order.
    pub fn new(targets: Vec<String>, benchs: Vec<String>) -> (r: EnergyEval)
        ensures
            r.targets_pool@ == crate::text::views(targets@),
            r.benchs_pool@ == crate::text::views(benchs@),
    {
        let mut t_pool = ProcessPool::new();
        let mut i: usize = 0;
        while i < targets.len()
            invariant
                i <= targets@.len(),
                t_pool@ == crate::text::views(targets@.take(i as int)),
            decreases targets@.len() - i,
        {
            t_pool.push(targets[i].clone());
            assert(crate::text::views(targets@.take(i + 1)) =~= crate::text::views(
                targets@.take(i as int),
            ).push(targets@[i as int]@));
            i = i + 1;
        }
        assert(targets@.take(i as int) =~= targets@);
        let mut b_pool = ProcessPool::new();
        let mut j: usize = 0;
        while j < benchs.len()
            invariant
                j <= benchs@.len(),
                b_pool@ == crate::text::views(benchs@.take(j as int)),
            decreases benchs@.len() - j,
        {
            b_pool.push(benchs[j].clone());
            assert(crate::text::views(benchs@.take(j + 1)) =~= crate::text::views(
                benchs@.take(j as int),
            ).push(benchs@[j as int]@));
            j = j + 1;
        }
        assert(benchs@.take(j as int) =~= benchs@);
        EnergyEval { targets_pool: t_pool, benchs_pool: b_pool }
    }
}

/// `NAME=VALUE` for each entry of `es`.
pub open spec fn assignment_pieces(es: Seq<(Seq<char>, String)>) -> Seq<Seq<char>> {
    es.map_values(|e: (Seq<char>, String)| assignment(e.0, e.1@))
}

/// What the target agent does for a start request of the configuration `es`:
/// for each parameter that has a level, in order, set it in the service
/// configuration or append `NAME=VALUE` to the environment file.
pub open spec fn expected_actions(
    es: Seq<(Seq<char>, String)>,
    levels: Map<Seq<char>, ParameterLevel>,
) -> Seq<TargetActionView>
    decreases es.len(),
{
    if es.len() == 0 {
        seq![]
    } else {
        let a = expected_actions(es.drop_last(), levels);
        let (n, v) = es.last();
        if !levels.contains_key(n) {
            a
        } else {
            match levels[n] {
                ParameterLevel::ServiceConfig => a.push(TargetActionView::ServiceConfig(n, v@)),
                _ => a.push(TargetActionView::EnvLine(assignment(n, v@) + "\n"@)),
            }
        }
    }
}

/// Neither `|` nor `=` occurs in `s`.
pub open spec fn plain_text(s: Seq<char>) -> bool {
    !s.contains('|') && !s.contains('=')
}

proof fn lemma_split_fold_plain(s: Seq<char>, t: Seq<char>, sep: char)
    requires
        !t.contains(sep),
    ensures
        split_fold(s + t, sep) == (split_fold(s, sep).0, split_fold(s, sep).1 + t),
    decreases t.len(),
{
    if t.len() == 0 {
        assert(s + t =~= s);
        assert(split_fold(s, sep).1 + t =~= split_fold(s, sep).1);
    } else {
        let u = t.drop_last();
        assert(!u.contains(sep)) by {
            if u.contains(sep) {
                let i = choose|i: int| 0 <= i < u.len() && u[i] == sep;
                assert(t[i] == sep);
            }
        }
        lemma_split_fold_plain(s, u, sep);
        assert((s + t).drop_last() =~= s + u);
        assert((s + t).last() == t.last());
        assert(t.last() != sep) by {
            assert(t[t.len() - 1] == t.last());
        }
        assert((split_fold(s, sep).1 + u).push(t.last()) =~= split_fold(s, sep).1 + t);
    }
}

proof fn lemma_split_fold_sep(s: Seq<char>, sep: char)
    ensures
        split_fold(s.push(sep), sep) == (split_fold(s, sep).0.push(split_fold(s, sep).1), Seq::<char>::empty()),
{
    assert(s.push(sep).drop_last() =~= s);
}

proof fn lemma_split_assignment(n: Seq<char>, v: Seq<char>)
    requires
        plain_text(n),
        plain_text(v),
    ensures
        split_on(assignment(n, v), '=') == seq![n, v],
        !assignment(n, v).contains('|'),
{
    reveal_strlit("=");
    let e = Seq::<char>::empty();
    lemma_split_fold_plain(e, n, '=');
    assert(e + n =~= n);
    assert(split_fold(e, '=') == (Seq::<Seq<char>>::empty(), e));
    assert(e + n =~= n);
    lemma_split_fold_sep(n, '=');
    lemma_split_fold_plain(n.push('='), v, '=');
    assert(assignment(n, v) =~= n.push('=') + v);
    assert(split_fold(assignment(n, v), '=') == (seq![n], v));
    assert(split_on(assignment(n, v), '=') =~= seq![n, v]);
    assert(!assignment(n, v).contains('|')) by {
        if assignment(n, v).contains('|') {
            let i = choose|i: int| 0 <= i < assignment(n, v).len() && assignment(n, v)[i] == '|';
            if i < n.len() {
                assert(n[i] == '|');
            } else if i == n.len() {
                assert(assignment(n, v)[i] == '=');
            } else {
                assert(v[i - n.len() - 1] == '|');
            }
        }
    }
}

proof fn lemma_split_start_message(es: Seq<(Seq<char>, String)>)
    requires
        forall|i: int| 0 <= i < es.len() ==> plain_text((#[trigger] es[i]).0) && plain_text(es[i].1@),
    ensures
        split_fold(start_message(es), '|') == (seq!["start_target"@] + assignment_pieces(es), Seq::<char>::empty()),
    decreases es.len(),
{
    reveal_strlit("|");
    reveal_strlit("start_target|");
    reveal_strlit("start_target");
    if es.len() == 0 {
        let st = "start_target"@;
        assert(!st.contains('|'));
        let e = Seq::<char>::empty();
        lemma_split_fold_plain(e, st, '|');
        assert(e + st =~= st);
        lemma_split_fold_sep(st, '|');
        assert(start_message(es) =~= st.push('|'));
        assert(assignment_pieces(es) =~= Seq::<Seq<char>>::empty());
        assert(seq!["start_target"@] + assignment_pieces(es) =~= seq![st]);
    } else {
        let p = es.drop_last();
        assert forall|i: int| 0 <= i < p.len() implies plain_text((#[trigger] p[i]).0) && plain_text(
            p[i].1@,
        ) by {
            assert(p[i] == es[i]);
        }
        lemma_split_start_message(p);
        let (n, v) = es.last();
        assert(plain_text(n) && plain_text(v@)) by {
            assert(es[es.len() - 1] == es.last());
        }
        lemma_split_assignment(n, v@);
        let a = assignment(n, v@);
        lemma_split_fold_plain(start_message(p), a, '|');
        lemma_split_fold_sep(start_message(p) + a, '|');
        assert(start_message(es) =~= (start_message(p) + a).push('|'));
        assert(split_fold(start_message(p), '|').1 + a =~= a);
        assert(assignment_pieces(es) =~= assignment_pieces(p).push(a));
        assert(seq!["start_target"@] + assignment_pieces(es) =~= (seq!["start_target"@]
            + assignment_pieces(p)).push(a));
    }
}

proof fn lemma_actions_of_pieces(es: Seq<(Seq<char>, String)>, levels: Map<Seq<char>, ParameterLevel>)
    requires
        forall|i: int| 0 <= i < es.len() ==> plain_text((#[trigger] es[i]).0) && plain_text(es[i].1@),
    ensures
        actions_of(assignment_pieces(es), levels) == Some(expected_actions(es, levels)),
    decreases es.len(),
{
    if es.len() == 0 {
        assert(assignment_pieces(es) =~= Seq::<Seq<char>>::empty());
    } else {
        let p = es.drop_last();
        assert forall|i: int| 0 <= i < p.len() implies plain_text((#[trigger] p[i]).0) && plain_text(
            p[i].1@,
        ) by {
            assert(p[i] == es[i]);
        }
        lemma_actions_of_pieces(p, levels);
        let (n, v) = es.last();
        assert(plain_text(n) && plain_text(v@)) by {
            assert(es[es.len() - 1] == es.last());
        }
        lemma_split_assignment(n, v@);
        assert(assignment_pieces(es).drop_last() =~= assignment_pieces(p));
        assert(assignment_pieces(es).last() == assignment(n, v@));
    }
}

/// A start request for a configuration whose names and values hold neither
/// `|` nor `=` is read back by the target agent as that configuration: it
/// asks for one action per parameter that has a level, in the
/// configuration's order (when no level is given for the empty name).
pub proof fn lemma_start_message_round_trip(
    es: Seq<(Seq<char>, String)>,
    levels: Map<Seq<char>, ParameterLevel>,
)
    requires
        forall|i: int| 0 <= i < es.len() ==> plain_text((#[trigger] es[i]).0) && plain_text(es[i].1@),
        !levels.contains_key(Seq::<char>::empty()),
    ensures
        command_of(start_message(es), levels) == TargetCommandView::Start(expected_actions(es, levels)),
{
    lemma_split_start_message(es);
    lemma_actions_of_pieces(es, levels);
    let pieces = split_on(start_message(es), '|');
    let e = Seq::<char>::empty();
    assert(pieces =~= (seq!["start_target"@] + assignment_pieces(es)).push(e));
    assert(pieces[0] == "start_target"@);
    let rest = pieces.skip(1);
    assert(rest =~= assignment_pieces(es).push(e));
    assert(rest.drop_last() =~= assignment_pieces(es));
    assert(split_fold(e, '=') == (Seq::<Seq<char>>::empty(), e));
    assert(split_on(e, '=') =~= seq![e]);
}

} // verus!
