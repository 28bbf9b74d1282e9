use vstd::prelude::*;
use crate::keyed::KeyedVec;
use crate::text::{split_char, split_on, str_eq, views};
use super::ParameterLevel;

verus! {

/// What the agent does for one parameter of a start request.
pub enum TargetAction {
    /// Append this line to the environment file.
    EnvLine(String),
    /// Set the parameter (name, value) in the service configuration files.
    ServiceConfig(String, String),
}

pub enum TargetActionView {
    EnvLine(Seq<char>),
    ServiceConfig(Seq<char>, Seq<char>),
}

impl View for TargetAction {
    type V = TargetActionView;

    open spec fn view(&self) -> TargetActionView {
        match self {
            TargetAction::EnvLine(l) => TargetActionView::EnvLine(l@),
            TargetAction::ServiceConfig(n, v) => TargetActionView::ServiceConfig(n@, v@),
        }
    }
}

/// What a request asks of the agent.
pub enum TargetCommand {
    /// Configure the target with these actions, then answer `target_ok`.
    Start(Vec<TargetAction>),
    /// Stop the target and answer `stop_target_ok`.
    Stop,
    /// Nothing to do.
    Ignore,
    /// A service-configuration parameter comes without a value.
    Malformed,
}

pub enum TargetCommandView {
    Start(Seq<TargetActionView>),
    Stop,
    Ignore,
    Malformed,
}

pub open spec fn actions_view(v: Seq<TargetAction>) -> Seq<TargetActionView> {
    v.map_values(|a: TargetAction| a@)
}

impl View for TargetCommand {
    type V = TargetCommandView;

    open spec fn view(&self) -> TargetCommandView {
        match self {
            TargetCommand::Start(a) => TargetCommandView::Start(actions_view(a@)),
            TargetCommand::Stop => TargetCommandView::Stop,
            TargetCommand::Ignore => TargetCommandView::Ignore,
            TargetCommand::Malformed => TargetCommandView::Malformed,
        }
    }
}

/// The actions for the parameters `params` (each `NAME=VALUE`), in order:
/// parameters of unknown name are skipped; `None` when a service
/// configuration parameter has no value.
pub open spec fn actions_of(params: Seq<Seq<char>>, levels: Map<Seq<char>, ParameterLevel>) -> Option<
    Seq<TargetActionView>,
>
    decreases params.len(),
{
    if params.len() == 0 {
        Some(seq![])
    } else {
        match actions_of(params.drop_last(), levels) {
            None => None,
            Some(a) => {
                let p = params.last();
                let sp = split_on(p, '=');
                if !levels.contains_key(sp[0]) {
                    Some(a)
                } else {
                    match levels[sp[0]] {
                        ParameterLevel::ServiceConfig => if sp.len() >= 2 {
                            Some(a.push(TargetActionView::ServiceConfig(sp[0], sp[1])))
                        } else {
                            None
                        },
                        _ => Some(a.push(TargetActionView::EnvLine(p + "\n"@))),
                    }
                }
            },
        }
    }
}

/// The command a request `msg` (`start_target|NAME=VALUE|...` or
/// `stop_target`) asks for.
pub open spec fn command_of(msg: Seq<char>, levels: Map<Seq<char>, ParameterLevel>) -> TargetCommandView {
    let pieces = split_on(msg, '|');
    if pieces[0] == "start_target"@ {
        match actions_of(pieces.skip(1), levels) {
            Some(a) => TargetCommandView::Start(a),
            None => TargetCommandView::Malformed,
        }
    } else if msg == "stop_target"@ {
        TargetCommandView::Stop
    } else {
        TargetCommandView::Ignore
    }
}

/// Decides what the request `msg` asks of the agent, given the level of
/// each parameter.
pub fn handle_message(msg: &str, levels: &KeyedVec<ParameterLevel>) -> (r: TargetCommand)
    ensures
        r@ == command_of(msg@, levels@),
{
    let pieces = split_char(msg, '|');
    let ghost ps = views(pieces@);
    assert(ps.len() >= 1);
    if str_eq(pieces[0].as_str(), "start_target") {
        let mut actions: Vec<TargetAction> = Vec::new();
        let mut i: usize = 1;
        assert(ps.skip(1).take(0) =~= Seq::<Seq<char>>::empty());
        while i < pieces.len()
            invariant
                ps == views(pieces@),
                ps == split_on(msg@, '|'),
                ps[0] == "start_target"@,
                1 <= i <= pieces@.len(),
                actions_of(ps.skip(1).take(i - 1), levels@) == Some(actions_view(actions@)),
            decreases pieces@.len() - i,
        {
            let param = &pieces[i];
            let sp = split_char(param.as_str(), '=');
            proof {
                let t = ps.skip(1).take(i as int);
                assert(t.drop_last() =~= ps.skip(1).take(i - 1));
                assert(t.last() == param@);
                assert(views(sp@).len() >= 1);
            }
            match levels.get(sp[0].as_str()) {
                None => {},
                Some(level) => match level {
                    ParameterLevel::ServiceConfig => {
                        if sp.len() < 2 {
                            proof {
                                let t = ps.skip(1).take(i as int);
                                assert(split_on(t.last(), '=') == views(sp@));
                                assert(levels@.contains_key(views(sp@)[0]));
                                assert(actions_of(t, levels@) is None);
                                lemma_actions_none_extends(ps.skip(1), i as int, levels@);
                            }
                            return TargetCommand::Malformed;
                        }
                        let ghost before = actions@;
                        actions.push(TargetAction::ServiceConfig(sp[0].clone(), sp[1].clone()));
                        assert(actions_view(actions@) =~= actions_view(before).push(
                            TargetActionView::ServiceConfig(sp@[0]@, sp@[1]@),
                        ));
                    },
                    _ => {
                        let mut line = param.clone();
                        line.append("\n");
                        let ghost before = actions@;
                        actions.push(TargetAction::EnvLine(line));
                        assert(actions_view(actions@) =~= actions_view(before).push(
                            TargetActionView::EnvLine(line@),
                        ));
                    },
                },
            }
            i = i + 1;
        }
        assert(ps.skip(1).take(i - 1) =~= ps.skip(1));
        TargetCommand::Start(actions)
    } else if str_eq(msg, "stop_target") {
        TargetCommand::Stop
    } else {
        TargetCommand::Ignore
    }
}

proof fn lemma_actions_none_extends(params: Seq<Seq<char>>, k: int, levels: Map<Seq<char>, ParameterLevel>)
    requires
        0 <= k <= params.len(),
        actions_of(params.take(k), levels) is None,
    ensures
        actions_of(params, levels) is None,
    decreases params.len() - k,
{
    if k < params.len() {
        assert(params.take(k + 1).drop_last() =~= params.take(k));
        lemma_actions_none_extends(params, k + 1, levels);
    } else {
        assert(params.take(k) =~= params);
    }
}

} // verus!
