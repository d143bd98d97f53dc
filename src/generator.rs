//! The orchestrator: per request, it decides whether to try the remote
//! backend and falls back to the rule engine on any remote failure. The
//! probe and the remote call are the caller's part; `Generator::step` takes
//! their outcomes as events and says what to do next.
use vstd::prelude::*;
use crate::error::Error;
use crate::llm::LLMGenerator;
use crate::rule::{rule_output, RuleGenerator, Vocabulary};
use crate::style::NamingStyle;
use crate::text::views;

verus! {

/// What the caller reports to the orchestrator.
#[derive(Debug)]
pub enum Event {
    /// A request begins.
    Start,
    /// The reachability probe answered.
    Probed(bool),
    /// The remote backend answered, or failed.
    RemoteFinished(Result<Vec<String>, Error>),
}

/// What the orchestrator asks the caller to do.
#[derive(Debug)]
pub enum Action {
    /// Probe the network.
    Probe,
    /// Ask the remote backend.
    CallRemote,
    /// The request is over, with this result.
    Finish(Result<Vec<String>, Error>),
}

/// The kinds of decision the orchestrator makes.
#[derive(Clone, Copy, Debug, PartialEq, Eq, Structural)]
pub enum Decision {
    Probe,
    CallRemote,
    PassThrough,
    Fallback,
}

/// The decision for an event: a forced local request, an unreachable
/// network, a missing remote backend and a failed or empty remote answer
/// all fall back to the rule engine; a remote answer with candidates is
/// passed through as it is.
pub open spec fn decision(has_remote: bool, force_rule: bool, event: Event) -> Decision {
    match event {
        Event::Start => if force_rule {
            Decision::Fallback
        } else {
            Decision::Probe
        },
        Event::Probed(reachable) => if reachable && has_remote && !force_rule {
            Decision::CallRemote
        } else {
            Decision::Fallback
        },
        Event::RemoteFinished(outcome) => match outcome {
            Ok(names) => if names@.len() > 0 {
                Decision::PassThrough
            } else {
                Decision::Fallback
            },
            Err(_) => Decision::Fallback,
        },
    }
}

/// The candidates of a result, or `None` for a failure.
pub open spec fn outcome(r: Result<Vec<String>, Error>) -> Option<Seq<Seq<char>>> {
    match r {
        Ok(names) => Some(views(names@)),
        Err(_) => None,
    }
}

/// The result of the rule engine for a description: its one identifier,
/// or a failure.
pub open spec fn rule_outcome(v: Vocabulary, description: Seq<char>, style: NamingStyle) -> Option<
    Seq<Seq<char>>,
> {
    match rule_output(v, description, style) {
        Some(name) => Some(seq![name]),
        None => None,
    }
}

/// The result a request ends with after `event`, where it ends there.
pub open spec fn finished_outcome(
    has_remote: bool,
    v: Vocabulary,
    description: Seq<char>,
    style: NamingStyle,
    force_rule: bool,
    event: Event,
) -> Option<Option<Seq<Seq<char>>>> {
    match decision(has_remote, force_rule, event) {
        Decision::PassThrough => match event {
            Event::RemoteFinished(got) => Some(outcome(got)),
            _ => None,
        },
        Decision::Fallback => Some(rule_outcome(v, description, style)),
        _ => None,
    }
}

/// The two backends of a request.
pub struct Generator {
    pub llm_generator: Option<LLMGenerator>,
    pub rule_generator: RuleGenerator,
}

impl Generator {
    /// An orchestrator over a remote backend, where one could be made, and
    /// a rule engine.
    pub fn new(llm_generator: Option<LLMGenerator>, rule_generator: RuleGenerator) -> (r: Generator)
        ensures
            r.llm_generator == llm_generator,
            r.rule_generator == rule_generator,
    {
        Generator { llm_generator, rule_generator }
    }

    /// The rule engine's result, in the orchestrator's terms.
    fn fallback(&self, description: &str, style: NamingStyle) -> (r: Result<Vec<String>, Error>)
        ensures
            outcome(r) == rule_outcome(self.rule_generator@, description@, style),
            r matches Err(e) ==> e is RuleError,
    {
        let r = self.rule_generator.generate(description, style);
        proof {
            if r is Ok {
                assert(views(r->Ok_0@) =~= seq![r->Ok_0@[0]@]);
            }
        }
        r
    }

    /// What to do next in a request for `description` in `style`, after
    /// `event`.
    pub fn step(&self, description: &str, style: NamingStyle, force_rule: bool, event: Event) -> (r:
        Action)
        ensures
            decision(self.llm_generator is Some, force_rule, event) == Decision::Probe ==> r
                is Probe,
            decision(self.llm_generator is Some, force_rule, event) == Decision::CallRemote ==> r
                is CallRemote,
            decision(self.llm_generator is Some, force_rule, event) == Decision::PassThrough ==> (
            r matches Action::Finish(res) && event matches Event::RemoteFinished(got) && res
                == got),
            decision(self.llm_generator is Some, force_rule, event) == Decision::Fallback ==> (
            r matches Action::Finish(res) && outcome(res) == rule_outcome(
                self.rule_generator@,
                description@,
                style,
            ) && (res matches Err(e) ==> e is RuleError)),
            r matches Action::Finish(res) ==> finished_outcome(
                self.llm_generator is Some,
                self.rule_generator@,
                description@,
                style,
                force_rule,
                event,
            ) == Some(outcome(res)),
    {
        match event {
            Event::Start => {
                if force_rule {
                    Action::Finish(self.fallback(description, style))
                } else {
                    Action::Probe
                }
            },
            Event::Probed(reachable) => {
                if reachable && self.llm_generator.is_some() && !force_rule {
                    Action::CallRemote
                } else {
                    Action::Finish(self.fallback(description, style))
                }
            },
            Event::RemoteFinished(outcome) => match outcome {
                Ok(names) => {
                    if names.len() > 0 {
                        Action::Finish(Ok(names))
                    } else {
                        Action::Finish(self.fallback(description, style))
                    }
                },
                Err(_) => Action::Finish(self.fallback(description, style)),
            },
        }
    }
}

/// A request whose remote backend fails ends with the result that the
/// same request, forced local, ends with.
pub proof fn lemma_remote_failure_matches_local(
    has_remote: bool,
    v: Vocabulary,
    description: Seq<char>,
    style: NamingStyle,
    failure: Error,
)
    ensures
        finished_outcome(
            has_remote,
            v,
            description,
            style,
            false,
            Event::RemoteFinished(Err(failure)),
        ) == finished_outcome(has_remote, v, description, style, true, Event::Start),
        finished_outcome(has_remote, v, description, style, true, Event::Start) == Some(
            rule_outcome(v, description, style),
        ),
{
}

/// Without a forced local request, a request probes first, and asks the
/// remote backend exactly when the network is reachable and a backend
/// exists; a forced local request never probes nor calls.
pub proof fn lemma_dispatch(has_remote: bool, force_rule: bool, reachable: bool)
    ensures
        decision(has_remote, force_rule, Event::Start) == (if force_rule {
            Decision::Fallback
        } else {
            Decision::Probe
        }),
        (decision(has_remote, force_rule, Event::Probed(reachable)) == Decision::CallRemote) == (
        reachable && has_remote && !force_rule),
{
}

} // verus!
