//! The lifecycle orchestrator: the decisions behind `run`, `stop` and
//! `ls`, separated from the outside work they drive.
//!
//! The caller performs the outside steps — probing the daemon, sleeping,
//! sending the load request, reading the daemon's pid marker, saving the
//! registry — and feeds each outcome back in as a plain value. Every
//! decision in between is made here, against an exact contract: when a
//! run conflicts, when the daemon poll gives up, what is registered on
//! success, and what a stop removes and whether it must cascade into a
//! daemon shutdown.

use vstd::prelude::*;

use crate::json::{json_string, write_json_string};
use crate::model_state::ModelState;
use crate::modelfile::{Modelfile, ModelfileV, ParamValue, ParamValueV, ParameterV};
use crate::text::{dec_int, i32_to_string, str_starts_with, starts_with_spec};

verus! {

/// Why a lifecycle operation failed.
#[derive(Clone, Copy, Debug, PartialEq, Eq, Structural)]
pub enum LifecycleError {
    /// The model is already registered and alive.
    Conflict,
    /// No live record exists under the name.
    NotFound,
    /// The daemon never became reachable within the poll budget.
    DaemonTimeout,
    /// The daemon refused or failed the load request.
    DaemonRequestFailed,
}

/// How many times the daemon is probed after spawning it, one time unit
/// apart, before the run gives up.
pub const DAEMON_POLL_ATTEMPTS: u8 = 15;

/// Models served by the shared background daemon, recognized by their
/// identifier prefix; everything else runs as a foreground subprocess and
/// never enters the registry.
pub open spec fn spec_is_daemon_resident(model_id: Seq<char>) -> bool {
    starts_with_spec(model_id, "driaforall/mem-agent"@)
}

pub fn is_daemon_resident(model_id: &str) -> (r: bool)
    ensures
        r == spec_is_daemon_resident(model_id@),
{
    str_starts_with(model_id, "driaforall/mem-agent")
}

// ---------------------------------------------------------------------------
// The run session
// ---------------------------------------------------------------------------

/// Where a run stands between two outside steps.
#[derive(Clone, Copy, Debug, PartialEq, Eq, Structural)]
pub enum RunPhase {
    /// The first reachability probe is outstanding.
    Probing,
    /// The daemon was spawned; polls are outstanding.
    AwaitingDaemon,
    /// The daemon is reachable; the load request is outstanding.
    Loading,
    /// The load succeeded; the registry record is still to be written.
    Registering,
    /// The run failed; nothing was or will be written.
    Failed,
}

/// One `run` in progress for a daemon-resident model. No registry record
/// is written before [`RunControl::register`]: a run that fails partway
/// leaves no trace.
#[derive(Debug)]
pub struct RunControl {
    name: String,
    model_id: String,
    attempts_left: u8,
    phase: RunPhase,
}

pub struct RunControlV {
    pub name: Seq<char>,
    pub model_id: Seq<char>,
    pub attempts_left: u8,
    pub phase: RunPhase,
}

impl View for RunControl {
    type V = RunControlV;

    closed spec fn view(&self) -> RunControlV {
        RunControlV {
            name: self.name@,
            model_id: self.model_id@,
            attempts_left: self.attempts_left,
            phase: self.phase,
        }
    }
}

/// What a run does next, once it is past the conflict check.
#[derive(Debug)]
pub enum StartDecision {
    /// The model is not daemon-resident: hand it to the foreground
    /// subprocess collaborator; the registry is not involved.
    Foreground,
    /// The model is daemon-resident: drive the session that follows.
    Orchestrate(RunControl),
}

/// What the caller must do after reporting a probe result.
#[derive(Clone, Copy, Debug, PartialEq, Eq, Structural)]
pub enum ProbeStep {
    /// The daemon is reachable: send the load request next.
    DaemonReady,
    /// The daemon is not running: spawn it, wait one time unit, probe
    /// again.
    SpawnDaemon,
    /// Not reachable yet: wait one time unit, probe again.
    Retry,
    /// The poll budget is spent: the run has failed with
    /// [`LifecycleError::DaemonTimeout`].
    TimedOut,
}

/// Begins a `run`: refuses a name that is already registered and alive
/// (the registry, already reconciled by the caller, is left untouched),
/// sends a non-resident model to the foreground, and otherwise opens the
/// orchestration session with its full poll budget.
pub fn start_run(state: &ModelState, name: &str, modelfile: &Modelfile) -> (r: Result<
    StartDecision,
    LifecycleError,
>)
    ensures
        r matches Err(e) ==> e == LifecycleError::Conflict && state.spec_contains(name@),
        state.spec_contains(name@) ==> (r matches Err(e) && e == LifecycleError::Conflict),
        r matches Ok(d) ==> !state.spec_contains(name@) && (d matches StartDecision::Foreground
            <==> !spec_is_daemon_resident(modelfile.source_model@)),
        r matches Ok(d) ==> (d matches StartDecision::Orchestrate(c) ==> c@.name == name@
            && c@.model_id == modelfile.source_model@ && c@.phase == RunPhase::Probing
            && c@.attempts_left == DAEMON_POLL_ATTEMPTS),
{
    if state.get_model(name).is_some() {
        return Err(LifecycleError::Conflict);
    }
    if !is_daemon_resident(modelfile.source_model.as_str()) {
        return Ok(StartDecision::Foreground);
    }
    Ok(
        StartDecision::Orchestrate(
            RunControl {
                name: name.to_owned(),
                model_id: modelfile.source_model.clone(),
                attempts_left: DAEMON_POLL_ATTEMPTS,
                phase: RunPhase::Probing,
            },
        ),
    )
}

impl RunControl {
    /// Feeds in one reachability probe result. Reachable moves the run to
    /// loading. Unreachable on the very first probe asks the caller to
    /// spawn the daemon; after that, each unreachable probe spends one
    /// poll attempt, and spending the last one fails the run for good.
    pub fn on_probe(&mut self, reachable: bool) -> (r: ProbeStep)
        requires
            old(self)@.phase == RunPhase::Probing || old(self)@.phase
                == RunPhase::AwaitingDaemon,
        ensures
            final(self)@.name == old(self)@.name,
            final(self)@.model_id == old(self)@.model_id,
            reachable ==> r == ProbeStep::DaemonReady && final(self)@.phase == RunPhase::Loading
                && final(self)@.attempts_left == old(self)@.attempts_left,
            !reachable && old(self)@.phase == RunPhase::Probing ==> r == ProbeStep::SpawnDaemon
                && final(self)@.phase == RunPhase::AwaitingDaemon && final(self)@.attempts_left
                == old(self)@.attempts_left,
            !reachable && old(self)@.phase == RunPhase::AwaitingDaemon && old(self)@.attempts_left > 1 ==> r == ProbeStep::Retry && final(self)@.phase
                == RunPhase::AwaitingDaemon && final(self)@.attempts_left == old(self)@.attempts_left - 1,
            !reachable && old(self)@.phase == RunPhase::AwaitingDaemon && old(self)@.attempts_left <= 1 ==> r == ProbeStep::TimedOut && final(self)@.phase
                == RunPhase::Failed,
    {
        if reachable {
            self.phase = RunPhase::Loading;
            return ProbeStep::DaemonReady;
        }
        match self.phase {
            RunPhase::Probing => {
                self.phase = RunPhase::AwaitingDaemon;
                ProbeStep::SpawnDaemon
            },
            _ => {
                if self.attempts_left > 1 {
                    self.attempts_left = self.attempts_left - 1;
                    ProbeStep::Retry
                } else {
                    self.phase = RunPhase::Failed;
                    ProbeStep::TimedOut
                }
            },
        }
    }

    /// The request body for the daemon's load endpoint, built from this
    /// session's model and the caller's memory working directory.
    pub fn load_request_body(&self, memory_path: &str) -> (r: String)
        ensures
            r@ == spec_load_request_body(self@.model_id, memory_path@),
    {
        load_request_body(self.model_id.as_str(), memory_path)
    }

    /// Feeds in the outcome of the load request: failure fails the run
    /// with [`LifecycleError::DaemonRequestFailed`] and nothing is
    /// registered; success leaves only the registry write to do.
    pub fn on_load_result(&mut self, ok: bool) -> (r: Result<(), LifecycleError>)
        requires
            old(self)@.phase == RunPhase::Loading,
        ensures
            final(self)@.name == old(self)@.name,
            final(self)@.model_id == old(self)@.model_id,
            ok ==> r is Ok && final(self)@.phase == RunPhase::Registering,
            !ok ==> r == Result::<(), LifecycleError>::Err(LifecycleError::DaemonRequestFailed)
                && final(self)@.phase == RunPhase::Failed,
    {
        if ok {
            self.phase = RunPhase::Registering;
            Ok(())
        } else {
            self.phase = RunPhase::Failed;
            Err(LifecycleError::DaemonRequestFailed)
        }
    }

    /// Writes the session's record into the registry — the model runs in
    /// the daemon, so the record carries the daemon's process id. The
    /// caller persists the registry afterwards.
    pub fn register(self, state: &mut ModelState, daemon_pid: u32)
        requires
            self@.phase == RunPhase::Registering,
            old(state).wf(),
        ensures
            final(state).wf(),
            final(state).spec_contains(self@.name),
            final(state)@.len() == old(state)@.len() + (if old(state).spec_contains(
                self@.name,
            ) {
                0int
            } else {
                1int
            }),
            forall|j: int|
                0 <= j < old(state)@.len() && old(state)@[j].name != self@.name ==> final(state)@[j] == old(state)@[j],
            exists|i: int|
                0 <= i < final(state)@.len() && final(state)@[i].name == self@.name && final(state)@[i].model_id == self@.model_id && final(state)@[i].pid == daemon_pid,
    {
        state.add_model(self.name, self.model_id, daemon_pid);
    }
}

/// The JSON body of the daemon's load request.
pub open spec fn spec_load_request_body(model: Seq<char>, memory_path: Seq<char>) -> Seq<char> {
    "{\"model\":"@ + json_string(model) + ",\"memory_path\":"@ + json_string(memory_path)
        + "}"@
}

pub fn load_request_body(model: &str, memory_path: &str) -> (r: String)
    ensures
        r@ == spec_load_request_body(model@, memory_path@),
{
    let mut out = String::new();
    out.append("{\"model\":");
    write_json_string(&mut out, model);
    out.append(",\"memory_path\":");
    write_json_string(&mut out, memory_path);
    out.append("}");
    proof {
        assert(out@ =~= spec_load_request_body(model@, memory_path@));
    }
    out
}

// ---------------------------------------------------------------------------
// Stopping
// ---------------------------------------------------------------------------

/// Applies a `stop` to the registry: removes the record under `name`, or
/// refuses with [`LifecycleError::NotFound`] — and then the registry is
/// untouched. On success the result says whether this was the last
/// record, in which case the caller makes the best-effort attempt to stop
/// the daemon.
pub fn apply_stop(state: &mut ModelState, name: &str) -> (r: Result<bool, LifecycleError>)
    requires
        old(state).wf(),
    ensures
        final(state).wf(),
        r matches Err(e) ==> e == LifecycleError::NotFound && !old(state).spec_contains(name@)
            && final(state)@ == old(state)@,
        !old(state).spec_contains(name@) ==> r is Err,
        r matches Ok(stop_daemon) ==> old(state).spec_contains(name@) && (exists|i: int|
            0 <= i < old(state)@.len() && old(state)@[i].name == name@ && final(state)@ == old(state)@.remove(i)) && (stop_daemon <==> final(state)@.len() == 0),
{
    match state.remove_model(name) {
        None => Err(LifecycleError::NotFound),
        Some(removed) => {
            let ghost rv = removed@;
            proof {
                let i = choose|i: int|
                    0 <= i < old(state)@.len() && old(state)@[i] == rv && state@ == old(state)@.remove(i);
                assert(old(state)@[i].name == name@);
            }
            Ok(state.is_empty())
        },
    }
}

// ---------------------------------------------------------------------------
// The foreground path
// ---------------------------------------------------------------------------

/// The string form a parameter value takes on a subprocess command line.
pub open spec fn spec_param_value_text(v: ParamValueV) -> Seq<char> {
    match v {
        ParamValueV::Int(n) => dec_int(n as int),
        ParamValueV::Float(t) => t,
        ParamValueV::Str(t) => t,
    }
}

/// The flag a parameter maps to on the subprocess command line, if any;
/// parameters the subprocess does not understand are dropped.
pub open spec fn spec_param_flag(name: Seq<char>) -> Option<Seq<char>> {
    if name == "num_predict"@ {
        Some("--max-tokens"@)
    } else if name == "temperature"@ {
        Some("--temp"@)
    } else if name == "top_p"@ {
        Some("--top-p"@)
    } else if name == "seed"@ {
        Some("--seed"@)
    } else {
        None
    }
}

pub open spec fn spec_param_args(params: Seq<ParameterV>) -> Seq<Seq<char>>
    decreases params.len(),
{
    if params.len() == 0 {
        Seq::empty()
    } else {
        let rest = spec_param_args(params.drop_last());
        match spec_param_flag(params.last().name) {
            Some(flag) => rest + seq![flag, spec_param_value_text(params.last().value)],
            None => rest,
        }
    }
}

/// The full argument list handed to the foreground subprocess: the model,
/// the recognized parameters in document order, then the system prompt
/// and adapter path when present.
pub open spec fn spec_subprocess_args(m: ModelfileV) -> Seq<Seq<char>> {
    let base = seq!["--model"@, m.source_model] + spec_param_args(m.parameters);
    let with_sys = match m.system_prompt {
        Some(sys) => base + seq!["--system-prompt"@, sys],
        None => base,
    };
    match m.adapter_path {
        Some(ad) => with_sys + seq!["--adapter-path"@, ad],
        None => with_sys,
    }
}

pub open spec fn strs_view(v: Seq<String>) -> Seq<Seq<char>> {
    v.map_values(|s: String| s@)
}

fn param_value_text(v: &ParamValue) -> (r: String)
    ensures
        r@ == spec_param_value_text(v@),
{
    match v {
        ParamValue::Int(n) => i32_to_string(*n),
        ParamValue::Float(t) => t.clone(),
        ParamValue::Str(t) => t.clone(),
    }
}

/// Builds the command line for a foreground (non-daemon) model.
pub fn subprocess_args(m: &Modelfile) -> (r: Vec<String>)
    ensures
        strs_view(r@) == spec_subprocess_args(m@),
{
    let mut args: Vec<String> = Vec::new();
    args.push("--model".to_owned());
    args.push(m.source_model.clone());
    let ghost params = m@.parameters;
    let n = m.parameters.len();
    let mut k: usize = 0;
    proof {
        assert(strs_view(args@) =~= seq!["--model"@, m@.source_model] + spec_param_args(
            params.take(0),
        ));
    }
    while k < n
        invariant
            0 <= k <= n,
            n == m.parameters.len(),
            params == m@.parameters,
            strs_view(args@) == seq!["--model"@, m@.source_model] + spec_param_args(
                params.take(k as int),
            ),
        decreases n - k,
    {
        let ghost pre = params.take(k as int);
        let ghost cur = params.take(k as int + 1);
        proof {
            assert(cur.drop_last() =~= pre);
            assert(cur.last() == params[k as int]);
            assert(m.parameters@[k as int]@ == params[k as int]);
        }
        let p = &m.parameters[k];
        let flag: Option<&str> = if crate::text::str_eq(p.name.as_str(), "num_predict") {
            Some("--max-tokens")
        } else if crate::text::str_eq(p.name.as_str(), "temperature") {
            Some("--temp")
        } else if crate::text::str_eq(p.name.as_str(), "top_p") {
            Some("--top-p")
        } else if crate::text::str_eq(p.name.as_str(), "seed") {
            Some("--seed")
        } else {
            None
        };
        match flag {
            Some(f) => {
                args.push(f.to_owned());
                args.push(param_value_text(&p.value));
                proof {
                    assert(strs_view(args@) =~= (seq!["--model"@, m@.source_model]
                        + spec_param_args(pre)) + seq![
                        spec_param_flag(params[k as int].name).unwrap(),
                        spec_param_value_text(params[k as int].value),
                    ]);
                    assert(strs_view(args@) =~= seq!["--model"@, m@.source_model]
                        + spec_param_args(cur));
                }
            },
            None => {
                proof {
                    assert(spec_param_args(cur) =~= spec_param_args(pre));
                }
            },
        }
        k = k + 1;
    }
    proof {
        assert(params.take(n as int) =~= params);
    }
    match &m.system_prompt {
        Some(sys) => {
            args.push("--system-prompt".to_owned());
            args.push(sys.clone());
        },
        None => {},
    }
    match &m.adapter_path {
        Some(ad) => {
            args.push("--adapter-path".to_owned());
            args.push(ad.clone());
        },
        None => {},
    }
    proof {
        assert(strs_view(args@) =~= spec_subprocess_args(m@));
    }
    args
}

} // verus!
