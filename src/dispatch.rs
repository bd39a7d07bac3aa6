//! The decisions of a generated test: whether to run the body here or in
//! a child process, and, as dispatcher, what to do after each child.

use vstd::prelude::*;
use crate::duration::{format_millis, millis_display};
use crate::output::{excerpt, failure_excerpt, reports_failure, starts_with};
use crate::text::{chars_equal, chars_of, push_all, push_str, slice_chars, string_of, trim_chars, trimmed};

verus! {

/// Environment variable that a harness sets to the value below when it
/// already runs every test in a process of its own.
pub const HARNESS_MODE_VAR: &'static str = "NEXTEST_EXECUTION_MODE";
pub const PROCESS_PER_TEST: &'static str = "process-per-test";
/// Environment variable, set to "1", that marks a re-invoked worker.
pub const WORKER_VAR: &'static str = "ASSAY_SPLIT";
pub const WORKER_VALUE: &'static str = "1";
/// The first line of a panic message that carries a worker's failure.
pub const PAYLOAD_HEADER: &'static str = "ASSAY_PANIC_INTERNAL_MESSAGE\n";

#[derive(Clone, Copy, PartialEq, Eq, Structural, Debug)]
pub enum Mode {
    /// Run the test body in this process.
    Direct,
    /// Run the body in child processes and judge their output.
    Dispatch,
}

pub open spec fn opt_view(o: Option<&str>) -> Option<Seq<char>> {
    match o {
        Some(s) => Some(s@),
        None => None,
    }
}

pub open spec fn mode_spec(harness: Option<Seq<char>>, worker: Option<Seq<char>>) -> Mode {
    if harness == Some(PROCESS_PER_TEST@) || worker == Some(WORKER_VALUE@) {
        Mode::Direct
    } else {
        Mode::Dispatch
    }
}

fn is_value(v: Option<&str>, w: &str) -> (r: bool)
    ensures
        r == (opt_view(v) == Some(w@)),
{
    match v {
        None => false,
        Some(s) => {
            let cs = chars_of(s);
            chars_equal(&cs, w)
        },
    }
}

/// Where the body runs, given the values of the harness's variable and of
/// the worker marker: here when the harness isolates tests already or this
/// process is a worker, else in children.
pub fn run_mode(harness: Option<&str>, worker: Option<&str>) -> (r: Mode)
    ensures
        r == mode_spec(opt_view(harness), opt_view(worker)),
{
    if is_value(harness, PROCESS_PER_TEST) || is_value(worker, WORKER_VALUE) {
        Mode::Direct
    } else {
        Mode::Dispatch
    }
}

/// What the dispatcher does next.
pub enum Step {
    /// Start a worker for the instance.
    Spawn,
    /// The instance passed.
    Pass,
    /// The instance failed; the worker's own explanation.
    Fail(String),
    /// The worker ran out of time: kill it, reap it, and fail with this
    /// message.
    KillThenFail(String),
}

pub enum StepV {
    Spawn,
    Pass,
    Fail(Seq<char>),
    KillThenFail(Seq<char>),
}

impl Step {
    pub open spec fn view(&self) -> StepV {
        match self {
            Step::Spawn => StepV::Spawn,
            Step::Pass => StepV::Pass,
            Step::Fail(s) => StepV::Fail(s@),
            Step::KillThenFail(s) => StepV::KillThenFail(s@),
        }
    }
}

/// The retry loop of one instance: at most `retries` workers, until one
/// passes.
pub struct Dispatcher {
    pub name: String,
    pub retries: u32,
    pub timeout: Option<u64>,
    pub spawned: u32,
    pub last_failure: Option<String>,
}

pub struct DispatcherV {
    pub name: Seq<char>,
    pub retries: nat,
    pub timeout: Option<u64>,
    pub spawned: nat,
    pub last_failure: Option<Seq<char>>,
}

impl Dispatcher {
    pub open spec fn view(&self) -> DispatcherV {
        DispatcherV {
            name: self.name@,
            retries: self.retries as nat,
            timeout: self.timeout,
            spawned: self.spawned as nat,
            last_failure: match self.last_failure {
                Some(s) => Some(s@),
                None => None,
            },
        }
    }

    pub open spec fn wf(&self) -> bool {
        1 <= self.retries && self.spawned <= self.retries
    }
}

pub open spec fn timeout_message(ms: u64) -> Seq<char> {
    "test timed out after "@ + millis_display(ms as nat)
}

/// The dispatcher after a worker's output `out`, and its next step.
pub open spec fn after_output(d: DispatcherV, out: Seq<char>) -> (DispatcherV, StepV) {
    if reports_failure(out, d.name) {
        let x = excerpt(out, d.name);
        if d.spawned < d.retries {
            (DispatcherV { spawned: d.spawned + 1, last_failure: Some(x), ..d }, StepV::Spawn)
        } else {
            (DispatcherV { last_failure: Some(x), ..d }, StepV::Fail(x))
        }
    } else {
        (DispatcherV { last_failure: None, ..d }, StepV::Pass)
    }
}

/// The dispatcher after the first spawn.
pub open spec fn started(name: Seq<char>, retries: nat, timeout: Option<u64>) -> DispatcherV {
    DispatcherV { name, retries, timeout, spawned: 1, last_failure: None }
}

/// The dispatcher after the outputs `outs`, one per worker, and the steps
/// it took after each.
pub open spec fn drive(d: DispatcherV, outs: Seq<Seq<char>>) -> (DispatcherV, Seq<StepV>)
    decreases outs.len(),
{
    if outs.len() == 0 {
        (d, Seq::empty())
    } else {
        let (d1, steps) = drive(d, outs.drop_last());
        let (d2, s) = after_output(d1, outs.last());
        (d2, steps.push(s))
    }
}

impl Dispatcher {
    /// A dispatcher for the instance `name`; `retries` defaults to one run.
    pub fn new(name: String, retries: Option<u32>, timeout: Option<u64>) -> (r: Dispatcher)
        requires
            retries != Some(0u32),
        ensures
            r.wf(),
            r@ == (DispatcherV {
                name: name@,
                retries: match retries {
                    Some(n) => n as nat,
                    None => 1,
                },
                timeout,
                spawned: 0,
                last_failure: None,
            }),
    {
        let n = match retries {
            Some(n) => n,
            None => 1,
        };
        Dispatcher { name, retries: n, timeout, spawned: 0, last_failure: None }
    }

    /// The first step: spawn a worker.
    pub fn start(&mut self) -> (r: Step)
        requires
            old(self).wf(),
            old(self).spawned == 0,
        ensures
            final(self).wf(),
            final(self)@ == started(old(self)@.name, old(self)@.retries, old(self)@.timeout),
            r@ == StepV::Spawn,
    {
        self.spawned = 1;
        self.last_failure = None;
        Step::Spawn
    }

    /// The step after a worker printed `out`: spawn another while the
    /// instance fails and retries remain, else pass or fail.
    pub fn on_output(&mut self, out: &str) -> (r: Step)
        requires
            old(self).wf(),
            old(self).spawned >= 1,
        ensures
            final(self).wf(),
            (final(self)@, r@) == after_output(old(self)@, out@),
    {
        match failure_excerpt(out, self.name.as_str()) {
            Some(x) => {
                if self.spawned < self.retries {
                    self.spawned = self.spawned + 1;
                    self.last_failure = Some(x);
                    Step::Spawn
                } else {
                    let msg = x.clone();
                    self.last_failure = Some(x);
                    Step::Fail(msg)
                }
            },
            None => {
                self.last_failure = None;
                Step::Pass
            },
        }
    }

    /// The step when the worker outlives the timeout: kill it and fail
    /// with the timeout in readable form. There is no retry.
    pub fn on_timeout(&self) -> (r: Step)
        requires
            self.timeout is Some,
        ensures
            r@ == StepV::KillThenFail(timeout_message(self.timeout->0)),
    {
        let ms = match self.timeout {
            Some(ms) => ms,
            None => 1,
        };
        let mut out = chars_of("test timed out after ");
        let shown = format_millis(ms);
        let sc = chars_of(shown.as_str());
        push_all(&mut out, &sc);
        Step::KillThenFail(string_of(&out))
    }
}

/// While workers fail and retries remain the dispatcher spawns again, and
/// the first worker that passes ends the loop in a pass: with `retries`
/// allowed runs, when the first `k - 1` workers fail and the `k`-th passes
/// (`k <= retries`), exactly `k` workers are spawned and the instance
/// passes.
pub proof fn lemma_retries_until_pass(name: Seq<char>, retries: nat, timeout: Option<u64>, outs: Seq<Seq<char>>)
    requires
        1 <= outs.len() <= retries,
        forall|i: int| 0 <= i < outs.len() - 1 ==> reports_failure(#[trigger] outs[i], name),
        !reports_failure(outs.last(), name),
    ensures
        drive(started(name, retries, timeout), outs).0.spawned == outs.len(),
        drive(started(name, retries, timeout), outs).1.len() == outs.len(),
        drive(started(name, retries, timeout), outs).1.last() == StepV::Pass,
        forall|i: int| 0 <= i < outs.len() - 1 ==> #[trigger] drive(started(name, retries, timeout), outs).1[i] == StepV::Spawn,
{
    lemma_drive_failures(name, retries, timeout, outs.drop_last());
}

/// When every worker fails, the dispatcher spawns one after another until
/// `retries` have run, then fails with the last worker's explanation.
pub proof fn lemma_drive_failures(name: Seq<char>, retries: nat, timeout: Option<u64>, outs: Seq<Seq<char>>)
    requires
        outs.len() <= retries,
        1 <= retries,
        forall|i: int| 0 <= i < outs.len() ==> reports_failure(#[trigger] outs[i], name),
    ensures
        drive(started(name, retries, timeout), outs).0.name == name,
        drive(started(name, retries, timeout), outs).0.retries == retries,
        drive(started(name, retries, timeout), outs).1.len() == outs.len(),
        outs.len() < retries ==> drive(started(name, retries, timeout), outs).0.spawned == outs.len() + 1,
        outs.len() < retries ==> forall|i: int| 0 <= i < outs.len() ==> #[trigger] drive(started(name, retries, timeout), outs).1[i] == StepV::Spawn,
        outs.len() == retries ==> drive(started(name, retries, timeout), outs).0.spawned == retries,
        outs.len() == retries ==> drive(started(name, retries, timeout), outs).1.last() == StepV::Fail(excerpt(outs.last(), name)),
        outs.len() == retries ==> forall|i: int| 0 <= i < outs.len() - 1 ==> #[trigger] drive(started(name, retries, timeout), outs).1[i] == StepV::Spawn,
    decreases outs.len(),
{
    if outs.len() > 0 {
        let prev = outs.drop_last();
        assert forall|i: int| 0 <= i < prev.len() implies reports_failure(#[trigger] prev[i], name) by {
            assert(prev[i] == outs[i]);
        }
        lemma_drive_failures(name, retries, timeout, prev);
        assert(reports_failure(outs[outs.len() - 1], name));
    }
}

/// The arguments that make a test binary run only the instance `name`,
/// ignored instances included when `ignored` is set.
pub fn worker_args(name: &str, ignored: bool) -> (r: Vec<String>)
    ensures
        r@.len() == if ignored { 3int } else { 2int },
        r@[0]@ == name@,
        r@[1]@ == "--exact"@,
        ignored ==> r@[2]@ == "--ignored"@,
{
    let mut r: Vec<String> = Vec::new();
    r.push(String::from_str(name));
    r.push(String::from_str("--exact"));
    if ignored {
        r.push(String::from_str("--ignored"));
    }
    r
}

/// The first `i >= from` at which `::` starts in `s`, else `s.len()`.
pub open spec fn path_sep_from(s: Seq<char>, from: int) -> int
    decreases s.len() - from,
{
    if from + 2 > s.len() {
        s.len() as int
    } else if s[from] == ':' && s[from + 1] == ':' {
        from
    } else {
        path_sep_from(s, from + 1)
    }
}

/// The name under which the harness knows test `test` of the module at
/// `module`: the path without its crate, then the test.
pub open spec fn qualified_spec(module: Seq<char>, test: Seq<char>) -> Seq<char> {
    let k = path_sep_from(module, 0);
    if k >= module.len() {
        test
    } else {
        module.subrange(k + 2, module.len() as int) + "::"@ + test
    }
}

/// The harness's name for test `test` declared in the module at
/// `module` (a `::`-separated path that starts with the crate).
pub fn qualified_name(module: &str, test: &str) -> (r: String)
    ensures
        r@ == qualified_spec(module@, test@),
{
    let m = chars_of(module);
    let n = m.len();
    let mut k: usize = 0;
    while k < n && k + 1 < n && !(m[k] == ':' && m[k + 1] == ':')
        invariant
            n == m@.len(),
            m@ == module@,
            k <= n,
            path_sep_from(m@, 0) == path_sep_from(m@, k as int),
        decreases n - k,
    {
        k += 1;
    }
    if !(k < n && k + 1 < n) {
        return String::from_str(test);
    }
    let mut out = slice_chars(&m, k + 2, n);
    push_str(&mut out, "::");
    push_str(&mut out, test);
    string_of(&out)
}

/// The panic message that carries a worker's failure to the dispatcher's
/// own report.
pub fn failure_payload(failure: &str) -> (r: String)
    ensures
        r@ == PAYLOAD_HEADER@ + failure@,
{
    let mut out = chars_of(PAYLOAD_HEADER);
    push_str(&mut out, failure);
    string_of(&out)
}

pub open spec fn smuggled_spec(payload: Seq<char>) -> Option<Seq<char>> {
    if starts_with(payload, PAYLOAD_HEADER@) {
        Some(trimmed(payload.subrange(PAYLOAD_HEADER@.len() as int, payload.len() as int)))
    } else {
        None
    }
}

/// The worker's failure that a panic message carries, without white space
/// at its ends; `None` for any other panic message.
pub fn smuggled_message(payload: &str) -> (r: Option<String>)
    ensures
        match smuggled_spec(payload@) {
            Some(m) => r is Some && r->0@ == m,
            None => r is None,
        },
{
    let pc = chars_of(payload);
    let hc = chars_of(PAYLOAD_HEADER);
    if hc.len() > pc.len() {
        return None;
    }
    let mut i: usize = 0;
    while i < hc.len()
        invariant
            hc@ == PAYLOAD_HEADER@,
            pc@ == payload@,
            hc@.len() <= pc@.len(),
            i <= hc@.len(),
            forall|k: int| 0 <= k < i ==> pc@[k] == #[trigger] hc@[k],
        decreases hc@.len() - i,
    {
        if pc[i] != hc[i] {
            assert(pc@.subrange(0, hc@.len() as int)[i as int] != hc@[i as int]);
            return None;
        }
        i += 1;
    }
    assert(pc@.subrange(0, hc@.len() as int) =~= hc@);
    let rest = slice_chars(&pc, hc.len(), pc.len());
    let t = trim_chars(&rest);
    Some(string_of(&t))
}

} // verus!
