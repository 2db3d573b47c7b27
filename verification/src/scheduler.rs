//! When a pass over a strategy may run, and whether it may fetch.
//!
//! At most one pass over a strategy runs at a time: a tick that comes due
//! while a pass is running is skipped. A strategy whose credentials are
//! missing or were refused is not fetched for; its log is still read, and
//! the operator is warned once.

use vstd::prelude::*;
use vstd::string::*;
use crate::data::FailureCause;
use crate::keyed::{find_key, lemma_find_key, lemma_find_key_absent, lemma_find_key_at, lemma_find_key_push};

verus! {

/// Whether the brokerage is asked for a strategy.
#[derive(Clone, Copy, Debug, PartialEq, Eq, Structural)]
pub enum FetchMode {
    /// Fetch on every pass.
    Enabled,
    /// No credentials are configured: never fetch.
    NoCredentials,
    /// The credentials were refused: do not fetch until they are mended.
    AuthRejected,
}

/// What is remembered of a strategy between passes, besides its state.
#[derive(Clone, Copy, Debug, PartialEq, Eq, Structural)]
pub struct Runtime {
    pub mode: FetchMode,
    /// Whether the operator was warned of the present mode.
    pub warned: bool,
    /// Whether a pass is running.
    pub in_flight: bool,
    /// The greatest portfolio value seen since the start.
    pub peak: Option<i64>,
}

/// What to do when a tick comes due.
#[derive(Clone, Copy, Debug, PartialEq, Eq, Structural)]
pub enum PassPlan {
    /// A pass is running: do nothing.
    Skip,
    /// Fetch, read the log, and complete the pass.
    Fetch,
    /// Do not fetch; read the log and complete the pass with a fetch that
    /// failed for `cause`. Where `warn` is set, tell the operator.
    LogOnly { cause: FailureCause, warn: bool },
}

/// The runtime of a strategy of which nothing is remembered.
pub open spec fn idle() -> Runtime {
    Runtime { mode: FetchMode::Enabled, warned: false, in_flight: false, peak: None }
}

/// The cause that a fetch which is not made fails for.
pub open spec fn cause_of_mode(mode: FetchMode) -> FailureCause {
    if mode == FetchMode::AuthRejected {
        FailureCause::AuthRejected
    } else {
        FailureCause::MissingCredentials
    }
}

/// The plan for a tick that comes due.
pub open spec fn plan_of(r: Runtime) -> PassPlan {
    if r.in_flight {
        PassPlan::Skip
    } else if r.mode == FetchMode::Enabled {
        PassPlan::Fetch
    } else {
        PassPlan::LogOnly { cause: cause_of_mode(r.mode), warn: !r.warned }
    }
}

/// The runtime once a tick came due: unchanged where the tick is skipped;
/// else a pass is running, and the operator counts as warned where fetching
/// is off.
pub open spec fn begun(r: Runtime) -> Runtime {
    if r.in_flight {
        r
    } else {
        Runtime { in_flight: true, warned: r.warned || r.mode != FetchMode::Enabled, ..r }
    }
}

/// The runtime once a pass is complete: no pass is running, the peak is
/// `peak`, and fetching is off where the credentials were refused or are
/// missing.
pub open spec fn finished(r: Runtime, failure: Option<FailureCause>, peak: Option<i64>) -> Runtime {
    Runtime {
        mode: if failure == Some(FailureCause::AuthRejected) {
            FetchMode::AuthRejected
        } else if failure == Some(FailureCause::MissingCredentials) {
            FetchMode::NoCredentials
        } else {
            r.mode
        },
        warned: if failure == Some(FailureCause::AuthRejected) && r.mode != FetchMode::AuthRejected {
            true
        } else if failure == Some(FailureCause::MissingCredentials) && r.mode
            != FetchMode::NoCredentials {
            true
        } else {
            r.warned
        },
        in_flight: false,
        peak,
    }
}

/// Whether completing a pass has news for the operator: fetching was just
/// switched off.
pub open spec fn newly_disabled(r: Runtime, failure: Option<FailureCause>) -> bool {
    finished(r, failure, None).mode != r.mode && finished(r, failure, None).mode != FetchMode::Enabled
}

/// While a pass is running every tick is skipped and changes nothing.
pub proof fn lemma_one_in_flight(r: Runtime)
    ensures
        plan_of(begun(r)) == PassPlan::Skip,
        begun(begun(r)) == begun(r),
        r.in_flight ==> begun(r) == r && plan_of(r) == PassPlan::Skip,
{
}

/// The operator is warned once: after a tick that began a pass, no later
/// tick warns, however many passes complete without a new refusal in
/// between.
pub proof fn lemma_warned_once(r: Runtime, peak: Option<i64>)
    requires
        !r.in_flight,
    ensures
        !(plan_of(finished(begun(r), None, peak)) matches PassPlan::LogOnly { warn: true, .. }),
        r.mode != FetchMode::Enabled ==> !(plan_of(finished(begun(r), Some(cause_of_mode(r.mode)), peak))
            matches PassPlan::LogOnly { warn: true, .. }),
        finished(begun(r), None, peak).mode == r.mode,
{
}

/// Plans a tick.
pub fn plan_pass(r: Runtime) -> (p: PassPlan)
    ensures
        p == plan_of(r),
{
    if r.in_flight {
        PassPlan::Skip
    } else {
        match r.mode {
            FetchMode::Enabled => PassPlan::Fetch,
            FetchMode::AuthRejected => PassPlan::LogOnly { cause: FailureCause::AuthRejected, warn: !r.warned },
            FetchMode::NoCredentials => PassPlan::LogOnly {
                cause: FailureCause::MissingCredentials,
                warn: !r.warned,
            },
        }
    }
}

/// Begins a pass, unless one is running.
pub fn begin(r: Runtime) -> (n: Runtime)
    ensures
        n == begun(r),
{
    if r.in_flight {
        r
    } else {
        let off = match r.mode {
            FetchMode::Enabled => false,
            _ => true,
        };
        Runtime { mode: r.mode, warned: r.warned || off, in_flight: true, peak: r.peak }
    }
}

/// Completes a pass whose fetch failed for `failure`, or did not fail.
pub fn finish(r: Runtime, failure: Option<FailureCause>, peak: Option<i64>) -> (n: Runtime)
    ensures
        n == finished(r, failure, peak),
{
    let (mode, warned) = match failure {
        Some(FailureCause::AuthRejected) => (
            FetchMode::AuthRejected,
            match r.mode {
                FetchMode::AuthRejected => r.warned,
                _ => true,
            },
        ),
        Some(FailureCause::MissingCredentials) => (
            FetchMode::NoCredentials,
            match r.mode {
                FetchMode::NoCredentials => r.warned,
                _ => true,
            },
        ),
        _ => (r.mode, r.warned),
    };
    Runtime { mode, warned, in_flight: false, peak }
}

/// One remembered strategy.
struct Slot {
    name: String,
    runtime: Runtime,
}

/// The runtimes of the strategies, by name.
pub struct RuntimeTable {
    slots: Vec<Slot>,
}

impl RuntimeTable {
    /// The names that something is remembered of.
    pub closed spec fn names(&self) -> Seq<Seq<char>> {
        self.slots@.map_values(|s: Slot| s.name@)
    }

    /// What is remembered, in the order of [`Self::names`].
    pub closed spec fn runtimes(&self) -> Seq<Runtime> {
        self.slots@.map_values(|s: Slot| s.runtime)
    }

    /// The runtime of the strategy `name`; [`idle`] where nothing is
    /// remembered of it.
    pub open spec fn runtime_of(&self, name: Seq<char>) -> Runtime {
        match find_key(self.names(), name) {
            Some(i) => self.runtimes()[i],
            None => idle(),
        }
    }

    /// A table that remembers nothing.
    pub fn new() -> (r: RuntimeTable)
        ensures
            forall|name: Seq<char>| r.runtime_of(name) == idle(),
    {
        let r = RuntimeTable { slots: Vec::new() };
        assert(r.names() =~= Seq::<Seq<char>>::empty());
        r
    }

    /// Finds the place of the strategy `name`.
    fn find(&self, name: &str) -> (r: Option<usize>)
        ensures
            match r {
                Some(i) => i < self.slots@.len() && find_key(self.names(), name@) == Some(i as int),
                None => find_key(self.names(), name@) is None,
            },
    {
        let ghost keys = self.names();
        let wanted = name.to_owned();
        let mut i: usize = 0;
        while i < self.slots.len()
            invariant
                i <= self.slots.len(),
                keys == self.names(),
                wanted@ == name@,
                forall|j: int| 0 <= j < i ==> #[trigger] keys[j] != name@,
            decreases self.slots.len() - i,
        {
            if self.slots[i].name == wanted {
                proof {
                    assert(keys[i as int] == name@);
                    lemma_find_key_at(keys, name@, i as int);
                }
                return Some(i);
            }
            i = i + 1;
        }
        proof {
            lemma_find_key_absent(keys, name@);
        }
        None
    }

    /// The runtime of the strategy `name`.
    pub fn get(&self, name: &str) -> (r: Runtime)
        ensures
            r == self.runtime_of(name@),
    {
        match self.find(name) {
            Some(i) => self.slots[i].runtime,
            None => Runtime { mode: FetchMode::Enabled, warned: false, in_flight: false, peak: None },
        }
    }

    /// Remembers `runtime` for the strategy `name`. Nothing changes for any
    /// other strategy.
    pub fn set(&mut self, name: &str, runtime: Runtime)
        ensures
            final(self).runtime_of(name@) == runtime,
            forall|other: Seq<char>|
                other != name@ ==> final(self).runtime_of(other) == old(self).runtime_of(other),
    {
        let ghost keys = self.names();
        let ghost runtimes = self.runtimes();
        match self.find(name) {
            Some(i) => {
                self.slots.set(i, Slot { name: name.to_owned(), runtime });
                proof {
                    lemma_find_key(keys, name@);
                    assert(self.names() =~= keys);
                    assert(self.runtimes() =~= runtimes.update(i as int, runtime));
                    assert forall|other: Seq<char>| other != name@ implies self.runtime_of(other)
                        == match find_key(keys, other) {
                        Some(j) => runtimes[j],
                        None => idle(),
                    } by {
                        lemma_find_key(keys, other);
                    }
                }
            },
            None => {
                self.slots.push(Slot { name: name.to_owned(), runtime });
                proof {
                    assert(self.names() =~= keys.push(name@));
                    assert(self.runtimes() =~= runtimes.push(runtime));
                    lemma_find_key_push(keys, name@, name@);
                    assert forall|other: Seq<char>| other != name@ implies self.runtime_of(other)
                        == match find_key(keys, other) {
                        Some(j) => runtimes[j],
                        None => idle(),
                    } by {
                        lemma_find_key_push(keys, name@, other);
                        lemma_find_key(keys, other);
                    }
                }
            },
        }
    }
}

} // verus!
