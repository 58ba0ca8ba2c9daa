//! The launch policy: candidate executable paths are tried in order, the
//! first one whose spawn succeeds wins — whatever its exit status — and only
//! a failed spawn falls through to the next path. When every path fails to
//! spawn, the launch fails.

use vstd::prelude::*;
use crate::text::{trim_str, trim_of};

verus! {

/// Errors of a launch.
#[derive(Debug, PartialEq, Eq, Structural, Clone, Copy)]
pub enum LaunchError {
    /// No registered executable path could be spawned.
    NoLauncherFound,
    /// A spawn succeeded but waiting for the child's exit status failed.
    ChildProcessWaitFailed,
}

/// What the driver of a launch has to do next.
#[derive(Debug, PartialEq, Eq)]
pub enum LaunchCommand {
    /// Spawn this executable, already trimmed, with the launch flag and this
    /// game id.
    TrySpawn(String, String),
    /// Every path failed to spawn: fail with `NoLauncherFound`.
    GiveUp,
    /// A spawn succeeded earlier: nothing further is ever attempted.
    Done,
}

/// The fixed flag handed to the platform client to launch a game by id.
pub fn launch_flag() -> (r: &'static str)
    ensures
        r@ == "-applaunch"@,
{
    "-applaunch"
}

/// One launch attempt's state: which paths remain, and whether a spawn has
/// succeeded. The id argument is the trimmed game id.
pub struct LaunchSession {
    paths: Vec<String>,
    arg: String,
    pos: usize,
    spawned: bool,
}

impl LaunchSession {
    /// The candidate paths, in order.
    pub closed spec fn paths(self) -> Seq<Seq<char>> {
        self.paths@.map_values(|p: String| p@)
    }

    /// The game id argument of every spawn, the trimmed id.
    pub closed spec fn arg_view(self) -> Seq<char> {
        self.arg@
    }

    /// How many paths have failed to spawn so far.
    pub closed spec fn tried(self) -> int {
        self.pos as int
    }

    /// Whether some path has spawned successfully.
    pub closed spec fn launched(self) -> bool {
        self.spawned
    }

    /// No more paths have failed than exist.
    pub closed spec fn wf(self) -> bool {
        0 <= self.pos <= self.paths@.len()
    }

    /// Starts a launch over the given paths: nothing tried yet, the id
    /// trimmed once for every later attempt.
    pub fn new(paths: Vec<String>, app_id: &str) -> (r: LaunchSession)
        ensures
            r.wf(),
            r.paths() == paths@.map_values(|p: String| p@),
            r.arg_view() == trim_of(app_id@),
            r.tried() == 0,
            !r.launched(),
    {
        let arg = trim_str(app_id).to_owned();
        LaunchSession { paths, arg, pos: 0, spawned: false }
    }

    /// What to do next: once a spawn has succeeded nothing more is attempted;
    /// otherwise the first path that has not failed yet is spawned — trimmed,
    /// with the launch flag and the trimmed id; when all have failed, the
    /// launch gives up.
    pub fn command(&self) -> (r: LaunchCommand)
        requires
            self.wf(),
        ensures
            self.launched() ==> r == LaunchCommand::Done,
            !self.launched() && self.tried() < self.paths().len() ==> (r matches
                LaunchCommand::TrySpawn(path, arg) && path@ == trim_of(
                self.paths()[self.tried()],
            ) && arg@ == self.arg_view()),
            !self.launched() && self.tried() == self.paths().len() ==> r == LaunchCommand::GiveUp,
    {
        if self.spawned {
            LaunchCommand::Done
        } else if self.pos < self.paths.len() {
            let path = trim_str(self.paths[self.pos].as_str()).to_owned();
            LaunchCommand::TrySpawn(path, self.arg.clone())
        } else {
            LaunchCommand::GiveUp
        }
    }

    /// Records that the current path failed to spawn: the next path is up.
    pub fn spawn_failed(&mut self)
        requires
            old(self).wf(),
            !old(self).launched(),
            old(self).tried() < old(self).paths().len(),
        ensures
            final(self).wf(),
            final(self).paths() == old(self).paths(),
            final(self).arg_view() == old(self).arg_view(),
            final(self).tried() == old(self).tried() + 1,
            !final(self).launched(),
            (final(self).tried(), final(self).launched()) == spec_launch_step(
                old(self).tried(),
                old(self).launched(),
                false,
            ),
    {
        let n = self.paths.len();
        assert(self.pos < n);
        self.pos = self.pos + 1;
    }

    /// Records that the current path spawned: the launch is decided, no later
    /// path is ever attempted.
    pub fn spawn_succeeded(&mut self)
        requires
            old(self).wf(),
            !old(self).launched(),
        ensures
            final(self).wf(),
            final(self).paths() == old(self).paths(),
            final(self).arg_view() == old(self).arg_view(),
            final(self).tried() == old(self).tried(),
            final(self).launched(),
            (final(self).tried(), final(self).launched()) == spec_launch_step(
                old(self).tried(),
                old(self).launched(),
                true,
            ),
    {
        self.spawned = true;
    }
}

/// A launch attempt reduced to its decisions: how many paths have failed and
/// whether one spawned, after one more spawn outcome.
pub open spec fn spec_launch_step(tried: int, launched: bool, spawn_ok: bool) -> (int, bool) {
    if launched {
        (tried, launched)
    } else if spawn_ok {
        (tried, true)
    } else {
        (tried + 1, false)
    }
}

/// The decisions after a whole sequence of spawn outcomes, starting fresh.
pub open spec fn spec_launch_run(events: Seq<bool>) -> (int, bool)
    decreases events.len(),
{
    if events.len() == 0 {
        (0, false)
    } else {
        let prev = spec_launch_run(events.drop_last());
        spec_launch_step(prev.0, prev.1, events.last())
    }
}

/// Law: the first path that spawns wins. When the spawn outcomes fail up to
/// position `k` and succeed there, the launch ends launched with exactly `k`
/// failures recorded — so the paths after position `k` are never attempted,
/// whatever the later outcomes say.
pub proof fn lemma_first_spawn_wins(events: Seq<bool>, k: int)
    requires
        0 <= k < events.len(),
        forall|j: int| 0 <= j < k ==> !events[j],
        events[k],
    ensures
        spec_launch_run(events) == (k, true),
    decreases events.len(),
{
    if events.len() - 1 == k {
        lemma_all_spawns_fail(events.drop_last());
    } else {
        lemma_first_spawn_wins(events.drop_last(), k);
    }
}

/// Law: when every spawn outcome fails, the launch ends unlaunched with every
/// path recorded as failed — the command is then to give up with
/// `NoLauncherFound`.
pub proof fn lemma_all_spawns_fail(events: Seq<bool>)
    requires
        forall|j: int| 0 <= j < events.len() ==> !events[j],
    ensures
        spec_launch_run(events) == (events.len() as int, false),
    decreases events.len(),
{
    if events.len() > 0 {
        lemma_all_spawns_fail(events.drop_last());
    }
}

} // verus!
