use vstd::prelude::*;

use crate::graph::{
    deps_in_range, deps_view, depends_transitively, has_cycle, DependencyGraph, GraphError,
};

verus! {

/// The lifecycle of a managed service, as the engine tracks it.
#[derive(Debug, Clone, Copy, PartialEq, Eq, Structural)]
pub enum Lifecycle {
    Stopped,
    Starting,
    Running,
    Stopping,
    Failed,
}

/// Why a command was refused.
#[derive(Debug, Clone, Copy, PartialEq, Eq)]
pub enum EngineError {
    /// The service index is not part of the project.
    NotFound,
    /// A declared dependency of the service is not running.
    DependencyNotReady { dependency: usize },
    /// The command does not apply to the service in its current lifecycle state.
    InvalidTransition { state: Lifecycle },
    /// The service set was rejected by the dependency graph.
    Config(GraphError),
}

/// What happened to a service, for subscribers.
#[derive(Debug, Clone, Copy, PartialEq, Eq)]
pub enum Event {
    ServiceStarted { service: usize, pid: u32 },
    ServiceStopped { service: usize },
    ServiceFailed { service: usize },
}

/// A lifecycle request or report for one service of a project.
#[derive(Debug, Clone, Copy, PartialEq, Eq)]
pub enum Command {
    StartService(usize),
    SpawnSucceeded(usize, u32),
    SpawnFailed(usize),
    ProcessExited(usize),
    BeginStop(usize),
    FinishStop(usize),
}

/// `new` is `old` after service `i` moved from `from` to `to` with process id `pid`,
/// answering `event`; or, where `i` is unknown or not in state `from`, `old` unchanged
/// with the matching error.
pub open spec fn moved(
    old: Project,
    new: Project,
    i: usize,
    from: Lifecycle,
    to: Lifecycle,
    pid: Option<u32>,
    event: Option<Event>,
    r: Result<Option<Event>, EngineError>,
) -> bool {
    if i >= old.deps().len() {
        r == Err::<Option<Event>, EngineError>(EngineError::NotFound) && new == old
    } else if old.states()[i as int] != from {
        r == Err::<Option<Event>, EngineError>(EngineError::InvalidTransition { state: old.states()[i as int] })
            && new == old
    } else {
        &&& r == Ok::<Option<Event>, EngineError>(event)
        &&& new.graph() == old.graph()
        &&& new.states() == old.states().update(i as int, to)
        &&& new.pids() == old.pids().update(i as int, pid)
    }
}

/// `new` and `r` are what applying `cmd` to `old` gives.
pub open spec fn command_outcome(old: Project, new: Project, cmd: Command, r: Result<Option<Event>, EngineError>) -> bool {
    match cmd {
        Command::StartService(i) => if i >= old.deps().len() {
            r == Err::<Option<Event>, EngineError>(EngineError::NotFound) && new == old
        } else if !old.dependencies_running(i) {
            &&& r matches Err(EngineError::DependencyNotReady { dependency })
            &&& old.deps()[i as int].contains(dependency)
            &&& old.states()[dependency as int] != Lifecycle::Running
            &&& new == old
        } else if old.states()[i as int] != Lifecycle::Stopped && old.states()[i as int] != Lifecycle::Failed {
            r == Err::<Option<Event>, EngineError>(EngineError::InvalidTransition { state: old.states()[i as int] })
                && new == old
        } else {
            &&& r == Ok::<Option<Event>, EngineError>(None)
            &&& new.graph() == old.graph()
            &&& new.states() == old.states().update(i as int, Lifecycle::Starting)
            &&& new.pids() == old.pids()
        },
        Command::SpawnSucceeded(i, pid) => moved(old, new, i, Lifecycle::Starting, Lifecycle::Running, Some(pid),
            Some(Event::ServiceStarted { service: i, pid }), r),
        Command::SpawnFailed(i) => moved(old, new, i, Lifecycle::Starting, Lifecycle::Failed, None,
            Some(Event::ServiceFailed { service: i }), r),
        Command::ProcessExited(i) => moved(old, new, i, Lifecycle::Running, Lifecycle::Failed, None,
            Some(Event::ServiceFailed { service: i }), r),
        Command::BeginStop(i) => moved(old, new, i, Lifecycle::Running, Lifecycle::Stopping,
            if i < old.pids().len() { old.pids()[i as int] } else { None }, None, r),
        Command::FinishStop(i) => moved(old, new, i, Lifecycle::Stopping, Lifecycle::Stopped, None,
            Some(Event::ServiceStopped { service: i }), r),
    }
}

/// One loaded project: its dependency graph, the lifecycle of each service and the
/// OS process id of each one that runs.
pub struct Project {
    graph: DependencyGraph,
    states: Vec<Lifecycle>,
    pids: Vec<Option<u32>>,
}

impl Project {
    /// The dependency graph of the loaded services.
    pub closed spec fn graph(&self) -> DependencyGraph {
        self.graph
    }

    /// The lifecycle state of each service.
    pub closed spec fn states(&self) -> Seq<Lifecycle> {
        self.states@
    }

    /// The OS process id of each service, where one runs.
    pub closed spec fn pids(&self) -> Seq<Option<u32>> {
        self.pids@
    }

    /// The dependency lists of the loaded services.
    pub open spec fn deps(&self) -> Seq<Seq<usize>> {
        self.graph().deps()
    }

    /// A sound graph, and one state and one process id per service.
    pub open spec fn wf(&self) -> bool {
        &&& self.graph().wf()
        &&& self.states().len() == self.deps().len()
        &&& self.pids().len() == self.deps().len()
    }

    /// Every declared dependency of service `i` is running.
    pub open spec fn dependencies_running(&self, i: usize) -> bool {
        forall|j: int|
            0 <= j < self.deps()[i as int].len() ==> self.states()[#[trigger] self.deps()[i as int][j] as int]
                == Lifecycle::Running
    }

    /// A project with no services loaded.
    pub fn new() -> (r: Project)
        ensures
            r.wf(),
            r.deps().len() == 0,
    {
        let r = Project { graph: DependencyGraph::empty(), states: Vec::new(), pids: Vec::new() };
        r
    }

    /// The number of services loaded.
    pub fn len(&self) -> (r: usize)
        requires
            self.wf(),
        ensures
            r == self.deps().len(),
    {
        self.graph.len()
    }

    /// The lifecycle state of service `i`.
    pub fn state(&self, i: usize) -> (r: Option<Lifecycle>)
        requires
            self.wf(),
        ensures
            i < self.deps().len() ==> r == Some(self.states()[i as int]),
            i >= self.deps().len() ==> r.is_none(),
    {
        if i < self.states.len() {
            Some(self.states[i])
        } else {
            None
        }
    }

    /// The OS process id of service `i`, if it has one.
    pub fn pid(&self, i: usize) -> (r: Option<u32>)
        requires
            self.wf(),
        ensures
            i < self.deps().len() ==> r == self.pids()[i as int],
            i >= self.deps().len() ==> r.is_none(),
    {
        if i < self.pids.len() {
            self.pids[i]
        } else {
            None
        }
    }

    /// Moves service `i` from Stopped or Failed to Starting, once all its dependencies run.
    pub fn start_service(&mut self, i: usize) -> (r: Result<(), EngineError>)
        requires
            old(self).wf(),
        ensures
            final(self).wf(),
            r == Err::<(), EngineError>(EngineError::NotFound) <==> i >= old(self).deps().len(),
            (r matches Err(EngineError::DependencyNotReady { .. })) <==> i < old(self).deps().len()
                && !old(self).dependencies_running(i),
            match r {
                Err(EngineError::DependencyNotReady { dependency }) => {
                    &&& old(self).deps()[i as int].contains(dependency)
                    &&& old(self).states()[dependency as int] != Lifecycle::Running
                },
                _ => true,
            },
            r == Err::<(), EngineError>(EngineError::InvalidTransition { state: old(self).states()[i as int] })
                <==> i < old(self).deps().len() && old(self).dependencies_running(i)
                && old(self).states()[i as int] != Lifecycle::Stopped
                && old(self).states()[i as int] != Lifecycle::Failed,
            r.is_ok() <==> i < old(self).deps().len() && old(self).dependencies_running(i)
                && (old(self).states()[i as int] == Lifecycle::Stopped || old(self).states()[i as int] == Lifecycle::Failed),
            r.is_ok() ==> final(self).graph() == old(self).graph() && final(self).pids() == old(self).pids()
                && final(self).states() == old(self).states().update(i as int, Lifecycle::Starting),
            r.is_err() ==> *final(self) == *old(self),
    {
        if i >= self.states.len() {
            return Err(EngineError::NotFound);
        }
        let row = self.graph.dependencies(i);
        let mut j: usize = 0;
        while j < row.len()
            invariant
                self.wf(),
                i < self.deps().len(),
                row@ == self.deps()[i as int],
                j <= row.len(),
                forall|q: int| 0 <= q < j ==> self.states()[#[trigger] self.deps()[i as int][q] as int] == Lifecycle::Running,
            decreases row.len() - j,
        {
            let x = row[j];
            assert(x == self.deps()[i as int][j as int]);
            assert(x < self.deps().len());
            if self.states[x] != Lifecycle::Running {
                assert(self.deps()[i as int].contains(x));
                return Err(EngineError::DependencyNotReady { dependency: x });
            }
            j = j + 1;
        }
        let st = self.states[i];
        if st != Lifecycle::Stopped && st != Lifecycle::Failed {
            return Err(EngineError::InvalidTransition { state: st });
        }
        self.states.set(i, Lifecycle::Starting);
        Ok(())
    }

    /// Changes service `i` from state `from` to state `to`, setting its process id to `pid`.
    fn transition(&mut self, i: usize, from: Lifecycle, to: Lifecycle, pid: Option<u32>) -> (r: Result<(), EngineError>)
        requires
            old(self).wf(),
        ensures
            final(self).wf(),
            r == Err::<(), EngineError>(EngineError::NotFound) <==> i >= old(self).deps().len(),
            r == Err::<(), EngineError>(EngineError::InvalidTransition { state: old(self).states()[i as int] })
                <==> i < old(self).deps().len() && old(self).states()[i as int] != from,
            r.is_ok() <==> i < old(self).deps().len() && old(self).states()[i as int] == from,
            r.is_ok() ==> final(self).graph() == old(self).graph()
                && final(self).states() == old(self).states().update(i as int, to)
                && final(self).pids() == old(self).pids().update(i as int, pid),
            r.is_err() ==> *final(self) == *old(self),
    {
        if i >= self.states.len() {
            return Err(EngineError::NotFound);
        }
        let st = self.states[i];
        if st != from {
            return Err(EngineError::InvalidTransition { state: st });
        }
        self.states.set(i, to);
        self.pids.set(i, pid);
        Ok(())
    }

    /// Records that the process of starting service `i` was spawned as `pid`: Starting to Running.
    pub fn spawn_succeeded(&mut self, i: usize, pid: u32) -> (r: Result<Event, EngineError>)
        requires
            old(self).wf(),
        ensures
            final(self).wf(),
            r == Err::<Event, EngineError>(EngineError::NotFound) <==> i >= old(self).deps().len(),
            r == Err::<Event, EngineError>(EngineError::InvalidTransition { state: old(self).states()[i as int] })
                <==> i < old(self).deps().len() && old(self).states()[i as int] != Lifecycle::Starting,
            r.is_ok() <==> i < old(self).deps().len() && old(self).states()[i as int] == Lifecycle::Starting,
            r.is_ok() ==> r == Ok::<Event, EngineError>(Event::ServiceStarted { service: i, pid })
                && final(self).graph() == old(self).graph()
                && final(self).states() == old(self).states().update(i as int, Lifecycle::Running)
                && final(self).pids() == old(self).pids().update(i as int, Some(pid)),
            r.is_err() ==> *final(self) == *old(self),
    {
        match self.transition(i, Lifecycle::Starting, Lifecycle::Running, Some(pid)) {
            Ok(()) => Ok(Event::ServiceStarted { service: i, pid }),
            Err(e) => Err(e),
        }
    }

    /// Records that spawning service `i` failed: Starting to Failed.
    pub fn spawn_failed(&mut self, i: usize) -> (r: Result<Event, EngineError>)
        requires
            old(self).wf(),
        ensures
            final(self).wf(),
            r == Err::<Event, EngineError>(EngineError::NotFound) <==> i >= old(self).deps().len(),
            r == Err::<Event, EngineError>(EngineError::InvalidTransition { state: old(self).states()[i as int] })
                <==> i < old(self).deps().len() && old(self).states()[i as int] != Lifecycle::Starting,
            r.is_ok() <==> i < old(self).deps().len() && old(self).states()[i as int] == Lifecycle::Starting,
            r.is_ok() ==> r == Ok::<Event, EngineError>(Event::ServiceFailed { service: i })
                && final(self).graph() == old(self).graph()
                && final(self).states() == old(self).states().update(i as int, Lifecycle::Failed)
                && final(self).pids() == old(self).pids().update(i as int, None),
            r.is_err() ==> *final(self) == *old(self),
    {
        match self.transition(i, Lifecycle::Starting, Lifecycle::Failed, None) {
            Ok(()) => Ok(Event::ServiceFailed { service: i }),
            Err(e) => Err(e),
        }
    }

    /// Records that the running process of service `i` exited on its own: Running to Failed.
    pub fn process_exited(&mut self, i: usize) -> (r: Result<Event, EngineError>)
        requires
            old(self).wf(),
        ensures
            final(self).wf(),
            r == Err::<Event, EngineError>(EngineError::NotFound) <==> i >= old(self).deps().len(),
            r == Err::<Event, EngineError>(EngineError::InvalidTransition { state: old(self).states()[i as int] })
                <==> i < old(self).deps().len() && old(self).states()[i as int] != Lifecycle::Running,
            r.is_ok() <==> i < old(self).deps().len() && old(self).states()[i as int] == Lifecycle::Running,
            r.is_ok() ==> r == Ok::<Event, EngineError>(Event::ServiceFailed { service: i })
                && final(self).graph() == old(self).graph()
                && final(self).states() == old(self).states().update(i as int, Lifecycle::Failed)
                && final(self).pids() == old(self).pids().update(i as int, None),
            r.is_err() ==> *final(self) == *old(self),
    {
        match self.transition(i, Lifecycle::Running, Lifecycle::Failed, None) {
            Ok(()) => Ok(Event::ServiceFailed { service: i }),
            Err(e) => Err(e),
        }
    }

    /// Marks running service `i` as being signaled to terminate: Running to Stopping.
    pub fn begin_stop(&mut self, i: usize) -> (r: Result<(), EngineError>)
        requires
            old(self).wf(),
        ensures
            final(self).wf(),
            r == Err::<(), EngineError>(EngineError::NotFound) <==> i >= old(self).deps().len(),
            r == Err::<(), EngineError>(EngineError::InvalidTransition { state: old(self).states()[i as int] })
                <==> i < old(self).deps().len() && old(self).states()[i as int] != Lifecycle::Running,
            r.is_ok() <==> i < old(self).deps().len() && old(self).states()[i as int] == Lifecycle::Running,
            r.is_ok() ==> final(self).graph() == old(self).graph()
                && final(self).states() == old(self).states().update(i as int, Lifecycle::Stopping)
                && final(self).pids() == old(self).pids(),
            r.is_err() ==> *final(self) == *old(self),
    {
        if i >= self.pids.len() {
            return Err(EngineError::NotFound);
        }
        let pid = self.pids[i];
        self.transition(i, Lifecycle::Running, Lifecycle::Stopping, pid)
    }

    /// Records that the process of stopping service `i` has exited: Stopping to Stopped.
    pub fn finish_stop(&mut self, i: usize) -> (r: Result<Event, EngineError>)
        requires
            old(self).wf(),
        ensures
            final(self).wf(),
            r == Err::<Event, EngineError>(EngineError::NotFound) <==> i >= old(self).deps().len(),
            r == Err::<Event, EngineError>(EngineError::InvalidTransition { state: old(self).states()[i as int] })
                <==> i < old(self).deps().len() && old(self).states()[i as int] != Lifecycle::Stopping,
            r.is_ok() <==> i < old(self).deps().len() && old(self).states()[i as int] == Lifecycle::Stopping,
            r.is_ok() ==> r == Ok::<Event, EngineError>(Event::ServiceStopped { service: i })
                && final(self).graph() == old(self).graph()
                && final(self).states() == old(self).states().update(i as int, Lifecycle::Stopped)
                && final(self).pids() == old(self).pids().update(i as int, None),
            r.is_err() ==> *final(self) == *old(self),
    {
        match self.transition(i, Lifecycle::Stopping, Lifecycle::Stopped, None) {
            Ok(()) => Ok(Event::ServiceStopped { service: i }),
            Err(e) => Err(e),
        }
    }

    /// The services to stop, in order, when service `t` is stopped: each running service
    /// that depends on `t`, dependents before their dependencies, and then `t` itself.
    pub fn stop_plan(&self, t: usize) -> (r: Result<Vec<usize>, EngineError>)
        requires
            self.wf(),
        ensures
            r.is_err() <==> t >= self.deps().len(),
            r.is_err() ==> r == Err::<Vec<usize>, EngineError>(EngineError::NotFound),
            r matches Ok(plan) ==> {
                let n = plan@.len();
                &&& n >= 1
                &&& plan@[n - 1] == t
                &&& plan@.take(n - 1).no_duplicates()
                &&& forall|k: usize| #[trigger] plan@.take(n - 1).contains(k) <==> k < self.deps().len()
                    && depends_transitively(self.deps(), k, t) && self.states()[k as int] == Lifecycle::Running
                &&& forall|a: int, b: int, j: int|
                    0 <= a < n - 1 && 0 <= b < n - 1 && 0 <= j < self.deps()[plan@[a] as int].len()
                        && #[trigger] self.deps()[plan@[a] as int][j] == #[trigger] plan@[b] ==> a < b
            },
    {
        if t >= self.states.len() {
            return Err(EngineError::NotFound);
        }
        let ghost d = self.deps();
        let dependents = self.graph.dependents_of(t);
        let ghost dv = dependents@;
        let mut plan: Vec<usize> = Vec::new();
        let ghost mut pos: Seq<int> = Seq::empty();
        let mut i: usize = dependents.len();
        while i > 0
            invariant
                self.wf(),
                d == self.deps(),
                dv == dependents@,
                t < d.len(),
                i <= dependents.len(),
                dv.no_duplicates(),
                forall|k: usize| #[trigger] dv.contains(k) <==> k < d.len() && depends_transitively(d, k, t),
                forall|a: int, b: int, j: int|
                    0 <= a < dv.len() && 0 <= b < dv.len() && 0 <= j < d[dv[b] as int].len()
                        && #[trigger] d[dv[b] as int][j] == #[trigger] dv[a] ==> a < b,
                pos.len() == plan@.len(),
                forall|a: int| 0 <= a < pos.len() ==> i <= #[trigger] pos[a] < dv.len() && plan@[a] == dv[pos[a]],
                forall|a: int, b: int| 0 <= a < b < pos.len() ==> #[trigger] pos[a] > #[trigger] pos[b],
                forall|k: usize| #[trigger] plan@.contains(k) <==> exists|q: int|
                    i <= q < dv.len() && #[trigger] dv[q] == k && self.states()[k as int] == Lifecycle::Running,
            decreases i,
        {
            i = i - 1;
            let k = dependents[i];
            assert(dv.contains(k));
            if self.states[k] == Lifecycle::Running {
                let ghost old_plan = plan@;
                plan.push(k);
                proof {
                    pos = pos.push(i as int);
                    assert forall|x: usize| #[trigger] plan@.contains(x) <==> exists|q: int|
                        i <= q < dv.len() && #[trigger] dv[q] == x && self.states()[x as int] == Lifecycle::Running by {
                        if plan@.contains(x) {
                            let a = choose|a: int| 0 <= a < plan@.len() && plan@[a] == x;
                            if a < old_plan.len() {
                                assert(old_plan[a] == x);
                                assert(old_plan.contains(x));
                                let q = choose|q: int| i + 1 <= q < dv.len() && #[trigger] dv[q] == x && self.states()[x as int] == Lifecycle::Running;
                                assert(i <= q);
                            } else {
                                assert(dv[i as int] == x);
                            }
                        }
                        if exists|q: int| i <= q < dv.len() && #[trigger] dv[q] == x && self.states()[x as int] == Lifecycle::Running {
                            let q = choose|q: int| i <= q < dv.len() && #[trigger] dv[q] == x && self.states()[x as int] == Lifecycle::Running;
                            if q == i {
                                assert(plan@[old_plan.len() as int] == x);
                            } else {
                                assert(i + 1 <= q);
                                assert(old_plan.contains(x));
                                let a = choose|a: int| 0 <= a < old_plan.len() && old_plan[a] == x;
                                assert(plan@[a] == x);
                            }
                        }
                    }
                }
            } else {
                proof {
                    assert forall|x: usize| #[trigger] plan@.contains(x) <==> exists|q: int|
                        i <= q < dv.len() && #[trigger] dv[q] == x && self.states()[x as int] == Lifecycle::Running by {
                        if plan@.contains(x) {
                            let q = choose|q: int| i + 1 <= q < dv.len() && #[trigger] dv[q] == x && self.states()[x as int] == Lifecycle::Running;
                            assert(i <= q);
                        }
                        if exists|q: int| i <= q < dv.len() && #[trigger] dv[q] == x && self.states()[x as int] == Lifecycle::Running {
                            let q = choose|q: int| i <= q < dv.len() && #[trigger] dv[q] == x && self.states()[x as int] == Lifecycle::Running;
                            assert(q != i);
                            assert(i + 1 <= q);
                        }
                    }
                }
            }
        }
        let ghost body = plan@;
        plan.push(t);
        proof {
            let n = plan@.len();
            assert(plan@.take(n - 1) =~= body);
            assert forall|a: int, b: int| 0 <= a < b < body.len() implies body[a] != body[b] by {
                assert(pos[a] > pos[b]);
            }
            assert forall|k: usize| #[trigger] body.contains(k) <==> k < d.len()
                && depends_transitively(d, k, t) && self.states()[k as int] == Lifecycle::Running by {
                if k < d.len() && depends_transitively(d, k, t) && self.states()[k as int] == Lifecycle::Running {
                    assert(dv.contains(k));
                    let q = choose|q: int| 0 <= q < dv.len() && dv[q] == k;
                    assert(dv[q] == k);
                }
                if body.contains(k) {
                    let q = choose|q: int| 0 <= q < dv.len() && #[trigger] dv[q] == k && self.states()[k as int] == Lifecycle::Running;
                    assert(dv.contains(k));
                }
            }
            assert forall|a: int, b: int, j: int|
                0 <= a < n - 1 && 0 <= b < n - 1 && 0 <= j < d[plan@[a] as int].len()
                    && #[trigger] d[plan@[a] as int][j] == #[trigger] plan@[b] implies a < b by {
                assert(plan@[a] == body[a] && plan@[b] == body[b]);
                assert(d[dv[pos[a]] as int][j] == dv[pos[b]]);
                assert(pos[b] < pos[a]);
                if a >= b {
                    if a > b {
                        assert(pos[b] > pos[a]);
                    }
                }
            }
        }
        Ok(plan)
    }

    /// Service `k` has not been started and may start now.
    pub open spec fn startable(&self, k: usize) -> bool {
        self.states()[k as int] == Lifecycle::Stopped && self.dependencies_running(k)
    }

    /// Some service that runs, starts or stops declares `k` as a dependency.
    pub open spec fn has_active_dependent(&self, k: usize) -> bool {
        exists|x: int, j: int|
            0 <= x < self.deps().len() && 0 <= j < self.deps()[x].len() && #[trigger] self.deps()[x][j] == k
                && self.states()[x] != Lifecycle::Stopped && self.states()[x] != Lifecycle::Failed
    }

    /// Service `k` runs and nothing active depends on it, so it may stop now.
    pub open spec fn stoppable(&self, k: usize) -> bool {
        self.states()[k as int] == Lifecycle::Running && !self.has_active_dependent(k)
    }

    fn dependencies_running_exec(&self, i: usize) -> (r: bool)
        requires
            self.wf(),
            i < self.deps().len(),
        ensures
            r == self.dependencies_running(i),
    {
        let row = self.graph.dependencies(i);
        let mut j: usize = 0;
        while j < row.len()
            invariant
                self.wf(),
                i < self.deps().len(),
                row@ == self.deps()[i as int],
                j <= row.len(),
                forall|q: int| 0 <= q < j ==> self.states()[#[trigger] self.deps()[i as int][q] as int] == Lifecycle::Running,
            decreases row.len() - j,
        {
            let x = row[j];
            assert(x == self.deps()[i as int][j as int]);
            if self.states[x] != Lifecycle::Running {
                return false;
            }
            j = j + 1;
        }
        true
    }

    fn has_active_dependent_exec(&self, k: usize) -> (r: bool)
        requires
            self.wf(),
        ensures
            r == self.has_active_dependent(k),
    {
        let n = self.states.len();
        let mut x: usize = 0;
        while x < n
            invariant
                self.wf(),
                n == self.deps().len(),
                x <= n,
                forall|a: int, j: int|
                    0 <= a < x && 0 <= j < self.deps()[a].len() && #[trigger] self.deps()[a][j] == k
                        ==> self.states()[a] == Lifecycle::Stopped || self.states()[a] == Lifecycle::Failed,
            decreases n - x,
        {
            let st = self.states[x];
            if st != Lifecycle::Stopped && st != Lifecycle::Failed {
                let row = self.graph.dependencies(x);
                let mut j: usize = 0;
                while j < row.len()
                    invariant
                        self.wf(),
                        x < n,
                        n == self.deps().len(),
                        row@ == self.deps()[x as int],
                        j <= row.len(),
                        forall|q: int| 0 <= q < j ==> #[trigger] self.deps()[x as int][q] != k,
                        self.states()[x as int] != Lifecycle::Stopped && self.states()[x as int] != Lifecycle::Failed,
                    decreases row.len() - j,
                {
                    if row[j] == k {
                        assert(self.deps()[x as int][j as int] == k);
                        assert(self.has_active_dependent(k));
                        return true;
                    }
                    j = j + 1;
                }
            }
            x = x + 1;
        }
        false
    }

    /// The next service that starting the whole project starts: the first in start order that
    /// may start now. A service whose dependency failed is never offered, while services on
    /// independent branches still are.
    pub fn next_to_start(&self) -> (r: Option<usize>)
        requires
            self.wf(),
        ensures
            match r {
                Some(k) => k < self.deps().len() && self.startable(k) && exists|p: int|
                    0 <= p < self.graph().order().len() && #[trigger] self.graph().order()[p] == k
                        && forall|q: int| 0 <= q < p ==> !self.startable(#[trigger] self.graph().order()[q]),
                None => forall|k: usize| k < self.deps().len() ==> !#[trigger] self.startable(k),
            },
    {
        let order = self.graph.start_order();
        let ghost o = self.graph().order();
        let mut p: usize = 0;
        while p < order.len()
            invariant
                self.wf(),
                order@ == o,
                o == self.graph().order(),
                p <= order.len(),
                forall|q: int| 0 <= q < p ==> !self.startable(#[trigger] o[q]),
            decreases order.len() - p,
        {
            let k = order[p];
            assert(k == o[p as int]);
            if self.states[k] == Lifecycle::Stopped && self.dependencies_running_exec(k) {
                return Some(k);
            }
            p = p + 1;
        }
        proof {
            assert forall|k: usize| k < self.deps().len() implies !#[trigger] self.startable(k) by {
                assert(o.contains(k));
                let q = choose|q: int| 0 <= q < o.len() && o[q] == k;
                assert(!self.startable(o[q]));
            }
        }
        None
    }

    /// The next service that stopping the whole project stops: the first in stop order that
    /// runs with nothing active depending on it.
    pub fn next_to_stop(&self) -> (r: Option<usize>)
        requires
            self.wf(),
        ensures
            match r {
                Some(k) => k < self.deps().len() && self.stoppable(k) && exists|p: int|
                    0 <= p < self.graph().order().len() && #[trigger] self.graph().order().reverse()[p] == k
                        && forall|q: int| 0 <= q < p ==> !self.stoppable(#[trigger] self.graph().order().reverse()[q]),
                None => forall|k: usize| k < self.deps().len() ==> !#[trigger] self.stoppable(k),
            },
    {
        let order = self.graph.stop_order();
        let ghost o = self.graph().order().reverse();
        let mut p: usize = 0;
        while p < order.len()
            invariant
                self.wf(),
                order@ == o,
                o == self.graph().order().reverse(),
                p <= order.len(),
                forall|q: int| 0 <= q < p ==> !self.stoppable(#[trigger] o[q]),
            decreases order.len() - p,
        {
            let k = order[p];
            assert(k == o[p as int]);
            if self.states[k] == Lifecycle::Running && !self.has_active_dependent_exec(k) {
                return Some(k);
            }
            p = p + 1;
        }
        proof {
            let so = self.graph().order();
            assert forall|k: usize| k < self.deps().len() implies !#[trigger] self.stoppable(k) by {
                assert(so.contains(k));
                let q = choose|q: int| 0 <= q < so.len() && so[q] == k;
                assert(o[so.len() - 1 - q] == k);
                assert(!self.stoppable(o[so.len() - 1 - q]));
            }
        }
        None
    }

    /// A point-in-time snapshot of every service: its lifecycle state and process id.
    pub fn list(&self) -> (r: Vec<(Lifecycle, Option<u32>)>)
        requires
            self.wf(),
        ensures
            r@.len() == self.deps().len(),
            forall|i: int| 0 <= i < r@.len() ==> #[trigger] r@[i] == (self.states()[i], self.pids()[i]),
    {
        let mut r: Vec<(Lifecycle, Option<u32>)> = Vec::new();
        let mut i: usize = 0;
        while i < self.states.len()
            invariant
                self.wf(),
                i <= self.states@.len(),
                r@.len() == i,
                forall|q: int| 0 <= q < i ==> #[trigger] r@[q] == (self.states()[q], self.pids()[q]),
            decreases self.states.len() - i,
        {
            r.push((self.states[i], self.pids[i]));
            i = i + 1;
        }
        r
    }

    /// Applies one command to the project.
    pub fn apply(&mut self, cmd: Command) -> (r: Result<Option<Event>, EngineError>)
        requires
            old(self).wf(),
        ensures
            final(self).wf(),
            command_outcome(*old(self), *final(self), cmd, r),
    {
        match cmd {
            Command::StartService(i) => match self.start_service(i) {
                Ok(()) => Ok(None),
                Err(e) => Err(e),
            },
            Command::SpawnSucceeded(i, pid) => match self.spawn_succeeded(i, pid) {
                Ok(e) => Ok(Some(e)),
                Err(e) => Err(e),
            },
            Command::SpawnFailed(i) => match self.spawn_failed(i) {
                Ok(e) => Ok(Some(e)),
                Err(e) => Err(e),
            },
            Command::ProcessExited(i) => match self.process_exited(i) {
                Ok(e) => Ok(Some(e)),
                Err(e) => Err(e),
            },
            Command::BeginStop(i) => {
                let res = self.begin_stop(i);
                proof {
                    if res.is_ok() {
                        assert(old(self).pids().update(i as int, old(self).pids()[i as int]) =~= old(self).pids());
                    }
                }
                match res {
                    Ok(()) => Ok(None),
                    Err(e) => Err(e),
                }
            },
            Command::FinishStop(i) => match self.finish_stop(i) {
                Ok(e) => Ok(Some(e)),
                Err(e) => Err(e),
            },
        }
    }

    /// Replaces the project's services; on a rejected set nothing changes.
    pub fn load_config(&mut self, deps: Vec<Vec<usize>>) -> (r: Result<(), EngineError>)
        requires
            old(self).wf(),
        ensures
            final(self).wf(),
            r.is_ok() <==> deps_in_range(deps_view(deps@)) && !has_cycle(deps_view(deps@)),
            r.is_ok() ==> {
                &&& final(self).deps() == deps_view(deps@)
                &&& forall|i: int| 0 <= i < final(self).states().len() ==> #[trigger] final(self).states()[i] == Lifecycle::Stopped
                &&& forall|i: int| 0 <= i < final(self).pids().len() ==> #[trigger] final(self).pids()[i].is_none()
            },
            r == Err::<(), EngineError>(EngineError::Config(GraphError::Cycle)) <==> deps_in_range(deps_view(deps@)) && has_cycle(deps_view(deps@)),
            r.is_err() ==> *final(self) == *old(self),
    {
        match DependencyGraph::build(deps) {
            Ok(g) => {
                let n = g.len();
                let mut states: Vec<Lifecycle> = Vec::new();
                let mut pids: Vec<Option<u32>> = Vec::new();
                let mut i: usize = 0;
                while i < n
                    invariant
                        i <= n,
                        states.len() == i,
                        pids.len() == i,
                        forall|x: int| 0 <= x < i ==> #[trigger] states@[x] == Lifecycle::Stopped,
                        forall|x: int| 0 <= x < i ==> #[trigger] pids@[x].is_none(),
                    decreases n - i,
                {
                    states.push(Lifecycle::Stopped);
                    pids.push(None);
                    i = i + 1;
                }
                self.graph = g;
                self.states = states;
                self.pids = pids;
                Ok(())
            },
            Err(e) => Err(EngineError::Config(e)),
        }
    }
}


/// Starting a service fails, leaving the project as it was, while one of its dependencies
/// is stopped; once every dependency runs, starting the stopped service succeeds.
pub proof fn start_waits_for_dependencies(
    p: Project,
    q: Project,
    i: usize,
    r: Result<Option<Event>, EngineError>,
)
    requires
        p.wf(),
        i < p.deps().len(),
        command_outcome(p, q, Command::StartService(i), r),
    ensures
        (exists|j: int| 0 <= j < p.deps()[i as int].len() && p.states()[#[trigger] p.deps()[i as int][j] as int] == Lifecycle::Stopped)
            ==> (r matches Err(EngineError::DependencyNotReady { .. })) && q == p,
        p.dependencies_running(i) && p.states()[i as int] == Lifecycle::Stopped ==> r == Ok::<Option<Event>, EngineError>(None)
            && q.states()[i as int] == Lifecycle::Starting,
{
    if exists|j: int| 0 <= j < p.deps()[i as int].len() && p.states()[#[trigger] p.deps()[i as int][j] as int] == Lifecycle::Stopped {
        let j = choose|j: int| 0 <= j < p.deps()[i as int].len() && p.states()[#[trigger] p.deps()[i as int][j] as int] == Lifecycle::Stopped;
        assert(!p.dependencies_running(i));
    }
}

} // verus!
