use vstd::prelude::*;

use crate::engine::{command_outcome, Command, EngineError, Event, Lifecycle, Project};
use crate::graph::{deps_in_range, deps_view, has_cycle};

verus! {

/// The texts of a sequence of strings.
pub open spec fn keys_view(v: Seq<String>) -> Seq<Seq<char>> {
    v.map_values(|s: String| s@)
}

/// The loaded projects, each under the path of its configuration file. It is the only
/// writer of project state: every change goes through one of its methods, one at a time.
pub struct Supervisor {
    ids: Vec<String>,
    projects: Vec<Project>,
}

impl Supervisor {
    /// The ids of the loaded projects.
    pub closed spec fn ids(&self) -> Seq<Seq<char>> {
        keys_view(self.ids@)
    }

    /// A project is loaded under `id`.
    pub open spec fn has_project(&self, id: Seq<char>) -> bool {
        self.ids().contains(id)
    }

    /// The project loaded under `id`.
    pub closed spec fn project(&self, id: Seq<char>) -> Project {
        let i = choose|i: int| 0 <= i < self.ids().len() && self.ids()[i] == id;
        self.projects@[i]
    }

    /// One project per id, no id twice, and every project sound.
    pub closed spec fn wf(&self) -> bool {
        &&& self.ids@.len() == self.projects@.len()
        &&& self.ids().no_duplicates()
        &&& forall|i: int| 0 <= i < self.projects@.len() ==> (#[trigger] self.projects@[i]).wf()
    }

    /// No project loaded.
    pub fn new() -> (r: Supervisor)
        ensures
            r.wf(),
            forall|id: Seq<char>| !r.has_project(id),
    {
        let r = Supervisor { ids: Vec::new(), projects: Vec::new() };
        assert(r.ids() =~= Seq::<Seq<char>>::empty());
        r
    }

    fn find(&self, id: &String) -> (r: Option<usize>)
        requires
            self.wf(),
        ensures
            match r {
                Some(i) => i < self.ids().len() && self.ids()[i as int] == id@ && self.project(id@)
                    == self.projects@[i as int] && self.has_project(id@),
                None => !self.has_project(id@),
            },
    {
        let mut i: usize = 0;
        while i < self.ids.len()
            invariant
                self.wf(),
                i <= self.ids@.len(),
                forall|j: int| 0 <= j < i ==> self.ids()[j] != id@,
            decreases self.ids.len() - i,
        {
            if self.ids[i] == *id {
                proof {
                    assert(self.ids()[i as int] == id@);
                    let c = choose|c: int| 0 <= c < self.ids().len() && self.ids()[c] == id@;
                    assert(c == i);
                }
                return Some(i);
            }
            i = i + 1;
        }
        None
    }

    /// Loads or reloads the project `id`. A rejected service set leaves every project as it was.
    pub fn load_config(&mut self, id: &String, deps: Vec<Vec<usize>>) -> (r: Result<(), EngineError>)
        requires
            old(self).wf(),
        ensures
            final(self).wf(),
            r.is_ok() <==> deps_in_range(deps_view(deps@)) && !has_cycle(deps_view(deps@)),
            r.is_err() ==> *final(self) == *old(self),
            r.is_ok() ==> {
                &&& final(self).has_project(id@)
                &&& final(self).project(id@).deps() == deps_view(deps@)
                &&& forall|i: int| 0 <= i < final(self).project(id@).states().len() ==> #[trigger] final(self).project(id@).states()[i] == Lifecycle::Stopped
                &&& forall|i: int| 0 <= i < final(self).project(id@).pids().len() ==> #[trigger] final(self).project(id@).pids()[i].is_none()
            },
            forall|other: Seq<char>| other != id@ ==> #[trigger] final(self).has_project(other) == old(self).has_project(other),
            forall|other: Seq<char>| other != id@ && old(self).has_project(other) ==> #[trigger] final(self).project(other) == old(self).project(other),
    {
        let mut fresh = Project::new();
        match fresh.load_config(deps) {
            Ok(()) => {},
            Err(e) => {
                return Err(e);
            },
        }
        let ghost old_self = *self;
        match self.find(id) {
            Some(i) => {
                self.projects.set(i, fresh);
                proof {
                    assert(self.ids() == old_self.ids());
                    assert forall|other: Seq<char>| other != id@ && old_self.has_project(other) implies #[trigger] self.project(other) == old_self.project(other) by {
                        let c = choose|c: int| 0 <= c < self.ids().len() && self.ids()[c] == other;
                        assert(c != i);
                    }
                    let c = choose|c: int| 0 <= c < self.ids().len() && self.ids()[c] == id@;
                    assert(c == i);
                }
            },
            None => {
                self.ids.push(id.clone());
                self.projects.push(fresh);
                proof {
                    let n = old_self.ids().len() as int;
                    assert(self.ids() =~= old_self.ids().push(id@));
                    assert(self.ids()[n] == id@);
                    assert(self.has_project(id@));
                    let c = choose|c: int| 0 <= c < self.ids().len() && self.ids()[c] == id@;
                    assert(c == n);
                    assert forall|other: Seq<char>| other != id@ implies #[trigger] self.has_project(other) == old_self.has_project(other) by {
                        if self.has_project(other) {
                            let j = choose|j: int| 0 <= j < self.ids().len() && self.ids()[j] == other;
                            assert(old_self.ids()[j] == other);
                        }
                        if old_self.has_project(other) {
                            let j = choose|j: int| 0 <= j < old_self.ids().len() && old_self.ids()[j] == other;
                            assert(self.ids()[j] == other);
                        }
                    }
                    assert forall|other: Seq<char>| other != id@ && old_self.has_project(other) implies #[trigger] self.project(other) == old_self.project(other) by {
                        let j = choose|j: int| 0 <= j < old_self.ids().len() && old_self.ids()[j] == other;
                        assert(self.ids()[j] == other);
                        let c = choose|c: int| 0 <= c < self.ids().len() && self.ids()[c] == other;
                        assert(c == j);
                    }
                }
            },
        }
        Ok(())
    }

    /// Applies a command to the project `id`; other projects are untouched.
    pub fn apply(&mut self, id: &String, cmd: Command) -> (r: Result<Option<Event>, EngineError>)
        requires
            old(self).wf(),
        ensures
            final(self).wf(),
            !old(self).has_project(id@) ==> r == Err::<Option<Event>, EngineError>(EngineError::NotFound)
                && *final(self) == *old(self),
            old(self).has_project(id@) ==> final(self).has_project(id@) && command_outcome(
                old(self).project(id@),
                final(self).project(id@),
                cmd,
                r,
            ),
            forall|other: Seq<char>| #[trigger] final(self).has_project(other) == old(self).has_project(other),
            forall|other: Seq<char>| other != id@ && old(self).has_project(other) ==> #[trigger] final(self).project(other) == old(self).project(other),
    {
        match self.find(id) {
            None => Err(EngineError::NotFound),
            Some(i) => {
                let ghost old_self = *self;
                let mut p = Project::new();
                self.projects.set_and_swap(i, &mut p);
                let r = p.apply(cmd);
                self.projects.set_and_swap(i, &mut p);
                proof {
                    assert(self.ids() == old_self.ids());
                    assert(self.projects@ =~= old_self.projects@.update(i as int, self.projects@[i as int]));
                    assert forall|other: Seq<char>| other != id@ && old_self.has_project(other) implies #[trigger] self.project(other) == old_self.project(other) by {
                        let c = choose|c: int| 0 <= c < self.ids().len() && self.ids()[c] == other;
                        assert(c != i);
                    }
                    let c = choose|c: int| 0 <= c < self.ids().len() && self.ids()[c] == id@;
                    assert(c == i);
                }
                r
            },
        }
    }

    /// A snapshot of the services of project `id`.
    pub fn list(&self, id: &String) -> (r: Result<Vec<(Lifecycle, Option<u32>)>, EngineError>)
        requires
            self.wf(),
        ensures
            r.is_err() <==> !self.has_project(id@),
            r.is_err() ==> r == Err::<Vec<(Lifecycle, Option<u32>)>, EngineError>(EngineError::NotFound),
            r matches Ok(v) ==> v@.len() == self.project(id@).deps().len() && forall|i: int|
                0 <= i < v@.len() ==> #[trigger] v@[i] == (self.project(id@).states()[i], self.project(id@).pids()[i]),
    {
        match self.find(id) {
            Some(i) => Ok(self.projects[i].list()),
            None => Err(EngineError::NotFound),
        }
    }

    /// Read access to the project `id`, for its plans and queries.
    pub fn get(&self, id: &String) -> (r: Option<&Project>)
        requires
            self.wf(),
        ensures
            r.is_none() <==> !self.has_project(id@),
            r matches Some(p) ==> *p == self.project(id@) && p.wf(),
    {
        match self.find(id) {
            Some(i) => Some(&self.projects[i]),
            None => None,
        }
    }
}

} // verus!
