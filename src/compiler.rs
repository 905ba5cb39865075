use vstd::prelude::*;
use crate::errors::{BuildProjectError, Error};
use crate::project::{Config, ProjectConfig, ProjectName};
use crate::scheduler::{conclude, errs, manifest_of, oks, partition_outcomes, work_set, work_set_of, BuiltProject};
use crate::sources::{apply_all, snapshot, touched, FileChange};
use crate::state::{marked, CompilerState};

verus! {

broadcast use vstd::std_specs::hash::group_hash_axioms;

/// What the source subscription delivered.
pub enum WatchEvent {
    /// A batch of file changes.
    Changes { changes: Vec<FileChange> },
    /// The subscription ended.
    Closed,
    /// The subscription failed.
    Failed,
}

/// What the watch loop does next.
pub enum WatchAction {
    /// Build and commit these projects, then hand the outcomes to
    /// `build_projects`.
    Rebuild { projects: Vec<ProjectName> },
    /// Report "errors cleared", check these projects, then report what
    /// `check_projects` returns.
    Recheck { projects: Vec<ProjectName> },
    /// The batch changed nothing that feeds a project: nothing to do.
    Idle,
    /// The subscription ended: leave the loop.
    Stop,
}

/// The names of the registry's projects, in registry order.
pub open spec fn names(ps: Seq<ProjectConfig>) -> Seq<ProjectName> {
    ps.map_values(|p: ProjectConfig| p.name)
}

/// The compiler: a project registry and the decisions of each cycle.
pub struct Compiler {
    pub config: Config,
}

impl Compiler {
    pub fn new(config: Config) -> (r: Compiler)
        requires
            config.wf(),
        ensures
            r.config == config,
    {
        Compiler { config }
    }

    /// The projects whose schema is built up front: every project of the
    /// registry, in order, whether pending or not.
    pub fn build_schemas(&self) -> (r: Vec<ProjectName>)
        ensures
            r@ == names(self.config.projects@),
    {
        let mut r: Vec<ProjectName> = Vec::new();
        let mut i: usize = 0;
        while i < self.config.projects.len()
            invariant
                i <= self.config.projects@.len(),
                r@ == names(self.config.projects@.subrange(0, i as int)),
            decreases self.config.projects@.len() - i,
        {
            r.push(self.config.projects[i].name);
            i = i + 1;
            assert(r@ =~= names(self.config.projects@.subrange(0, i as int)));
        }
        assert(self.config.projects@.subrange(0, i as int) =~= self.config.projects@);
        r
    }

    /// The start of a one-shot compile: a fresh state holding the initial
    /// snapshot with every project pending, and the projects of the first
    /// build.
    pub fn compile(&self, initial: &Vec<FileChange>) -> (r: Result<
        (CompilerState, Vec<ProjectName>),
        Error,
    >)
        ensures
            match (r, work_set_of(self.config, names(self.config.projects@).to_set())) {
                (Ok((st, w)), Ok(s)) => {
                    &&& st.wf()
                    &&& snapshot(st.files@) == apply_all(Map::empty(), initial@)
                    &&& st.pending@ == names(self.config.projects@).to_set()
                    &&& st.artifacts@ == Map::<ProjectName, Vec<u64>>::empty()
                    &&& w@ == s
                },
                (Err(Error::UnknownProject { project }), Err(x)) => project == x,
                _ => false,
            },
    {
        let mut st = CompilerState::new();
        st.merge_file_source_changes(&self.config, initial);
        let all = self.build_schemas();
        let ghost m = marked(self.config.projects@, touched(Map::empty(), initial@));
        proof {
            assert forall|p: ProjectName| m.contains(p) implies names(
                self.config.projects@,
            ).contains(p) by {
                let i = choose|i: int|
                    0 <= i < self.config.projects@.len() && #[trigger] self.config.projects@[i].name
                        == p && crate::state::feeds(
                        self.config.projects@[i],
                        touched(Map::empty(), initial@),
                    );
                assert(names(self.config.projects@)[i] == p);
            }
        }
        let mut i: usize = 0;
        while i < all.len()
            invariant
                i <= all@.len(),
                all@ == names(self.config.projects@),
                st.wf(),
                snapshot(st.files@) == apply_all(Map::empty(), initial@),
                st.artifacts@ == Map::<ProjectName, Vec<u64>>::empty(),
                st.pending@ == m + all@.subrange(0, i as int).to_set(),
                forall|p: ProjectName| m.contains(p) ==> all@.contains(p),
            decreases all@.len() - i,
        {
            proof {
                crate::state::lemma_prefix_set(all@, i as int);
            }
            st.pending.insert(all[i]);
            i = i + 1;
        }
        proof {
            assert(all@.subrange(0, i as int) =~= all@);
            assert(st.pending@ =~= all@.to_set());
        }
        match work_set(&self.config, &st.pending) {
            Ok(w) => Ok((st, w)),
            Err(e) => Err(e),
        }
    }

    /// Whether every successful outcome names a project of the registry.
    pub open spec fn all_known(&self, commits: Seq<Result<BuiltProject, BuildProjectError>>) -> bool {
        forall|i: int|
            0 <= i < commits.len() && #[trigger] commits[i] is Ok ==> self.config.has_project(
                commits[i]->Ok_0.project,
            )
    }

    /// A project named by a successful outcome that the registry lacks.
    fn first_unknown(&self, commits: &Vec<Result<BuiltProject, BuildProjectError>>) -> (r: Option<
        ProjectName,
    >)
        ensures
            match r {
                Some(p) => !self.config.has_project(p) && exists|i: int|
                    0 <= i < commits@.len() && #[trigger] commits@[i] is Ok && commits@[i]->Ok_0.project
                        == p,
                None => self.all_known(commits@),
            },
    {
        let mut i: usize = 0;
        while i < commits.len()
            invariant
                i <= commits@.len(),
                forall|k: int|
                    0 <= k < i && #[trigger] commits@[k] is Ok ==> self.config.has_project(
                        commits@[k]->Ok_0.project,
                    ),
            decreases commits@.len() - i,
        {
            if let Ok(b) = &commits[i] {
                if self.config.project_index(b.project).is_none() {
                    assert(commits@[i as int] is Ok);
                    return Some(b.project);
                }
            }
            i = i + 1;
        }
        None
    }

    /// Whether every successful outcome names a project of `built`.
    pub open spec fn all_in_cycle(
        built: Seq<ProjectName>,
        commits: Seq<Result<BuiltProject, BuildProjectError>>,
    ) -> bool {
        forall|i: int|
            0 <= i < commits.len() && #[trigger] commits[i] is Ok ==> built.contains(
                commits[i]->Ok_0.project,
            )
    }

    /// A project named by a successful outcome that is not in `built`.
    fn first_outside(
        built: &Vec<ProjectName>,
        commits: &Vec<Result<BuiltProject, BuildProjectError>>,
    ) -> (r: Option<ProjectName>)
        ensures
            match r {
                Some(p) => !built@.contains(p) && exists|i: int|
                    0 <= i < commits@.len() && #[trigger] commits@[i] is Ok && commits@[i]->Ok_0.project
                        == p,
                None => Self::all_in_cycle(built@, commits@),
            },
    {
        let mut i: usize = 0;
        while i < commits.len()
            invariant
                i <= commits@.len(),
                forall|k: int|
                    0 <= k < i && #[trigger] commits@[k] is Ok ==> built@.contains(
                        commits@[k]->Ok_0.project,
                    ),
            decreases commits@.len() - i,
        {
            if let Ok(b) = &commits[i] {
                let mut found = false;
                let mut j: usize = 0;
                while j < built.len()
                    invariant
                        j <= built@.len(),
                        found ==> built@.contains(b.project),
                        !found ==> forall|k: int| 0 <= k < j ==> built@[k] != b.project,
                    decreases built@.len() - j,
                {
                    if built[j] == b.project {
                        assert(built@[j as int] == b.project);
                        found = true;
                    }
                    j = j + 1;
                }
                if !found {
                    assert(commits@[i as int] is Ok);
                    return Some(b.project);
                }
            }
            i = i + 1;
        }
        None
    }

    /// Ends a build cycle with its commit outcomes. The cycle's projects are
    /// its work set: the override alone, else every pending project; an
    /// override that the registry lacks is a contract violation. So is an
    /// outcome naming a project that the registry lacks, or one outside the
    /// work set. Otherwise, when every commit succeeded, the committed
    /// entries replace their manifest entries and those projects stop
    /// pending; else every failure is returned, in order. On any error the
    /// state is left as it was.
    pub fn build_projects(
        &self,
        state: &mut CompilerState,
        commits: Vec<Result<BuiltProject, BuildProjectError>>,
    ) -> (r: Result<(), Error>)
        ensures
            match work_set_of(self.config, old(state).pending@) {
                Err(x) => match r {
                    Err(Error::UnknownProject { project }) => project == x,
                    _ => false,
                },
                Ok(built) => {
                    &&& !self.all_known(commits@) ==> match r {
                        Err(Error::UnknownProject { project }) => !self.config.has_project(project),
                        _ => false,
                    }
                    &&& self.all_known(commits@) && !Self::all_in_cycle(built, commits@) ==> match r {
                        Err(Error::OutsideCycle { project }) => !built.contains(project),
                        _ => false,
                    }
                    &&& self.all_known(commits@) && Self::all_in_cycle(built, commits@) && errs(
                        commits@,
                    ).len() == 0 ==> {
                        &&& r is Ok
                        &&& final(state).files@ == old(state).files@
                        &&& final(state).pending@ == old(state).pending@ - built.to_set().intersect(
                            manifest_of(oks(commits@)).dom(),
                        )
                        &&& final(state).artifacts@ == old(state).artifacts@.union_prefer_right(
                            manifest_of(oks(commits@)).restrict(built.to_set()),
                        )
                    }
                    &&& self.all_known(commits@) && Self::all_in_cycle(built, commits@) && errs(
                        commits@,
                    ).len() > 0 ==> match r {
                        Err(Error::BuildProjectsErrors { errors }) => errors@ == errs(commits@),
                        _ => false,
                    }
                },
            },
            r is Err ==> {
                &&& final(state).files@ == old(state).files@
                &&& final(state).pending@ == old(state).pending@
                &&& final(state).artifacts@ == old(state).artifacts@
            },
    {
        let built = match work_set(&self.config, &state.pending) {
            Ok(w) => w,
            Err(e) => return Err(e),
        };
        if let Some(project) = self.first_unknown(&commits) {
            return Err(Error::UnknownProject { project });
        }
        if let Some(project) = Self::first_outside(&built, &commits) {
            return Err(Error::OutsideCycle { project });
        }
        match conclude(commits) {
            Ok(next) => {
                state.complete_compilation(&built, next);
                Ok(())
            },
            Err(e) => Err(e),
        }
    }

    /// Ends a check cycle with its check outcomes. The cycle's projects are
    /// its work set, as for a build; an override that the registry lacks is
    /// a contract violation and leaves the state as it was. Otherwise none
    /// of the work set is pending any more, and every failure is returned,
    /// in order.
    pub fn check_projects(
        &self,
        state: &mut CompilerState,
        results: Vec<Result<(), BuildProjectError>>,
    ) -> (r: Result<(), Error>)
        ensures
            final(state).files@ == old(state).files@,
            final(state).artifacts@ == old(state).artifacts@,
            match work_set_of(self.config, old(state).pending@) {
                Err(x) => {
                    &&& final(state).pending@ == old(state).pending@
                    &&& match r {
                        Err(Error::UnknownProject { project }) => project == x,
                        _ => false,
                    }
                },
                Ok(checked) => {
                    &&& final(state).pending@ == old(state).pending@ - checked.to_set()
                    &&& errs(results@).len() == 0 ==> r is Ok
                    &&& errs(results@).len() > 0 ==> match r {
                        Err(Error::BuildProjectsErrors { errors }) => errors@ == errs(results@),
                        _ => false,
                    }
                },
            },
    {
        let checked = match work_set(&self.config, &state.pending) {
            Ok(w) => w,
            Err(e) => return Err(e),
        };
        state.complete_check(&checked);
        let (_good, bad) = partition_outcomes(results);
        if bad.len() == 0 {
            Ok(())
        } else {
            Err(Error::BuildProjectsErrors { errors: bad })
        }
    }

    /// What a watch loop owes an event: its state after the event and the
    /// action, with `check` choosing check-only mode.
    pub open spec fn step_spec(
        &self,
        pre: CompilerState,
        post: CompilerState,
        event: WatchEvent,
        check: bool,
        r: Result<WatchAction, Error>,
    ) -> bool {
        match event {
            WatchEvent::Changes { changes } => {
                let t = touched(snapshot(pre.files@), changes@);
                let m = marked(self.config.projects@, t);
                &&& post.wf()
                &&& snapshot(post.files@) == apply_all(snapshot(pre.files@), changes@)
                &&& post.pending@ == pre.pending@ + m
                &&& post.artifacts@ == pre.artifacts@
                &&& if m.is_empty() {
                    r == Ok::<WatchAction, Error>(WatchAction::Idle)
                } else {
                    match (r, work_set_of(self.config, post.pending@)) {
                        (Ok(WatchAction::Rebuild { projects }), Ok(s)) => !check && projects@ == s,
                        (Ok(WatchAction::Recheck { projects }), Ok(s)) => check && projects@ == s,
                        (Err(Error::UnknownProject { project }), Err(x)) => project == x,
                        _ => false,
                    }
                }
            },
            WatchEvent::Closed => post == pre && r == Ok::<WatchAction, Error>(WatchAction::Stop),
            WatchEvent::Failed => post == pre && r == Err::<WatchAction, Error>(Error::Subscription),
        }
    }

    fn step(&self, state: &mut CompilerState, event: WatchEvent, check: bool) -> (r: Result<
        WatchAction,
        Error,
    >)
        requires
            old(state).wf(),
        ensures
            self.step_spec(*old(state), *final(state), event, check, r),
    {
        match event {
            WatchEvent::Changes { changes } => {
                let had_new_changes = state.merge_file_source_changes(&self.config, &changes);
                if !had_new_changes {
                    return Ok(WatchAction::Idle);
                }
                match work_set(&self.config, &state.pending) {
                    Ok(projects) => if check {
                        Ok(WatchAction::Recheck { projects })
                    } else {
                        Ok(WatchAction::Rebuild { projects })
                    },
                    Err(e) => Err(e),
                }
            },
            WatchEvent::Closed => Ok(WatchAction::Stop),
            WatchEvent::Failed => Err(Error::Subscription),
        }
    }

    /// One step of the build-mode watch loop: a batch is merged, and when it
    /// marked a project the pending projects (or the override) are rebuilt.
    pub fn watch(&self, state: &mut CompilerState, event: WatchEvent) -> (r: Result<
        WatchAction,
        Error,
    >)
        requires
            old(state).wf(),
        ensures
            self.step_spec(*old(state), *final(state), event, false, r),
    {
        self.step(state, event, false)
    }

    /// One step of the check-only watch loop; as `watch`, but a marked batch
    /// leads to a re-check rather than a rebuild.
    pub fn watch_with_callback(&self, state: &mut CompilerState, event: WatchEvent) -> (r: Result<
        WatchAction,
        Error,
    >)
        requires
            old(state).wf(),
        ensures
            self.step_spec(*old(state), *final(state), event, true, r),
    {
        self.step(state, event, true)
    }
}

} // verus!
