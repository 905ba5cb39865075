use vstd::prelude::*;
use std::collections::{HashMap, HashSet};
use crate::errors::{BuildProjectError, Error};
use crate::project::{Config, ProjectConfig, ProjectName};
use crate::state::ArtifactMap;

verus! {

broadcast use vstd::std_specs::hash::group_hash_axioms;

/// What the analysis of one project produced: its name and the ids of the
/// artifacts generated for it.
pub struct BuiltProject {
    pub project: ProjectName,
    pub artifacts: Vec<u64>,
}

/// The registry's projects that are pending, in registry order.
pub open spec fn dirty_names(ps: Seq<ProjectConfig>, pending: Set<ProjectName>) -> Seq<ProjectName>
    decreases ps.len(),
{
    if ps.len() == 0 {
        Seq::empty()
    } else {
        let rest = dirty_names(ps.drop_last(), pending);
        if pending.contains(ps.last().name) {
            rest.push(ps.last().name)
        } else {
            rest
        }
    }
}

/// The projects a cycle works on: the override alone when one is set, else
/// every pending project in registry order.
pub open spec fn work_set_of(config: Config, pending: Set<ProjectName>) -> Result<
    Seq<ProjectName>,
    ProjectName,
> {
    match config.only_project {
        Some(x) => if config.has_project(x) {
            Ok(seq![x])
        } else {
            Err(x)
        },
        None => Ok(dirty_names(config.projects@, pending)),
    }
}

/// Decides which projects a cycle works on. An override naming a project
/// that the registry lacks is a contract violation.
pub fn work_set(config: &Config, pending: &HashSet<ProjectName>) -> (r: Result<
    Vec<ProjectName>,
    Error,
>)
    ensures
        match (r, work_set_of(*config, pending@)) {
            (Ok(w), Ok(s)) => w@ == s,
            (Err(Error::UnknownProject { project }), Err(x)) => project == x,
            _ => false,
        },
{
    match config.only_project {
        Some(x) => {
            match config.project_index(x) {
                Some(_) => {
                    let mut w: Vec<ProjectName> = Vec::new();
                    w.push(x);
                    assert(w@ =~= seq![x]);
                    Ok(w)
                },
                None => Err(Error::UnknownProject { project: x }),
            }
        },
        None => {
            let mut w: Vec<ProjectName> = Vec::new();
            let mut i: usize = 0;
            while i < config.projects.len()
                invariant
                    i <= config.projects@.len(),
                    w@ == dirty_names(config.projects@.subrange(0, i as int), pending@),
                decreases config.projects@.len() - i,
            {
                let ghost next = config.projects@.subrange(0, i as int + 1);
                assert(next.drop_last() =~= config.projects@.subrange(0, i as int));
                if pending.contains(&config.projects[i].name) {
                    w.push(config.projects[i].name);
                }
                i = i + 1;
            }
            assert(config.projects@.subrange(0, config.projects@.len() as int) =~= config.projects@);
            Ok(w)
        },
    }
}

/// The successes of a sequence of outcomes, in order.
pub open spec fn oks<T>(s: Seq<Result<T, BuildProjectError>>) -> Seq<T>
    decreases s.len(),
{
    if s.len() == 0 {
        Seq::empty()
    } else {
        match s.last() {
            Ok(t) => oks(s.drop_last()).push(t),
            Err(_) => oks(s.drop_last()),
        }
    }
}

/// The failures of a sequence of outcomes, in order.
pub open spec fn errs<T>(s: Seq<Result<T, BuildProjectError>>) -> Seq<BuildProjectError>
    decreases s.len(),
{
    if s.len() == 0 {
        Seq::empty()
    } else {
        match s.last() {
            Ok(_) => errs(s.drop_last()),
            Err(e) => errs(s.drop_last()).push(e),
        }
    }
}

/// Splits per-project outcomes into successes and failures, each in the
/// order given; no outcome is dropped.
pub fn partition_outcomes<T>(outcomes: Vec<Result<T, BuildProjectError>>) -> (r: (
    Vec<T>,
    Vec<BuildProjectError>,
))
    ensures
        r.0@ == oks(outcomes@),
        r.1@ == errs(outcomes@),
{
    let mut rest = outcomes;
    let mut good: Vec<T> = Vec::new();
    let mut bad: Vec<BuildProjectError> = Vec::new();
    let ghost n = outcomes@.len();
    while rest.len() > 0
        invariant
            rest@ == outcomes@.subrange(0, rest@.len() as int),
            rest@.len() <= n,
            n == outcomes@.len(),
            oks(outcomes@) == oks(rest@) + good@,
            errs(outcomes@) == errs(rest@) + bad@,
        decreases rest@.len(),
    {
        let ghost before = rest@;
        let o = rest.pop().unwrap();
        assert(rest@ =~= before.drop_last());
        assert(rest@ =~= outcomes@.subrange(0, rest@.len() as int));
        match o {
            Ok(t) => {
                let ghost g = good@;
                good.insert(0, t);
                assert(oks(before) + g =~= oks(rest@) + good@);
            },
            Err(e) => {
                let ghost b = bad@;
                bad.insert(0, e);
                assert(errs(before) + b =~= errs(rest@) + bad@);
            },
        }
    }
    assert(oks(rest@) =~= Seq::<T>::empty());
    assert(errs(rest@) =~= Seq::<BuildProjectError>::empty());
    assert(good@ =~= oks(outcomes@));
    assert(bad@ =~= errs(outcomes@));
    (good, bad)
}

/// Ends the analysis phase: every success goes on to commit when no
/// project failed; otherwise nothing is committed and all failures are
/// reported, in the order given.
pub fn plan_commits(outcomes: Vec<Result<BuiltProject, BuildProjectError>>) -> (r: Result<
    Vec<BuiltProject>,
    Error,
>)
    ensures
        match r {
            Ok(jobs) => errs(outcomes@).len() == 0 && jobs@ == oks(outcomes@),
            Err(Error::BuildProjectsErrors { errors }) => errs(outcomes@).len() > 0 && errors@
                == errs(outcomes@),
            _ => false,
        },
{
    let (good, bad) = partition_outcomes(outcomes);
    if bad.len() == 0 {
        Ok(good)
    } else {
        Err(Error::BuildProjectsErrors { errors: bad })
    }
}

/// The manifest that a set of committed projects makes.
pub open spec fn manifest_of(s: Seq<BuiltProject>) -> Map<ProjectName, Vec<u64>>
    decreases s.len(),
{
    if s.len() == 0 {
        Map::empty()
    } else {
        manifest_of(s.drop_last()).insert(s.last().project, s.last().artifacts)
    }
}

/// Ends the commit phase: the new manifest when every commit
/// succeeded, else all commit failures in the order given.
pub fn conclude(commits: Vec<Result<BuiltProject, BuildProjectError>>) -> (r: Result<
    ArtifactMap,
    Error,
>)
    ensures
        match r {
            Ok(m) => errs(commits@).len() == 0 && m@ == manifest_of(oks(commits@)),
            Err(Error::BuildProjectsErrors { errors }) => errs(commits@).len() > 0 && errors@
                == errs(commits@),
            _ => false,
        },
{
    let (good, bad) = partition_outcomes(commits);
    if bad.len() > 0 {
        return Err(Error::BuildProjectsErrors { errors: bad });
    }
    let ghost all = good@;
    let mut rest = good;
    let mut m: ArtifactMap = HashMap::new();
    let ghost mut done: Seq<BuiltProject> = Seq::empty();
    while rest.len() > 0
        invariant
            all == done + rest@,
            m@ == manifest_of(done),
        decreases rest@.len(),
    {
        let b = rest.remove(0);
        let ghost d = done;
        proof {
            done = done.push(b);
        }
        m.insert(b.project, b.artifacts);
        assert(done.drop_last() =~= d);
        assert(all =~= done + rest@);
    }
    assert(done =~= all);
    Ok(m)
}

} // verus!
