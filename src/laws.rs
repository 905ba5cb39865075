use vstd::prelude::*;
use crate::errors::BuildProjectError;
use crate::project::{Config, ProjectName, SourceSetName};
use crate::scheduler::{dirty_names, errs, manifest_of, work_set_of, BuiltProject};
use crate::project::ProjectConfig;
use crate::sources::{
    apply_all, change_key, differs, lemma_apply_all_elsewhere, lemma_written_key, touched, FileChange,
    FileKey,
};
use crate::compiler::{Compiler, WatchAction, WatchEvent};
use crate::errors::Error;
use crate::sources::snapshot;
use crate::state::{feeds, marked, CompilerState};

verus! {

proof fn lemma_touched_within(m: Map<FileKey, Seq<u8>>, cs: Seq<FileChange>, s: SourceSetName)
    requires
        forall|i: int| 0 <= i < cs.len() ==> (#[trigger] cs[i]).source_set == s,
    ensures
        forall|x: SourceSetName| touched(m, cs).contains(x) ==> x == s,
{
    assert forall|x: SourceSetName| touched(m, cs).contains(x) implies x == s by {
        let k = choose|k: FileKey| k.0 == x && differs(m, apply_all(m, cs), k);
        if forall|j: int| 0 <= j < cs.len() ==> change_key(#[trigger] cs[j]) != k {
            lemma_apply_all_elsewhere(m, cs, k);
        }
        let j = choose|j: int| 0 <= j < cs.len() && !(change_key(#[trigger] cs[j]) != k);
        assert(cs[j].source_set == s);
    }
}

/// A batch whose changes all lie in source-set `s` marks only projects that
/// consume `s`: every other project of the registry is left alone.
pub proof fn lemma_batch_marks_only_consumers(
    config: Config,
    m: Map<FileKey, Seq<u8>>,
    cs: Seq<FileChange>,
    s: SourceSetName,
)
    requires
        config.wf(),
        forall|i: int| 0 <= i < cs.len() ==> (#[trigger] cs[i]).source_set == s,
    ensures
        forall|i: int|
            0 <= i < config.projects@.len() && !(#[trigger] config.projects@[i]).consumes(s)
                ==> !marked(config.projects@, touched(m, cs)).contains(config.projects@[i].name),
{
    lemma_touched_within(m, cs, s);
    let t = touched(m, cs);
    assert forall|i: int|
        0 <= i < config.projects@.len() && !(#[trigger] config.projects@[i]).consumes(
            s,
        ) implies !marked(config.projects@, t).contains(config.projects@[i].name) by {
        if marked(config.projects@, t).contains(config.projects@[i].name) {
            let k = choose|k: int|
                0 <= k < config.projects@.len() && #[trigger] config.projects@[k].name
                    == config.projects@[i].name && feeds(config.projects@[k], t);
            if k < i {
                assert(config.projects@[k].name != config.projects@[i].name);
            } else if k > i {
                assert(config.projects@[i].name != config.projects@[k].name);
            }
        }
    }
}

/// Applying a batch a second time changes nothing: for each file the last
/// change that names it decides its state.
pub proof fn lemma_apply_all_idempotent(m: Map<FileKey, Seq<u8>>, cs: Seq<FileChange>)
    ensures
        apply_all(apply_all(m, cs), cs) == apply_all(m, cs),
        forall|k: FileKey| !differs(apply_all(m, cs), apply_all(apply_all(m, cs), cs), k),
{
    let m2 = apply_all(m, cs);
    assert forall|k: FileKey| !differs(m2, apply_all(m2, cs), k) by {
        if exists|j: int| 0 <= j < cs.len() && change_key(#[trigger] cs[j]) == k {
            let j = choose|j: int| 0 <= j < cs.len() && change_key(#[trigger] cs[j]) == k;
            lemma_written_key(m2, m, cs, j);
        } else {
            lemma_apply_all_elsewhere(m2, cs, k);
        }
    }
    assert forall|k: FileKey| #[trigger] apply_all(m2, cs).contains_key(k) <==> m2.contains_key(k)
        by {
        assert(!differs(m2, apply_all(m2, cs), k));
    }
    assert forall|k: FileKey| #[trigger] apply_all(m2, cs).contains_key(k) implies apply_all(
        m2,
        cs,
    )[k] == m2[k] by {
        assert(!differs(m2, apply_all(m2, cs), k));
    }
    assert(apply_all(m2, cs) =~= m2);
}

/// Delivering again a batch that was already merged touches no source-set,
/// so it marks no project.
pub proof fn lemma_redelivery_marks_nothing(
    config: Config,
    m: Map<FileKey, Seq<u8>>,
    cs: Seq<FileChange>,
)
    ensures
        touched(apply_all(m, cs), cs) == Set::<SourceSetName>::empty(),
        marked(config.projects@, touched(apply_all(m, cs), cs)).is_empty(),
{
    lemma_apply_all_idempotent(m, cs);
    assert(touched(apply_all(m, cs), cs) =~= Set::<SourceSetName>::empty());
    let e = marked(config.projects@, Set::<SourceSetName>::empty());
    assert(e =~= Set::<ProjectName>::empty());
}

/// A watch step on a batch that the snapshot already holds rebuilds and
/// re-checks nothing, marks no project and leaves the snapshot as it was.
pub proof fn lemma_redelivery_is_idle(
    compiler: Compiler,
    m: Map<FileKey, Seq<u8>>,
    changes: Vec<FileChange>,
    pre: CompilerState,
    post: CompilerState,
    check: bool,
    r: Result<WatchAction, Error>,
)
    requires
        snapshot(pre.files@) == apply_all(m, changes@),
        compiler.step_spec(pre, post, WatchEvent::Changes { changes }, check, r),
    ensures
        r == Ok::<WatchAction, Error>(WatchAction::Idle),
        post.pending@ == pre.pending@,
        snapshot(post.files@) == snapshot(pre.files@),
{
    lemma_redelivery_marks_nothing(compiler.config, m, changes@);
    lemma_apply_all_idempotent(m, changes@);
    let t = touched(snapshot(pre.files@), changes@);
    assert(marked(compiler.config.projects@, t).is_empty());
    assert(pre.pending@ + marked(compiler.config.projects@, t) =~= pre.pending@);
}

/// Every failure among a cycle's per-project outcomes is reported, and it
/// makes the cycle fail as a whole.
pub proof fn lemma_failure_is_reported<T>(outcomes: Seq<Result<T, BuildProjectError>>, i: int)
    requires
        0 <= i < outcomes.len(),
        outcomes[i] is Err,
    ensures
        errs(outcomes).len() > 0,
        errs(outcomes).contains(outcomes[i]->Err_0),
    decreases outcomes.len(),
{
    let n = outcomes.len() - 1;
    if i == n {
        assert(errs(outcomes).last() == outcomes[i]->Err_0);
    } else {
        lemma_failure_is_reported(outcomes.drop_last(), i);
        assert(outcomes.drop_last()[i] == outcomes[i]);
        let e = outcomes[i]->Err_0;
        let k = choose|k: int| 0 <= k < errs(outcomes.drop_last()).len() && errs(outcomes.drop_last())[k] == e;
        assert(errs(outcomes)[k] == e);
    }
}

/// No two entries of a commit list name the same project.
pub open spec fn distinct_projects(s: Seq<BuiltProject>) -> bool {
    forall|i: int, j: int|
        0 <= i < j < s.len() ==> (#[trigger] s[i]).project != (#[trigger] s[j]).project
}

proof fn lemma_manifest_entries(s: Seq<BuiltProject>)
    requires
        distinct_projects(s),
    ensures
        forall|k: ProjectName|
            #[trigger] manifest_of(s).contains_key(k) <==> exists|i: int|
                0 <= i < s.len() && (#[trigger] s[i]).project == k,
        forall|i: int|
            0 <= i < s.len() ==> manifest_of(s)[(#[trigger] s[i]).project] == s[i].artifacts,
    decreases s.len(),
{
    if s.len() > 0 {
        let init = s.drop_last();
        assert forall|i: int, j: int| 0 <= i < j < init.len() implies (#[trigger] init[i]).project
            != (#[trigger] init[j]).project by {
            assert(init[i] == s[i] && init[j] == s[j]);
        }
        lemma_manifest_entries(init);
        let n = s.len() - 1;
        assert forall|k: ProjectName| #[trigger] manifest_of(s).contains_key(k) <==> exists|i: int|
            0 <= i < s.len() && (#[trigger] s[i]).project == k by {
            if manifest_of(s).contains_key(k) && k != s[n].project {
                assert(manifest_of(init).contains_key(k));
                let i = choose|i: int| 0 <= i < init.len() && (#[trigger] init[i]).project == k;
                assert(s[i] == init[i]);
            }
            if exists|i: int| 0 <= i < s.len() && (#[trigger] s[i]).project == k {
                let i = choose|i: int| 0 <= i < s.len() && (#[trigger] s[i]).project == k;
                if i < n {
                    assert(init[i] == s[i]);
                }
            }
        }
        assert forall|i: int| 0 <= i < s.len() implies manifest_of(s)[(#[trigger] s[i]).project]
            == s[i].artifacts by {
            if i < n {
                assert(init[i] == s[i]);
            }
        }
    }
}

/// The manifest made by a list of commits, no two of one project, depends
/// on which entries the list holds and not on their order.
pub proof fn lemma_manifest_order_independent(a: Seq<BuiltProject>, b: Seq<BuiltProject>)
    requires
        distinct_projects(a),
        distinct_projects(b),
        a.to_set() == b.to_set(),
    ensures
        manifest_of(a) == manifest_of(b),
{
    lemma_manifest_entries(a);
    lemma_manifest_entries(b);
    assert forall|k: ProjectName| #[trigger] manifest_of(a).contains_key(k) implies manifest_of(
        b,
    ).contains_key(k) && manifest_of(a)[k] == manifest_of(b)[k] by {
        let i = choose|i: int| 0 <= i < a.len() && (#[trigger] a[i]).project == k;
        assert(a.to_set().contains(a[i]));
        assert(b.to_set().contains(a[i]));
        let j = choose|j: int| 0 <= j < b.len() && b[j] == a[i];
        assert(b[j].project == k);
    }
    assert forall|k: ProjectName| #[trigger] manifest_of(b).contains_key(k) implies manifest_of(
        a,
    ).contains_key(k) by {
        let j = choose|j: int| 0 <= j < b.len() && (#[trigger] b[j]).project == k;
        assert(b.to_set().contains(b[j]));
        assert(a.to_set().contains(b[j]));
        let i = choose|i: int| 0 <= i < a.len() && a[i] == b[j];
        assert(a[i].project == k);
    }
    assert(manifest_of(a) =~= manifest_of(b));
}

/// With an override set, a cycle works on the overriding project alone, or
/// fails on an unknown name, whatever else is pending.
pub proof fn lemma_override_ignores_pending(
    config: Config,
    x: ProjectName,
    pending_a: Set<ProjectName>,
    pending_b: Set<ProjectName>,
)
    requires
        config.only_project == Some(x),
    ensures
        work_set_of(config, pending_a) == work_set_of(config, pending_b),
        config.has_project(x) ==> work_set_of(config, pending_a) == Ok::<Seq<ProjectName>, ProjectName>(
            seq![x],
        ),
        !config.has_project(x) ==> work_set_of(config, pending_a) == Err::<Seq<ProjectName>, ProjectName>(
            x,
        ),
{
}

proof fn lemma_dirty_names_pending(ps: Seq<ProjectConfig>, pending: Set<ProjectName>)
    ensures
        forall|j: int|
            0 <= j < dirty_names(ps, pending).len() ==> pending.contains(
                #[trigger] dirty_names(ps, pending)[j],
            ),
    decreases ps.len(),
{
    if ps.len() > 0 {
        let rest = dirty_names(ps.drop_last(), pending);
        lemma_dirty_names_pending(ps.drop_last(), pending);
        let d = dirty_names(ps, pending);
        assert forall|j: int| 0 <= j < d.len() implies pending.contains(#[trigger] d[j]) by {
            if j < rest.len() {
                assert(d[j] == rest[j]);
            }
        }
    }
}

/// With an override set, every rebuild or re-check that a watch step asks
/// for is of the overriding project alone, whatever else is pending; an
/// override that the registry lacks asks for none.
pub proof fn lemma_override_steps(
    compiler: Compiler,
    x: ProjectName,
    pre: CompilerState,
    post: CompilerState,
    event: WatchEvent,
    check: bool,
    r: Result<WatchAction, Error>,
)
    requires
        compiler.config.only_project == Some(x),
        compiler.step_spec(pre, post, event, check, r),
    ensures
        r matches Ok(WatchAction::Rebuild { projects }) ==> projects@ == seq![x],
        r matches Ok(WatchAction::Recheck { projects }) ==> projects@ == seq![x],
        !compiler.config.has_project(x) ==> !(r matches Ok(WatchAction::Rebuild { .. }))
            && !(r matches Ok(WatchAction::Recheck { .. })),
{
}

/// A watch step on a batch whose changes all lie in source-set `s`, from a
/// state with nothing pending and no override, leaves pending exactly the
/// projects that the batch marked, each of which consumes `s`; a rebuild or
/// re-check it asks for lists only projects that consume `s`.
pub proof fn lemma_single_set_step(
    compiler: Compiler,
    s: SourceSetName,
    changes: Vec<FileChange>,
    pre: CompilerState,
    post: CompilerState,
    check: bool,
    r: Result<WatchAction, Error>,
)
    requires
        compiler.config.only_project.is_none(),
        pre.pending@ == Set::<ProjectName>::empty(),
        forall|i: int| 0 <= i < changes@.len() ==> (#[trigger] changes@[i]).source_set == s,
        compiler.step_spec(pre, post, WatchEvent::Changes { changes }, check, r),
    ensures
        post.pending@ == marked(compiler.config.projects@, touched(snapshot(pre.files@), changes@)),
        forall|n: ProjectName|
            #[trigger] post.pending@.contains(n) ==> exists|i: int|
                0 <= i < compiler.config.projects@.len() && compiler.config.projects@[i].name == n
                    && (#[trigger] compiler.config.projects@[i]).consumes(s),
        post.artifacts@ == pre.artifacts@,
        r matches Ok(WatchAction::Rebuild { projects }) ==> forall|j: int|
            0 <= j < projects@.len() ==> post.pending@.contains(#[trigger] projects@[j]),
        r matches Ok(WatchAction::Recheck { projects }) ==> forall|j: int|
            0 <= j < projects@.len() ==> post.pending@.contains(#[trigger] projects@[j]),
{
    let ps = compiler.config.projects@;
    let t = touched(snapshot(pre.files@), changes@);
    lemma_touched_within(snapshot(pre.files@), changes@, s);
    assert(post.pending@ =~= marked(ps, t));
    assert forall|n: ProjectName| #[trigger] post.pending@.contains(n) implies exists|i: int|
        0 <= i < ps.len() && ps[i].name == n && (#[trigger] ps[i]).consumes(s) by {
        let i = choose|i: int| 0 <= i < ps.len() && #[trigger] ps[i].name == n && feeds(ps[i], t);
        let s2 = choose|s2: SourceSetName| t.contains(s2) && ps[i].consumes(s2);
        assert(s2 == s);
    }
    lemma_dirty_names_pending(ps, post.pending@);
}

proof fn lemma_dirty_names_complete(ps: Seq<ProjectConfig>, pending: Set<ProjectName>, i: int)
    requires
        0 <= i < ps.len(),
        pending.contains(ps[i].name),
    ensures
        dirty_names(ps, pending).contains(ps[i].name),
    decreases ps.len(),
{
    let n = ps.len() - 1;
    let rest = dirty_names(ps.drop_last(), pending);
    if i < n {
        assert(ps.drop_last()[i] == ps[i]);
        lemma_dirty_names_complete(ps.drop_last(), pending, i);
        let k = choose|k: int| 0 <= k < rest.len() && rest[k] == ps[i].name;
        assert(dirty_names(ps, pending)[k] == ps[i].name);
    } else {
        assert(dirty_names(ps, pending).last() == ps[i].name);
    }
}

/// Without an override, a cycle works on exactly the registry's pending
/// projects: each project it lists is pending, and each pending project of
/// the registry is listed.
pub proof fn lemma_work_set_is_pending(config: Config, pending: Set<ProjectName>)
    requires
        config.only_project.is_none(),
    ensures
        work_set_of(config, pending) is Ok,
        forall|j: int|
            0 <= j < work_set_of(config, pending)->Ok_0.len() ==> pending.contains(
                #[trigger] work_set_of(config, pending)->Ok_0[j],
            ),
        forall|i: int|
            0 <= i < config.projects@.len() && pending.contains(
                #[trigger] config.projects@[i].name,
            ) ==> work_set_of(config, pending)->Ok_0.contains(config.projects@[i].name),
{
    lemma_dirty_names_pending(config.projects@, pending);
    assert forall|i: int|
        0 <= i < config.projects@.len() && pending.contains(
            #[trigger] config.projects@[i].name,
        ) implies work_set_of(config, pending)->Ok_0.contains(config.projects@[i].name) by {
        lemma_dirty_names_complete(config.projects@, pending, i);
    }
}

proof fn lemma_errs_count<T>(s: Seq<Result<T, BuildProjectError>>, e: BuildProjectError)
    ensures
        errs(s).to_multiset().count(e) == s.to_multiset().count(Err::<T, BuildProjectError>(e)),
    decreases s.len(),
{
    broadcast use vstd::seq_lib::group_to_multiset_ensures;
    broadcast use vstd::multiset::group_multiset_axioms;

    if s.len() == 0 {
        assert(errs(s) =~= Seq::<BuildProjectError>::empty());
    } else {
        let init = s.drop_last();
        lemma_errs_count(init, e);
        assert(s =~= init.push(s.last()));
        assert(s.to_multiset() =~= init.to_multiset().insert(s.last()));
        match s.last() {
            Ok(_) => {},
            Err(e2) => {
                assert(errs(s).to_multiset() =~= errs(init).to_multiset().insert(e2));
            },
        }
    }
}

/// The failures of a cycle, taken as a multiset, do not depend on the order
/// in which the per-project outcomes came in.
pub proof fn lemma_errors_order_independent<T>(
    a: Seq<Result<T, BuildProjectError>>,
    b: Seq<Result<T, BuildProjectError>>,
)
    requires
        a.to_multiset() == b.to_multiset(),
    ensures
        errs(a).to_multiset() == errs(b).to_multiset(),
        errs(a).len() == errs(b).len(),
{
    broadcast use vstd::seq_lib::group_to_multiset_ensures;

    assert forall|e: BuildProjectError| #[trigger] errs(a).to_multiset().count(e) == errs(
        b,
    ).to_multiset().count(e) by {
        lemma_errs_count(a, e);
        lemma_errs_count(b, e);
    }
    assert(errs(a).to_multiset() =~= errs(b).to_multiset());
    assert(errs(a).len() == errs(a).to_multiset().len());
    assert(errs(b).len() == errs(b).to_multiset().len());
}

} // verus!
