use vstd::prelude::*;
use std::collections::{HashMap, HashSet};
use crate::project::{Config, ProjectConfig, ProjectName, SourceSetName};
use crate::sources::{
    apply_all, apply_change, change_key, copy_files, differs, file_differs, lemma_apply_all_elsewhere,
    snapshot, touched, unique_keys, FileChange, FileKey, SourceFile,
};

verus! {

broadcast use vstd::std_specs::hash::group_hash_axioms;

/// Artifact ids generated for each project at its last successful commit.
pub type ArtifactMap = HashMap<ProjectName, Vec<u64>>;

/// The process-lifetime record of the compiler.
pub struct CompilerState {
    /// The source snapshot, one record per file.
    pub files: Vec<SourceFile>,
    /// Projects with changes not yet built or checked successfully.
    pub pending: HashSet<ProjectName>,
    /// The artifact manifest of the last successful commits.
    pub artifacts: ArtifactMap,
}

/// Whether a project consumes one of the source-sets in `t`.
pub open spec fn feeds(p: ProjectConfig, t: Set<SourceSetName>) -> bool {
    exists|s: SourceSetName| t.contains(s) && p.consumes(s)
}

/// The projects of the registry fed by one of the source-sets in `t`.
pub open spec fn marked(projects: Seq<ProjectConfig>, t: Set<SourceSetName>) -> Set<ProjectName> {
    Set::new(
        |p: ProjectName|
            exists|i: int| 0 <= i < projects.len() && #[trigger] projects[i].name == p && feeds(
                projects[i],
                t,
            ),
    )
}

impl CompilerState {
    pub open spec fn wf(&self) -> bool {
        unique_keys(self.files@)
    }

    /// An empty state: no files, nothing pending, an empty manifest.
    pub fn new() -> (r: CompilerState)
        ensures
            r.wf(),
            snapshot(r.files@) == Map::<(u64, u64), Seq<u8>>::empty(),
            r.pending@ == Set::<ProjectName>::empty(),
            r.artifacts@ == Map::<ProjectName, Vec<u64>>::empty(),
    {
        let r = CompilerState { files: Vec::new(), pending: HashSet::new(), artifacts: HashMap::new() };
        assert(snapshot(r.files@) =~= Map::<(u64, u64), Seq<u8>>::empty());
        r
    }

    pub fn project_has_pending_changes(&self, p: ProjectName) -> (r: bool)
        ensures
            r == self.pending@.contains(p),
    {
        self.pending.contains(&p)
    }

    /// Merges a change batch into the snapshot and marks every project fed by
    /// a source-set in which the batch made a difference. Returns whether it
    /// marked any project.
    pub fn merge_file_source_changes(&mut self, config: &Config, changes: &Vec<FileChange>) -> (r:
        bool)
        requires
            old(self).wf(),
        ensures
            final(self).wf(),
            snapshot(final(self).files@) == apply_all(snapshot(old(self).files@), changes@),
            final(self).pending@ == old(self).pending@ + marked(
                config.projects@,
                touched(snapshot(old(self).files@), changes@),
            ),
            r == !marked(config.projects@, touched(snapshot(old(self).files@), changes@)).is_empty(),
            final(self).artifacts@ == old(self).artifacts@,
    {
        let ghost m0 = snapshot(self.files@);
        let before = copy_files(&self.files);
        let mut i: usize = 0;
        while i < changes.len()
            invariant
                i <= changes@.len(),
                unique_keys(self.files@),
                snapshot(self.files@) == apply_all(m0, changes@.subrange(0, i as int)),
                self.pending@ == old(self).pending@,
                self.artifacts@ == old(self).artifacts@,
            decreases changes@.len() - i,
        {
            apply_change(&mut self.files, &changes[i]);
            let ghost prefix = changes@.subrange(0, i as int + 1);
            assert(prefix.drop_last() =~= changes@.subrange(0, i as int));
            assert(prefix.last() == changes@[i as int]);
            i = i + 1;
        }
        assert(changes@.subrange(0, changes@.len() as int) =~= changes@);
        let ghost m1 = snapshot(self.files@);
        let mut sets: Vec<SourceSetName> = Vec::new();
        let mut i: usize = 0;
        while i < changes.len()
            invariant
                i <= changes@.len(),
                unique_keys(self.files@),
                unique_keys(before@),
                snapshot(before@) == m0,
                snapshot(self.files@) == m1,
                forall|x: SourceSetName|
                    #[trigger] sets@.contains(x) <==> exists|j: int|
                        0 <= j < i && changes@[j].source_set == x && differs(
                            m0,
                            m1,
                            change_key(#[trigger] changes@[j]),
                        ),
            decreases changes@.len() - i,
        {
            let c = &changes[i];
            let ghost old_sets = sets@;
            if file_differs(&before, &self.files, c.source_set, c.path) {
                sets.push(c.source_set);
                proof {
                    assert forall|x: SourceSetName| #[trigger] sets@.contains(x) <==> (
                    old_sets.contains(x) || x == c.source_set) by {
                        if sets@.contains(x) {
                            let k = choose|k: int| 0 <= k < sets@.len() && sets@[k] == x;
                            if k < old_sets.len() {
                                assert(old_sets[k] == x);
                            }
                        }
                        if old_sets.contains(x) {
                            let k = choose|k: int| 0 <= k < old_sets.len() && old_sets[k] == x;
                            assert(sets@[k] == x);
                        }
                        assert(sets@[old_sets.len() as int] == c.source_set);
                    }
                }
            }
            proof {
                assert forall|x: SourceSetName| #[trigger] sets@.contains(x) <==> exists|j: int|
                    0 <= j < i + 1 && changes@[j].source_set == x && differs(
                        m0,
                        m1,
                        change_key(#[trigger] changes@[j]),
                    ) by {
                    if exists|j: int|
                        0 <= j < i + 1 && changes@[j].source_set == x && differs(
                            m0,
                            m1,
                            change_key(#[trigger] changes@[j]),
                        ) {
                        let j = choose|j: int|
                            0 <= j < i + 1 && changes@[j].source_set == x && differs(
                                m0,
                                m1,
                                change_key(#[trigger] changes@[j]),
                            );
                        if j < i {
                            assert(old_sets.contains(x));
                        }
                    }
                }
            }
            i = i + 1;
        }
        proof {
            let t = touched(m0, changes@);
            assert forall|x: SourceSetName| #[trigger] t.contains(x) <==> sets@.contains(x) by {
                if t.contains(x) {
                    let k = choose|k: FileKey| k.0 == x && differs(m0, apply_all(m0, changes@), k);
                    if forall|j: int| 0 <= j < changes@.len() ==> change_key(#[trigger] changes@[j]) != k {
                        lemma_apply_all_elsewhere(m0, changes@, k);
                    }
                    let j = choose|j: int| 0 <= j < changes@.len() && !(change_key(#[trigger] changes@[j]) != k);
                    assert(changes@[j].source_set == x);
                }
                if sets@.contains(x) {
                    let j = choose|j: int|
                        0 <= j < changes@.len() && changes@[j].source_set == x && differs(
                            m0,
                            m1,
                            change_key(#[trigger] changes@[j]),
                        );
                    let k = change_key(changes@[j]);
                    assert(k.0 == x && differs(m0, apply_all(m0, changes@), k));
                }
            }
            assert(sets@.to_set() =~= t);
        }
        let ghost t = sets@.to_set();
        let mut any = false;
        let mut j: usize = 0;
        while j < config.projects.len()
            invariant
                j <= config.projects@.len(),
                t == sets@.to_set(),
                t == touched(m0, changes@),
                m0 == snapshot(old(self).files@),
                unique_keys(self.files@),
                snapshot(self.files@) == apply_all(m0, changes@),
                self.artifacts@ == old(self).artifacts@,
                self.pending@ == old(self).pending@ + marked(
                    config.projects@.subrange(0, j as int),
                    t,
                ),
                any == !marked(config.projects@.subrange(0, j as int), t).is_empty(),
            decreases config.projects@.len() - j,
        {
            let ghost prev = config.projects@.subrange(0, j as int);
            let ghost next = config.projects@.subrange(0, j as int + 1);
            let p = &config.projects[j];
            let hit = feeds_any(p, &sets);
            if hit {
                self.pending.insert(p.name);
                any = true;
            }
            proof {
                assert forall|x: ProjectName| #[trigger] marked(next, t).contains(x) <==> (marked(
                    prev,
                    t,
                ).contains(x) || (hit && x == p.name)) by {
                    if marked(next, t).contains(x) {
                        let k = choose|k: int|
                            0 <= k < next.len() && #[trigger] next[k].name == x && feeds(
                                next[k],
                                t,
                            );
                        if k < j {
                            assert(prev[k] == next[k]);
                        }
                    }
                    if marked(prev, t).contains(x) {
                        let k = choose|k: int|
                            0 <= k < prev.len() && #[trigger] prev[k].name == x && feeds(
                                prev[k],
                                t,
                            );
                        assert(next[k] == prev[k]);
                    }
                    if hit && x == p.name {
                        assert(next[j as int] == *p);
                    }
                }
                assert(self.pending@ =~= old(self).pending@ + marked(next, t));
                if hit {
                    assert(marked(next, t).contains(p.name));
                } else {
                    assert(marked(next, t) =~= marked(prev, t));
                }
            }
            j = j + 1;
        }
        assert(config.projects@.subrange(0, config.projects@.len() as int) =~= config.projects@);
        any
    }

    /// Records a successful build of the projects in `built`: each one that
    /// has an entry in `next` gets that entry in the manifest and is no
    /// longer pending. Other projects keep their entries and flags.
    pub fn complete_compilation(&mut self, built: &Vec<ProjectName>, next: ArtifactMap)
        ensures
            final(self).files@ == old(self).files@,
            final(self).pending@ == old(self).pending@ - built@.to_set().intersect(next@.dom()),
            final(self).artifacts@ == old(self).artifacts@.union_prefer_right(
                next@.restrict(built@.to_set()),
            ),
    {
        let mut next = next;
        let ghost next0 = next@;
        let mut i: usize = 0;
        while i < built.len()
            invariant
                i <= built@.len(),
                self.files@ == old(self).files@,
                self.pending@ == old(self).pending@ - built@.subrange(0, i as int).to_set().intersect(
                    next0.dom(),
                ),
                self.artifacts@ == old(self).artifacts@.union_prefer_right(
                    next0.restrict(built@.subrange(0, i as int).to_set()),
                ),
                next@ == next0.remove_keys(built@.subrange(0, i as int).to_set()),
            decreases built@.len() - i,
        {
            let p = built[i];
            let ghost done = built@.subrange(0, i as int).to_set();
            let ghost done2 = built@.subrange(0, i as int + 1).to_set();
            proof {
                lemma_prefix_set(built@, i as int);
            }
            let ghost a0 = self.artifacts@;
            match next.remove(&p) {
                Some(a) => {
                    self.pending.remove(&p);
                    self.artifacts.insert(p, a);
                    assert(self.artifacts@ =~= old(self).artifacts@.union_prefer_right(
                        next0.restrict(done2),
                    ));
                },
                None => {
                    assert(self.artifacts@ =~= old(self).artifacts@.union_prefer_right(
                        next0.restrict(done2),
                    ));
                },
            }
            assert(self.pending@ =~= old(self).pending@ - done2.intersect(next0.dom()));
            assert(next@ =~= next0.remove_keys(done2));
            i = i + 1;
        }
        assert(built@.subrange(0, built@.len() as int) =~= built@);
    }

    /// Records that the projects in `checked` were checked: none of them is
    /// pending any more, whatever the check reported.
    pub fn complete_check(&mut self, checked: &Vec<ProjectName>)
        ensures
            final(self).files@ == old(self).files@,
            final(self).pending@ == old(self).pending@ - checked@.to_set(),
            final(self).artifacts@ == old(self).artifacts@,
    {
        let mut i: usize = 0;
        while i < checked.len()
            invariant
                i <= checked@.len(),
                self.files@ == old(self).files@,
                self.artifacts@ == old(self).artifacts@,
                self.pending@ == old(self).pending@ - checked@.subrange(0, i as int).to_set(),
            decreases checked@.len() - i,
        {
            let p = checked[i];
            let ghost done = checked@.subrange(0, i as int).to_set();
            let ghost done2 = checked@.subrange(0, i as int + 1).to_set();
            proof {
                lemma_prefix_set(checked@, i as int);
            }
            self.pending.remove(&p);
            assert(self.pending@ =~= old(self).pending@ - done2);
            i = i + 1;
        }
        assert(checked@.subrange(0, checked@.len() as int) =~= checked@);
    }
}

pub(crate) proof fn lemma_prefix_set(s: Seq<ProjectName>, i: int)
    requires
        0 <= i < s.len(),
    ensures
        s.subrange(0, i + 1).to_set() == s.subrange(0, i).to_set().insert(s[i]),
{
    let a = s.subrange(0, i);
    let b = s.subrange(0, i + 1);
    assert forall|x: ProjectName| #[trigger] b.to_set().contains(x) <==> (a.to_set().contains(x)
        || x == s[i]) by {
        if b.contains(x) {
            let k = choose|k: int| 0 <= k < b.len() && b[k] == x;
            if k < i {
                assert(a[k] == x);
            }
        }
        if a.contains(x) {
            let k = choose|k: int| 0 <= k < a.len() && a[k] == x;
            assert(b[k] == x);
        }
        assert(b[i] == s[i]);
    }
    assert(b.to_set() =~= a.to_set().insert(s[i]));
}

/// Whether a project consumes one of the given source-sets.
fn feeds_any(p: &ProjectConfig, sets: &Vec<SourceSetName>) -> (r: bool)
    ensures
        r == feeds(*p, sets@.to_set()),
{
    let mut i: usize = 0;
    while i < sets.len()
        invariant
            i <= sets@.len(),
            forall|k: int| 0 <= k < i ==> !p.consumes(#[trigger] sets@[k]),
        decreases sets@.len() - i,
    {
        if consumes_exec(p, sets[i]) {
            assert(sets@.to_set().contains(sets@[i as int]));
            return true;
        }
        i = i + 1;
    }
    proof {
        if feeds(*p, sets@.to_set()) {
            let s = choose|s: SourceSetName| sets@.to_set().contains(s) && p.consumes(s);
            let k = choose|k: int| 0 <= k < sets@.len() && sets@[k] == s;
            assert(!p.consumes(sets@[k]));
        }
    }
    false
}

fn consumes_exec(p: &ProjectConfig, s: SourceSetName) -> (r: bool)
    ensures
        r == p.consumes(s),
{
    let mut i: usize = 0;
    while i < p.source_sets.len()
        invariant
            i <= p.source_sets@.len(),
            forall|k: int| 0 <= k < i ==> p.source_sets@[k] != s,
        decreases p.source_sets@.len() - i,
    {
        if p.source_sets[i] == s {
            assert(p.source_sets@[i as int] == s);
            return true;
        }
        i = i + 1;
    }
    false
}

} // verus!
