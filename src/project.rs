use vstd::prelude::*;

verus! {

/// Interned name of a project.
pub type ProjectName = u64;

/// Interned name of a source-set.
pub type SourceSetName = u64;

/// A project of the registry and the source-sets that feed it.
pub struct ProjectConfig {
    pub name: ProjectName,
    pub source_sets: Vec<SourceSetName>,
}

/// The project registry, in its declared order, and the optional
/// single-project override.
pub struct Config {
    pub projects: Vec<ProjectConfig>,
    pub only_project: Option<ProjectName>,
}

impl ProjectConfig {
    pub open spec fn consumes(&self, s: SourceSetName) -> bool {
        self.source_sets@.contains(s)
    }
}

impl Config {
    /// Project names are unique in the registry.
    pub open spec fn wf(&self) -> bool {
        forall|i: int, j: int|
            0 <= i < j < self.projects@.len() ==> #[trigger] self.projects@[i].name
                != #[trigger] self.projects@[j].name
    }

    pub open spec fn has_project(&self, p: ProjectName) -> bool {
        exists|i: int| 0 <= i < self.projects@.len() && #[trigger] self.projects@[i].name == p
    }

    /// Whether no two projects of the registry share a name.
    pub fn has_unique_names(&self) -> (r: bool)
        ensures
            r == self.wf(),
    {
        let n = self.projects.len();
        let mut j: usize = 0;
        while j < n
            invariant
                n == self.projects@.len(),
                j <= n,
                forall|a: int, b: int|
                    0 <= a < b < j ==> #[trigger] self.projects@[a].name
                        != #[trigger] self.projects@[b].name,
            decreases n - j,
        {
            let mut i: usize = 0;
            while i < j
                invariant
                    n == self.projects@.len(),
                    i <= j < n,
                    forall|a: int| 0 <= a < i ==> self.projects@[a].name != self.projects@[j as int].name,
                decreases j - i,
            {
                if self.projects[i].name == self.projects[j].name {
                    return false;
                }
                i = i + 1;
            }
            j = j + 1;
        }
        true
    }

    /// Position of a project in the registry.
    pub fn project_index(&self, p: ProjectName) -> (r: Option<usize>)
        ensures
            match r {
                Some(i) => i < self.projects@.len() && self.projects@[i as int].name == p,
                None => !self.has_project(p),
            },
    {
        let mut i: usize = 0;
        while i < self.projects.len()
            invariant
                i <= self.projects@.len(),
                forall|k: int| 0 <= k < i ==> #[trigger] self.projects@[k].name != p,
            decreases self.projects@.len() - i,
        {
            if self.projects[i].name == p {
                return Some(i);
            }
            i = i + 1;
        }
        None
    }
}

} // verus!
