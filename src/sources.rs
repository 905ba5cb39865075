use vstd::prelude::*;
use crate::project::SourceSetName;

verus! {

/// Identifies a file: the source-set it belongs to and its path id.
pub type FileKey = (SourceSetName, u64);

/// One file of the source snapshot.
pub struct SourceFile {
    pub source_set: SourceSetName,
    pub path: u64,
    pub text: Vec<u8>,
}

/// One entry of a change batch: the new text of a file, or `None` when the
/// file was removed.
pub struct FileChange {
    pub source_set: SourceSetName,
    pub path: u64,
    pub text: Option<Vec<u8>>,
}

pub open spec fn file_key(f: SourceFile) -> FileKey {
    (f.source_set, f.path)
}

pub open spec fn change_key(c: FileChange) -> FileKey {
    (c.source_set, c.path)
}

/// No file occurs twice in a snapshot.
pub open spec fn unique_keys(fs: Seq<SourceFile>) -> bool {
    forall|i: int, j: int|
        0 <= i < j < fs.len() ==> file_key(#[trigger] fs[i]) != file_key(#[trigger] fs[j])
}

/// The snapshot as a map from file to text.
pub open spec fn snapshot(fs: Seq<SourceFile>) -> Map<FileKey, Seq<u8>> {
    Map::new(
        |k: FileKey| exists|i: int| 0 <= i < fs.len() && file_key(#[trigger] fs[i]) == k,
        |k: FileKey| fs[choose|i: int| 0 <= i < fs.len() && file_key(#[trigger] fs[i]) == k].text@,
    )
}

/// Whether a change makes a difference to the snapshot `m`.
pub open spec fn alters(m: Map<FileKey, Seq<u8>>, c: FileChange) -> bool {
    match c.text {
        Some(t) => !(m.contains_key(change_key(c)) && m[change_key(c)] == t@),
        None => m.contains_key(change_key(c)),
    }
}

/// The snapshot after one change.
pub open spec fn apply(m: Map<FileKey, Seq<u8>>, c: FileChange) -> Map<FileKey, Seq<u8>> {
    match c.text {
        Some(t) => m.insert(change_key(c), t@),
        None => m.remove(change_key(c)),
    }
}

/// The snapshot after a batch, applied in order.
pub open spec fn apply_all(m: Map<FileKey, Seq<u8>>, cs: Seq<FileChange>) -> Map<
    FileKey,
    Seq<u8>,
>
    decreases cs.len(),
{
    if cs.len() == 0 {
        m
    } else {
        apply(apply_all(m, cs.drop_last()), cs.last())
    }
}

/// Whether two snapshots differ on one file: it is in one and not the
/// other, or its text differs.
pub open spec fn differs(a: Map<FileKey, Seq<u8>>, b: Map<FileKey, Seq<u8>>, k: FileKey) -> bool {
    a.contains_key(k) != b.contains_key(k) || (a.contains_key(k) && a[k] != b[k])
}

/// The source-sets in which the batch, taken as a whole, changed a file:
/// those of the files on which the snapshot after the batch differs from
/// the one before it.
pub open spec fn touched(m: Map<FileKey, Seq<u8>>, cs: Seq<FileChange>) -> Set<SourceSetName> {
    Set::new(|s: SourceSetName| exists|k: FileKey| k.0 == s && differs(m, apply_all(m, cs), k))
}

/// A file that no change of the batch names keeps its state.
pub(crate) proof fn lemma_apply_all_elsewhere(
    m: Map<FileKey, Seq<u8>>,
    cs: Seq<FileChange>,
    k: FileKey,
)
    requires
        forall|i: int| 0 <= i < cs.len() ==> change_key(#[trigger] cs[i]) != k,
    ensures
        apply_all(m, cs).contains_key(k) == m.contains_key(k),
        m.contains_key(k) ==> apply_all(m, cs)[k] == m[k],
    decreases cs.len(),
{
    if cs.len() > 0 {
        let init = cs.drop_last();
        assert forall|i: int| 0 <= i < init.len() implies change_key(#[trigger] init[i]) != k by {
            assert(init[i] == cs[i]);
        }
        lemma_apply_all_elsewhere(m, init, k);
        assert(change_key(cs[cs.len() - 1]) != k);
    }
}

/// A file that some change of the batch names ends in a state that the
/// batch alone decides, whatever the snapshot it started from.
pub(crate) proof fn lemma_written_key(
    m1: Map<FileKey, Seq<u8>>,
    m2: Map<FileKey, Seq<u8>>,
    cs: Seq<FileChange>,
    j: int,
)
    requires
        0 <= j < cs.len(),
    ensures
        !differs(apply_all(m1, cs), apply_all(m2, cs), change_key(cs[j])),
    decreases cs.len(),
{
    let k = change_key(cs[j]);
    let n = cs.len() - 1;
    if change_key(cs[n]) != k {
        let init = cs.drop_last();
        assert(init[j] == cs[j]);
        lemma_written_key(m1, m2, init, j);
    }
}

pub(crate) proof fn lemma_snapshot_at(fs: Seq<SourceFile>, i: int)
    requires
        unique_keys(fs),
        0 <= i < fs.len(),
    ensures
        snapshot(fs).contains_key(file_key(fs[i])),
        snapshot(fs)[file_key(fs[i])] == fs[i].text@,
{
    let k = file_key(fs[i]);
    assert(exists|j: int| 0 <= j < fs.len() && file_key(#[trigger] fs[j]) == k);
    let j = choose|j: int| 0 <= j < fs.len() && file_key(#[trigger] fs[j]) == k;
    assert(j == i);
}

fn same_bytes(a: &Vec<u8>, b: &Vec<u8>) -> (r: bool)
    ensures
        r == (a@ == b@),
{
    if a.len() != b.len() {
        return false;
    }
    let mut i: usize = 0;
    while i < a.len()
        invariant
            a@.len() == b@.len(),
            i <= a@.len(),
            forall|k: int| 0 <= k < i ==> a@[k] == b@[k],
        decreases a@.len() - i,
    {
        if a[i] != b[i] {
            return false;
        }
        i = i + 1;
    }
    assert(a@ =~= b@);
    true
}

/// A copy of a byte string.
pub fn copy_bytes(a: &Vec<u8>) -> (r: Vec<u8>)
    ensures
        r@ == a@,
{
    let mut r: Vec<u8> = Vec::new();
    let mut i: usize = 0;
    while i < a.len()
        invariant
            i <= a@.len(),
            r@ == a@.subrange(0, i as int),
        decreases a@.len() - i,
    {
        r.push(a[i]);
        i = i + 1;
        assert(r@ =~= a@.subrange(0, i as int));
    }
    assert(r@ =~= a@);
    r
}

/// A copy of the snapshot.
pub fn copy_files(fs: &Vec<SourceFile>) -> (r: Vec<SourceFile>)
    requires
        unique_keys(fs@),
    ensures
        unique_keys(r@),
        snapshot(r@) == snapshot(fs@),
{
    let mut r: Vec<SourceFile> = Vec::new();
    let mut i: usize = 0;
    while i < fs.len()
        invariant
            i <= fs@.len(),
            r@.len() == i,
            forall|k: int|
                0 <= k < i ==> file_key(#[trigger] r@[k]) == file_key(fs@[k]) && r@[k].text@
                    == fs@[k].text@,
        decreases fs@.len() - i,
    {
        let f = &fs[i];
        r.push(SourceFile { source_set: f.source_set, path: f.path, text: copy_bytes(&f.text) });
        i = i + 1;
    }
    proof {
        assert forall|a: int, b: int| 0 <= a < b < r@.len() implies file_key(#[trigger] r@[a])
            != file_key(#[trigger] r@[b]) by {
            assert(file_key(r@[a]) == file_key(fs@[a]));
            assert(file_key(r@[b]) == file_key(fs@[b]));
        }
        assert forall|k: FileKey| #[trigger] snapshot(r@).contains_key(k) <==> snapshot(
            fs@,
        ).contains_key(k) by {
            if snapshot(r@).contains_key(k) {
                let j = choose|j: int| 0 <= j < r@.len() && file_key(#[trigger] r@[j]) == k;
                lemma_snapshot_at(fs@, j);
            }
            if snapshot(fs@).contains_key(k) {
                let j = choose|j: int| 0 <= j < fs@.len() && file_key(#[trigger] fs@[j]) == k;
                assert(file_key(r@[j]) == file_key(fs@[j]));
                lemma_snapshot_at(r@, j);
            }
        }
        assert forall|k: FileKey| #[trigger] snapshot(r@).contains_key(k) implies snapshot(r@)[k]
            == snapshot(fs@)[k] by {
            let j = choose|j: int| 0 <= j < r@.len() && file_key(#[trigger] r@[j]) == k;
            lemma_snapshot_at(fs@, j);
            lemma_snapshot_at(r@, j);
        }
        assert(snapshot(r@) =~= snapshot(fs@));
    }
    r
}

/// Whether two snapshots differ on one file.
pub fn file_differs(a: &Vec<SourceFile>, b: &Vec<SourceFile>, source_set: SourceSetName, path: u64) -> (r: bool)
    requires
        unique_keys(a@),
        unique_keys(b@),
    ensures
        r == differs(snapshot(a@), snapshot(b@), (source_set, path)),
{
    match (find_file(a, source_set, path), find_file(b, source_set, path)) {
        (Some(i), Some(j)) => {
            proof {
                lemma_snapshot_at(a@, i as int);
                lemma_snapshot_at(b@, j as int);
            }
            !same_bytes(&a[i].text, &b[j].text)
        },
        (Some(i), None) => {
            proof {
                lemma_snapshot_at(a@, i as int);
            }
            true
        },
        (None, Some(j)) => {
            proof {
                lemma_snapshot_at(b@, j as int);
            }
            true
        },
        (None, None) => false,
    }
}

/// Position of a file in the snapshot.
pub fn find_file(fs: &Vec<SourceFile>, source_set: SourceSetName, path: u64) -> (r: Option<usize>)
    requires
        unique_keys(fs@),
    ensures
        match r {
            Some(i) => i < fs@.len() && file_key(fs@[i as int]) == (source_set, path),
            None => !snapshot(fs@).contains_key((source_set, path)),
        },
{
    let mut i: usize = 0;
    while i < fs.len()
        invariant
            i <= fs@.len(),
            forall|k: int| 0 <= k < i ==> file_key(#[trigger] fs@[k]) != (source_set, path),
        decreases fs@.len() - i,
    {
        if fs[i].source_set == source_set && fs[i].path == path {
            return Some(i);
        }
        i = i + 1;
    }
    None
}


/// Applies one change to the snapshot; returns whether it made a difference.
pub fn apply_change(fs: &mut Vec<SourceFile>, c: &FileChange) -> (altered: bool)
    requires
        unique_keys(old(fs)@),
    ensures
        unique_keys(final(fs)@),
        snapshot(final(fs)@) == apply(snapshot(old(fs)@), *c),
        altered == alters(snapshot(old(fs)@), *c),
{
    let ghost m = snapshot(fs@);
    let ghost k = change_key(*c);
    let found = find_file(fs, c.source_set, c.path);
    match (&c.text, found) {
        (Some(t), Some(i)) => {
            proof {
                lemma_snapshot_at(fs@, i as int);
            }
            if same_bytes(&fs[i].text, t) {
                assert(apply(m, *c) =~= m);
                false
            } else {
                let ghost old_fs = fs@;
                fs.set(i, SourceFile { source_set: c.source_set, path: c.path, text: copy_bytes(t) });
                proof {
                    assert(unique_keys(fs@)) by {
                        assert forall|a: int, b: int| 0 <= a < b < fs@.len() implies file_key(
                            #[trigger] fs@[a],
                        ) != file_key(#[trigger] fs@[b]) by {
                            assert(file_key(fs@[a]) == file_key(old_fs[a]));
                            assert(file_key(fs@[b]) == file_key(old_fs[b]));
                        }
                    }
                    lemma_set_snapshot(old_fs, fs@, i as int);
                }
                true
            }
        },
        (Some(t), None) => {
            let ghost old_fs = fs@;
            fs.push(SourceFile { source_set: c.source_set, path: c.path, text: copy_bytes(t) });
            proof {
                assert(fs@.drop_last() =~= old_fs);
                lemma_push_snapshot(old_fs, fs@);
            }
            true
        },
        (None, Some(i)) => {
            proof {
                lemma_snapshot_at(fs@, i as int);
            }
            let ghost old_fs = fs@;
            fs.remove(i);
            proof {
                lemma_remove_snapshot(old_fs, fs@, i as int);
            }
            true
        },
        (None, None) => {
            assert(apply(m, *c) =~= m);
            false
        },
    }
}

proof fn lemma_set_snapshot(a: Seq<SourceFile>, b: Seq<SourceFile>, i: int)
    requires
        unique_keys(a),
        unique_keys(b),
        0 <= i < a.len(),
        b.len() == a.len(),
        forall|j: int| 0 <= j < a.len() ==> file_key(#[trigger] b[j]) == file_key(a[j]),
        forall|j: int| 0 <= j < a.len() && j != i ==> #[trigger] b[j] == a[j],
    ensures
        snapshot(b) == snapshot(a).insert(file_key(a[i]), b[i].text@),
{
    let m = snapshot(a).insert(file_key(a[i]), b[i].text@);
    assert forall|k: FileKey| #[trigger] snapshot(b).contains_key(k) <==> m.contains_key(k) by {
        if snapshot(b).contains_key(k) {
            let j = choose|j: int| 0 <= j < b.len() && file_key(#[trigger] b[j]) == k;
            lemma_snapshot_at(a, j);
        }
        if m.contains_key(k) && k != file_key(a[i]) {
            let j = choose|j: int| 0 <= j < a.len() && file_key(#[trigger] a[j]) == k;
            lemma_snapshot_at(b, j);
        }
        lemma_snapshot_at(b, i);
    }
    assert forall|k: FileKey| #[trigger] snapshot(b).contains_key(k) implies snapshot(b)[k]
        == m[k] by {
        let j = choose|j: int| 0 <= j < b.len() && file_key(#[trigger] b[j]) == k;
        lemma_snapshot_at(b, j);
        if j != i {
            lemma_snapshot_at(a, j);
        }
    }
    assert(snapshot(b) =~= m);
}

proof fn lemma_push_snapshot(a: Seq<SourceFile>, b: Seq<SourceFile>)
    requires
        unique_keys(a),
        b.len() == a.len() + 1,
        b.drop_last() == a,
        !snapshot(a).contains_key(file_key(b.last())),
    ensures
        unique_keys(b),
        snapshot(b) == snapshot(a).insert(file_key(b.last()), b.last().text@),
{
    let n = a.len() as int;
    assert forall|i: int, j: int| 0 <= i < j < b.len() implies file_key(#[trigger] b[i])
        != file_key(#[trigger] b[j]) by {
        assert(b[i] == a[i]);
        if j < n {
            assert(b[j] == a[j]);
        } else {
            lemma_snapshot_at(a, i);
        }
    }
    let m = snapshot(a).insert(file_key(b.last()), b.last().text@);
    assert forall|k: FileKey| #[trigger] snapshot(b).contains_key(k) <==> m.contains_key(k) by {
        if snapshot(b).contains_key(k) {
            let j = choose|j: int| 0 <= j < b.len() && file_key(#[trigger] b[j]) == k;
            if j < n {
                assert(b[j] == a[j]);
                lemma_snapshot_at(a, j);
            }
        }
        if m.contains_key(k) && k != file_key(b.last()) {
            let j = choose|j: int| 0 <= j < a.len() && file_key(#[trigger] a[j]) == k;
            assert(b[j] == a[j]);
            lemma_snapshot_at(b, j);
        }
        lemma_snapshot_at(b, n);
    }
    assert forall|k: FileKey| #[trigger] snapshot(b).contains_key(k) implies snapshot(b)[k]
        == m[k] by {
        let j = choose|j: int| 0 <= j < b.len() && file_key(#[trigger] b[j]) == k;
        lemma_snapshot_at(b, j);
        if j < n {
            assert(b[j] == a[j]);
            lemma_snapshot_at(a, j);
        }
    }
    assert(snapshot(b) =~= m);
}

proof fn lemma_remove_snapshot(a: Seq<SourceFile>, b: Seq<SourceFile>, i: int)
    requires
        unique_keys(a),
        0 <= i < a.len(),
        b == a.remove(i),
    ensures
        unique_keys(b),
        snapshot(b) == snapshot(a).remove(file_key(a[i])),
{
    let old_index = |j: int| if j < i { j } else { j + 1 };
    assert forall|x: int, y: int| 0 <= x < y < b.len() implies file_key(#[trigger] b[x])
        != file_key(#[trigger] b[y]) by {
        assert(b[x] == a[old_index(x)]);
        assert(b[y] == a[old_index(y)]);
    }
    let m = snapshot(a).remove(file_key(a[i]));
    assert forall|k: FileKey| #[trigger] snapshot(b).contains_key(k) <==> m.contains_key(k) by {
        if snapshot(b).contains_key(k) {
            let j = choose|j: int| 0 <= j < b.len() && file_key(#[trigger] b[j]) == k;
            assert(b[j] == a[old_index(j)]);
            lemma_snapshot_at(a, old_index(j));
        }
        if m.contains_key(k) {
            let j = choose|j: int| 0 <= j < a.len() && file_key(#[trigger] a[j]) == k;
            let bj = if j < i { j } else { j - 1 };
            assert(b[bj] == a[j]);
            lemma_snapshot_at(b, bj);
        }
    }
    assert forall|k: FileKey| #[trigger] snapshot(b).contains_key(k) implies snapshot(b)[k]
        == m[k] by {
        let j = choose|j: int| 0 <= j < b.len() && file_key(#[trigger] b[j]) == k;
        lemma_snapshot_at(b, j);
        assert(b[j] == a[old_index(j)]);
        lemma_snapshot_at(a, old_index(j));
    }
    assert(snapshot(b) =~= m);
}

} // verus!
