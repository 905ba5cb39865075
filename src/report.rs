use vstd::prelude::*;
use crate::errors::{BuildProjectError, Location, ValidationError};
use crate::sources::{find_file, snapshot, unique_keys, FileKey, SourceFile};

verus! {

/// A location as shown to the user: the source text it covers, or the raw
/// location when the file or span cannot be resolved.
pub enum RenderedLocation {
    Excerpt { location: Location, text: Vec<u8> },
    Raw { location: Location },
}

/// One diagnostic block: a message and its rendered locations, in order.
pub struct Diagnostic {
    pub message: String,
    pub locations: Vec<RenderedLocation>,
}

/// The text a location covers, when its file is in the snapshot and the
/// span lies within the file.
pub open spec fn excerpt(m: Map<FileKey, Seq<u8>>, loc: Location) -> Option<Seq<u8>> {
    let k = (loc.source_set, loc.path);
    if m.contains_key(k) && loc.start <= loc.end <= m[k].len() {
        Some(m[k].subrange(loc.start as int, loc.end as int))
    } else {
        None
    }
}

pub open spec fn renders(m: Map<FileKey, Seq<u8>>, loc: Location, r: RenderedLocation) -> bool {
    match (excerpt(m, loc), r) {
        (Some(t), RenderedLocation::Excerpt { location, text }) => location == loc && text@ == t,
        (None, RenderedLocation::Raw { location }) => location == loc,
        _ => false,
    }
}

pub open spec fn renders_error(m: Map<FileKey, Seq<u8>>, e: ValidationError, d: Diagnostic) -> bool {
    &&& d.message@ == e.message@
    &&& d.locations@.len() == e.locations@.len()
    &&& forall|j: int|
        0 <= j < e.locations@.len() ==> renders(m, e.locations@[j], #[trigger] d.locations@[j])
}

fn render_location(files: &Vec<SourceFile>, loc: Location) -> (r: RenderedLocation)
    requires
        unique_keys(files@),
    ensures
        renders(snapshot(files@), loc, r),
{
    match find_file(files, loc.source_set, loc.path) {
        Some(i) => {
            proof {
                crate::sources::lemma_snapshot_at(files@, i as int);
            }
            let text = &files[i].text;
            if loc.start <= loc.end && loc.end <= text.len() {
                let mut out: Vec<u8> = Vec::new();
                let mut j: usize = loc.start;
                while j < loc.end
                    invariant
                        loc.start <= j <= loc.end <= text@.len(),
                        out@ == text@.subrange(loc.start as int, j as int),
                    decreases loc.end - j,
                {
                    out.push(text[j]);
                    j = j + 1;
                    assert(out@ =~= text@.subrange(loc.start as int, j as int));
                }
                RenderedLocation::Excerpt { location: loc, text: out }
            } else {
                RenderedLocation::Raw { location: loc }
            }
        },
        None => RenderedLocation::Raw { location: loc },
    }
}

/// Turns a build failure into diagnostic blocks, one per validation error,
/// in the order of the errors; each location is resolved against the source
/// snapshot. Failures of other stages carry no validation errors and give
/// no block.
pub fn render(error: &BuildProjectError, files: &Vec<SourceFile>) -> (r: Vec<Diagnostic>)
    requires
        unique_keys(files@),
    ensures
        match error {
            BuildProjectError::ValidationErrors { errors } => {
                &&& r@.len() == errors@.len()
                &&& forall|i: int|
                    0 <= i < errors@.len() ==> renders_error(
                        snapshot(files@),
                        errors@[i],
                        #[trigger] r@[i],
                    )
            },
            _ => r@.len() == 0,
        },
{
    let mut out: Vec<Diagnostic> = Vec::new();
    match error {
        BuildProjectError::ValidationErrors { errors } => {
            let mut i: usize = 0;
            while i < errors.len()
                invariant
                    i <= errors@.len(),
                    unique_keys(files@),
                    out@.len() == i,
                    forall|k: int|
                        0 <= k < i ==> renders_error(snapshot(files@), errors@[k], #[trigger] out@[k]),
                decreases errors@.len() - i,
            {
                let e = &errors[i];
                let mut locs: Vec<RenderedLocation> = Vec::new();
                let mut j: usize = 0;
                while j < e.locations.len()
                    invariant
                        j <= e.locations@.len(),
                        unique_keys(files@),
                        locs@.len() == j,
                        forall|k: int|
                            0 <= k < j ==> renders(snapshot(files@), e.locations@[k], #[trigger] locs@[k]),
                    decreases e.locations@.len() - j,
                {
                    locs.push(render_location(files, e.locations[j]));
                    j = j + 1;
                }
                out.push(Diagnostic { message: e.message.clone(), locations: locs });
                i = i + 1;
            }
        },
        _ => {},
    }
    out
}

} // verus!
