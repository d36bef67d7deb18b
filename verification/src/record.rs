//! Candidate files as the planner sees them: the root they were found under,
//! their full source path, size, modification-date fields, and the content
//! digest when the pattern calls for one. A file whose metadata or content
//! could not be read arrives as a failed outcome and is reported, never
//! planned.
use vstd::prelude::*;
use crate::date::{civil_from_unix, spec_civil_from_unix};
use crate::digest::{sha1_digest, sha1_of};

verus! {

/// Everything the planner may read of one candidate file.
pub struct FileRecord {
    pub root: Vec<u8>,
    pub path: Vec<u8>,
    pub size: u64,
    pub year: u64,
    pub month: u64,
    pub day: u64,
    pub digest: Option<Vec<u8>>,
}

/// Builds the record for one readable file: date fields come from the
/// modification timestamp, and the digest is computed exactly when content
/// was read (which the caller decides by asking the pattern).
pub fn build_record(
    root: Vec<u8>,
    path: Vec<u8>,
    size: u64,
    mtime_secs: u64,
    content: Option<&Vec<u8>>,
) -> (r: FileRecord)
    ensures
        r.root@ == root@,
        r.path@ == path@,
        r.size == size,
        (r.year as nat, r.month as nat, r.day as nat) == spec_civil_from_unix(mtime_secs as nat),
        match content {
            Some(c) => r.digest is Some && r.digest->0@ == sha1_of(c@) && r.digest->0@.len() == 20,
            None => r.digest is None,
        },
{
    let (year, month, day) = civil_from_unix(mtime_secs);
    let digest: Option<Vec<u8>> = match content {
        Some(c) => Some(sha1_digest(c)),
        None => None,
    };
    FileRecord { root, path, size, year, month, day, digest }
}

/// One enumerated file: either a full record, or the path of a file whose
/// metadata or content could not be read.
pub enum ExtractOutcome {
    Good(FileRecord),
    Failed(Vec<u8>),
}

/// The source path an outcome is sorted and reported by.
pub open spec fn outcome_path(o: ExtractOutcome) -> Seq<u8> {
    match o {
        ExtractOutcome::Good(r) => r.path@,
        ExtractOutcome::Failed(p) => p@,
    }
}

/// Borrows the source path of an outcome.
pub fn path_of(o: &ExtractOutcome) -> (r: &Vec<u8>)
    ensures
        r@ == outcome_path(*o),
{
    match o {
        ExtractOutcome::Good(rec) => &rec.path,
        ExtractOutcome::Failed(p) => p,
    }
}

} // verus!
