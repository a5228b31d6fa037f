//! Reading back the records of one trash directory.
use vstd::prelude::*;
use crate::errors::CustomError;
use crate::trash_info::{parse_spec, Entry};

verus! {

/// Whether `r` is what listing makes of the metadata file at `path` whose text
/// is `contents` (none where it could not be read as text).
pub open spec fn listed_from(r: Result<Entry, CustomError>, path: Seq<char>, contents: Option<Seq<char>>) -> bool {
    match contents {
        Some(c) => match r {
            Ok(e) => e.wf() && parse_spec(c) == Some((e.path@, e.datetime)) && (e.location matches Some(l) && l@
                == path),
            Err(e) => parse_spec(c) is None && (e matches CustomError::TrashInfoParseFailure(l) && l@ == path),
        },
        None => r matches Err(e) && e matches CustomError::TrashInfoParseFailure(l) && l@ == path,
    }
}

/// The records of a trash directory: nothing where its `info` directory does
/// not exist (`info_exists` tells); else one result for each file of `info`,
/// given as its path and its text, each read on its own so that a corrupt file
/// hides no other.
pub fn list(info_exists: bool, files: &Vec<(String, Option<String>)>) -> (r: Vec<Result<Entry, CustomError>>)
    ensures
        !info_exists ==> r@.len() == 0,
        info_exists ==> r@.len() == files@.len() && forall|i: int|
            0 <= i < r@.len() ==> listed_from(
                #[trigger] r@[i],
                files@[i].0@,
                match files@[i].1 {
                    Some(c) => Some(c@),
                    None => None,
                },
            ),
{
    let mut out: Vec<Result<Entry, CustomError>> = Vec::new();
    if !info_exists {
        return out;
    }
    let mut i: usize = 0;
    while i < files.len()
        invariant
            i <= files@.len(),
            out@.len() == i,
            forall|k: int|
                0 <= k < i ==> listed_from(
                    #[trigger] out@[k],
                    files@[k].0@,
                    match files@[k].1 {
                        Some(c) => Some(c@),
                        None => None,
                    },
                ),
        decreases files@.len() - i,
    {
        let (path, contents) = &files[i];
        let e = match contents {
            Some(c) => Entry::from_file(path.as_str(), c.as_str()),
            None => Err(CustomError::TrashInfoParseFailure(path.clone())),
        };
        out.push(e);
        i = i + 1;
    }
    out
}

} // verus!
