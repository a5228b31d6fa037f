//! The choice of the trash that a file goes into.
use vstd::prelude::*;
use crate::errors::CustomError;
use crate::mountpoint::{has_match, is_longest_match, longest_match, views};
use crate::path::{absolutize, is_path_prefix, is_plain_absolute};
use crate::text::{chars_of, has_prefix};
use crate::trash_dir::{dir_mounts, Dir};

verus! {

/// The index of the trash among `dirs` whose filesystem is mounted at the
/// longest component prefix of the absolute path `target` (the last of them
/// where several are mounted there).
pub fn select_dir(dirs: &Vec<Dir>, target: &str) -> (r: Option<usize>)
    ensures
        r matches Some(i) ==> is_longest_match(dir_mounts(dirs@), target@, i as int),
        r is None ==> !has_match(dir_mounts(dirs@), target@),
{
    let mut ps: Vec<Vec<char>> = Vec::new();
    let mut i: usize = 0;
    while i < dirs.len()
        invariant
            i <= dirs@.len(),
            views(ps@) =~= dir_mounts(dirs@).subrange(0, i as int),
        decreases dirs@.len() - i,
    {
        let m = match &dirs[i] {
            Dir::Home(m, _) => m,
            Dir::Topdir(m, _) => m,
        };
        let c = chars_of(m.mountpoint.as_str());
        let ghost before = ps@;
        ps.push(c);
        assert(views(ps@) =~= views(before).push(c@));
        i = i + 1;
        assert(views(ps@) =~= dir_mounts(dirs@).subrange(0, i as int));
    }
    assert(dir_mounts(dirs@).subrange(0, i as int) =~= dir_mounts(dirs@));
    let t = chars_of(target);
    longest_match(&ps, &t)
}

/// Whether `ds[i]` is the trash that `select_dir` picks for some absolute path.
pub open spec fn chosen_for_some_path(ds: Seq<Dir>, i: int) -> bool {
    exists|t: Seq<char>| t.len() > 0 && t[0] == '/' && #[trigger] is_longest_match(dir_mounts(ds), t, i)
}

/// The trash among `dirs` that the file `query` goes into, as an index: an
/// error where the file does not exist (`target_exists` tells), where its
/// absolute path cannot be had, or where no trash's filesystem holds it. For
/// a query that is already a plain absolute path the choice is exactly that
/// of `select_dir` on the query.
pub fn trash(query: &str, target_exists: bool, dirs: &Vec<Dir>) -> (r: Result<usize, CustomError>)
    ensures
        !target_exists ==> (r matches Err(e) && e matches CustomError::BadQueryFileNotFound(q) && q@ == query@),
        target_exists ==> !(r matches Err(CustomError::BadQueryFileNotFound(_))),
        target_exists && dirs@.len() == 0 ==> (r matches Err(e) && ((e matches CustomError::TrashDirNotFound(q)
            && q@ == query@) || e == CustomError::PathInvalidUnicode)),
        r matches Ok(i) ==> chosen_for_some_path(dirs@, i as int),
        target_exists && is_plain_absolute(query@) ==> (r matches Ok(i) ==> is_longest_match(
            dir_mounts(dirs@),
            query@,
            i as int,
        )),
        target_exists && is_plain_absolute(query@) ==> (r matches Err(CustomError::TrashDirNotFound(_))
            ==> !has_match(dir_mounts(dirs@), query@)),
        r matches Err(e) ==> (e matches CustomError::BadQueryFileNotFound(q) && q@ == query@) || (e
            matches CustomError::TrashDirNotFound(q) && q@ == query@) || e == CustomError::PathInvalidUnicode,
{
    if !target_exists {
        return Err(CustomError::BadQueryFileNotFound(query.to_owned()));
    }
    let abs = match absolutize(query) {
        Some(a) => a,
        None => return Err(CustomError::PathInvalidUnicode),
    };
    match select_dir(dirs, abs.as_str()) {
        Some(i) => {
            let r: Result<usize, CustomError> = Ok(i);
            assert(is_longest_match(dir_mounts(dirs@), abs@, i as int));
            let ghost w = abs@;
            assert(chosen_for_some_path(dirs@, i as int)) by {
                assert(is_longest_match(dir_mounts(dirs@), w, i as int));
            }
            r
        },
        None => Err(CustomError::TrashDirNotFound(query.to_owned())),
    }
}

/// The chosen mount path lies within every other mount path that holds the
/// target: the most specific filesystem wins over `/` and any other enclosing one.
pub proof fn lemma_most_specific_mount(ps: Seq<Seq<char>>, t: Seq<char>, i: int, j: int)
    requires
        is_longest_match(ps, t, i),
        0 <= j < ps.len(),
        is_path_prefix(ps[j], t),
    ensures
        ps[j].len() <= ps[i].len(),
        is_path_prefix(ps[j], ps[i]),
{
    let a = ps[j];
    let b = ps[i];
    assert(b.subrange(0, a.len() as int) =~= t.subrange(0, a.len() as int)) by {
        assert forall|k: int| 0 <= k < a.len() implies b.subrange(0, a.len() as int)[k] == t.subrange(
            0,
            a.len() as int,
        )[k] by {
            assert(b[k] == t.subrange(0, b.len() as int)[k]);
        }
    }
    assert(has_prefix(b, a));
    if a.len() < b.len() && a.last() != '/' {
        assert(b[a.len() as int] == t.subrange(0, b.len() as int)[a.len() as int]);
    }
}

} // verus!
