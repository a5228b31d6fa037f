//! Trash directories: which exist for a mounted filesystem, and how a file is
//! placed into one without overwriting anything.
use vstd::prelude::*;
use crate::datetime::DateTime;
use crate::errors::CustomError;
use crate::mountpoint::{
    get_home_trash_dir, has_match, home_of, is_mount_list, mountpoints,
    table_mounts, table_valid, views, Mountpoint,
};
use crate::path::{absolutize, file_name, is_path_prefix, join, join_path, last_component, path_starts_with, relative_to, strip_path_prefix};
use crate::text::{chars_of, decimal, push_all, push_decimal, same_chars, string_of};
use crate::trash_info::{local_datetime, serialized, Entry};

verus! {

/// What is done with the payload of a file being trashed.
#[derive(Clone, Copy, Debug, PartialEq, Eq, Structural)]
pub enum TrashMode {
    /// Report what would happen, without taking any action.
    Simulate,
    /// Move the file into the trash.
    Move,
    /// Copy the file into the trash, keeping the original.
    Copy,
}

impl TrashMode {
    /// Whether this mode writes metadata and transfers the payload.
    pub fn commits(&self) -> (r: bool)
        ensures
            r == !(*self is Simulate),
    {
        match self {
            TrashMode::Simulate => false,
            _ => true,
        }
    }
}

/// The two trash directories of a filesystem that does not hold the home trash.
#[derive(Debug, Clone)]
pub struct Topdir {
    /// `<mount>/.Trash`, shared by all users.
    pub shared: String,
    /// `<mount>/.Trash-<uid>`, of this user alone.
    pub personal: String,
}

/// The trash of one mounted filesystem.
#[derive(Debug, Clone)]
pub enum Dir {
    /// The filesystem holding the home trash, and the home trash directory.
    Home(Mountpoint, String),
    /// Any other filesystem, and its two trash directories.
    Topdir(Mountpoint, Topdir),
}

pub open spec fn dot_trash() -> Seq<char> {
    seq!['.', 'T', 'r', 'a', 's', 'h']
}

/// The name of the personal trash directory of user `uid`.
pub open spec fn personal_name(uid: u32) -> Seq<char> {
    dot_trash() + seq!['-'] + decimal(uid as nat)
}

/// Whether `d` is the trash that `m` has for user `uid`, `home` being the home
/// trash directory where it is known.
pub open spec fn is_dir_of(d: Dir, m: Mountpoint, uid: u32, home: Option<Seq<char>>) -> bool {
    match d {
        Dir::Home(dm, p) => m.contains_home && dm == m && home == Some(p@),
        Dir::Topdir(dm, t) => !m.contains_home && dm == m && t.shared@ == join(m.mountpoint@, dot_trash())
            && t.personal@ == join(m.mountpoint@, personal_name(uid)),
    }
}

/// The mount of the filesystem that `d` belongs to.
pub open spec fn mount_of(d: Dir) -> Mountpoint {
    match d {
        Dir::Home(m, _) => m,
        Dir::Topdir(m, _) => m,
    }
}

/// The trash directories that `d` owns.
pub open spec fn paths_of(d: Dir) -> Seq<Seq<char>> {
    match d {
        Dir::Home(_, p) => seq![p@],
        Dir::Topdir(_, t) => seq![t.shared@, t.personal@],
    }
}

/// The mount paths of the filesystems of `ds`, in order.
pub open spec fn dir_mounts(ds: Seq<Dir>) -> Seq<Seq<char>> {
    ds.map_values(|d: Dir| mount_of(d).mountpoint@)
}

/// The names of a listing, as characters.
pub open spec fn names(v: Seq<String>) -> Seq<Seq<char>> {
    v.map_values(|s: String| s@)
}

pub open spec fn info_suffix() -> Seq<char> {
    seq!['.', 't', 'r', 'a', 's', 'h', 'i', 'n', 'f', 'o']
}

/// The `i`-th name tried for `n`: `n` itself for -1, `n_<i>` after that.
pub open spec fn candidate(n: Seq<char>, i: int) -> Seq<char> {
    if i < 0 {
        n
    } else {
        n + seq!['_'] + decimal(i as nat)
    }
}

/// Whether `c` is taken neither in `files` nor, as `c.trashinfo`, in `info`.
pub open spec fn is_free(c: Seq<char>, files: Seq<Seq<char>>, info: Seq<Seq<char>>) -> bool {
    !files.contains(c) && !info.contains(c + info_suffix())
}

/// Whether `s` is the first free name tried for `n`, the suffixes running
/// below `u32::MAX`.
pub open spec fn is_first_free(n: Seq<char>, files: Seq<Seq<char>>, info: Seq<Seq<char>>, s: Seq<char>) -> bool {
    exists|i: int|
        -1 <= i < u32::MAX && s == candidate(n, i) && is_free(s, files, info) && forall|j: int|
            -1 <= j < i ==> !is_free(#[trigger] candidate(n, j), files, info)
}

/// Whether every name tried for `n` is taken.
pub open spec fn all_taken(n: Seq<char>, files: Seq<Seq<char>>, info: Seq<Seq<char>>) -> bool {
    forall|j: int| -1 <= j < u32::MAX ==> !is_free(#[trigger] candidate(n, j), files, info)
}

/// At most one name is the first free one.
pub proof fn lemma_first_free_unique(n: Seq<char>, files: Seq<Seq<char>>, info: Seq<Seq<char>>, s: Seq<char>, t: Seq<char>)
    requires
        is_first_free(n, files, info, s),
        is_first_free(n, files, info, t),
    ensures
        s == t,
{
    let i = choose|i: int|
        -1 <= i < u32::MAX && s == candidate(n, i) && is_free(s, files, info) && forall|j: int|
            -1 <= j < i ==> !is_free(#[trigger] candidate(n, j), files, info);
    let k = choose|k: int|
        -1 <= k < u32::MAX && t == candidate(n, k) && is_free(t, files, info) && forall|j: int|
            -1 <= j < k ==> !is_free(#[trigger] candidate(n, j), files, info);
    if i < k {
        assert(!is_free(candidate(n, i), files, info));
    } else if k < i {
        assert(!is_free(candidate(n, k), files, info));
    }
}

/// Where the name itself is taken and `<name>_0` is free in both listings,
/// the file goes to `<name>_0`.
pub proof fn lemma_first_suffix(n: Seq<char>, files: Seq<Seq<char>>, info: Seq<Seq<char>>)
    requires
        !is_free(n, files, info),
        is_free(candidate(n, 0), files, info),
    ensures
        is_first_free(n, files, info, candidate(n, 0)),
{
    assert(candidate(n, -1) == n);
    assert forall|j: int| -1 <= j < 0 implies !is_free(#[trigger] candidate(n, j), files, info) by {
        assert(j == -1);
    }
}

/// Once the chosen name is taken under both `files/` and `info/`, the next
/// file of the same name goes to a name tried later, never to the same one.
pub proof fn lemma_next_name_later(
    n: Seq<char>,
    files: Seq<Seq<char>>,
    info: Seq<Seq<char>>,
    s1: Seq<char>,
    s2: Seq<char>,
)
    requires
        is_first_free(n, files, info, s1),
        is_first_free(n, files.push(s1), info.push(s1 + info_suffix()), s2),
    ensures
        s1 != s2,
        exists|i1: int, i2: int|
            -1 <= i1 < i2 < u32::MAX && s1 == #[trigger] candidate(n, i1) && s2 == #[trigger] candidate(n, i2),
{
    let f2 = files.push(s1);
    let g2 = info.push(s1 + info_suffix());
    let i1 = choose|i: int|
        -1 <= i < u32::MAX && s1 == candidate(n, i) && is_free(s1, files, info) && forall|j: int|
            -1 <= j < i ==> !is_free(#[trigger] candidate(n, j), files, info);
    let i2 = choose|i: int|
        -1 <= i < u32::MAX && s2 == candidate(n, i) && is_free(s2, f2, g2) && forall|j: int|
            -1 <= j < i ==> !is_free(#[trigger] candidate(n, j), f2, g2);
    assert(f2[files.len() as int] == s1);
    assert(f2.contains(s1));
    if i2 <= i1 {
        if i2 < i1 {
            assert(!is_free(candidate(n, i2), files, info));
            if files.contains(s2) {
                let k = choose|k: int| 0 <= k < files.len() && files[k] == s2;
                assert(f2[k] == s2);
            } else {
                let k = choose|k: int| 0 <= k < info.len() && info[k] == s2 + info_suffix();
                assert(g2[k] == s2 + info_suffix());
            }
        }
    }
}

/// Where a file goes in one trash directory, and the metadata that records it.
#[derive(Debug, Clone)]
pub struct Placement {
    /// The name under `files/`, and with `.trashinfo` under `info/`.
    pub name: String,
    /// `<root>/info/<name>.trashinfo`.
    pub info_path: String,
    /// `<root>/files/<name>`.
    pub files_path: String,
    /// The text of the metadata file.
    pub metadata: String,
}

/// The placement of the file at absolute path `abs` into the trash directory
/// `root` on the filesystem mounted at `boundary`, trashed at `d`, with the
/// given names already taken.
pub open spec fn placement_ok(
    p: Placement,
    abs: Seq<char>,
    boundary: Seq<char>,
    root: Seq<char>,
    files: Seq<Seq<char>>,
    info: Seq<Seq<char>>,
    d: DateTime,
) -> bool {
    &&& file_name(abs) matches Some(n)
    &&& is_first_free(n, files, info, p.name@)
    &&& p.files_path@ == join(join(root, seq!['f', 'i', 'l', 'e', 's']), p.name@)
    &&& p.info_path@ == join(join(root, seq!['i', 'n', 'f', 'o']), p.name@ + info_suffix())
    &&& p.metadata@ == serialized(relative_to(abs, boundary), d)
}

/// One trash directory to place a file into, and whether a failure there ends
/// the whole operation.
#[derive(Debug, Clone)]
pub struct Attempt {
    pub root: String,
    pub mandatory: bool,
}

impl Attempt {
    /// The error that ends the operation when `root` could not be created,
    /// while trashing `query`; none where the directory is optional.
    pub fn on_create_failure(&self, query: &str) -> (r: Option<CustomError>)
        ensures
            self.mandatory ==> (r matches Some(e) && e matches CustomError::CreateDirectoryFailed(d, q) && d@
                == self.root@ && q@ == query@),
            !self.mandatory ==> r is None,
    {
        if self.mandatory {
            Some(CustomError::CreateDirectoryFailed(self.root.clone(), query.to_owned()))
        } else {
            None
        }
    }

    /// The error that ends the operation when placing into `root` failed with
    /// `e`; none where the directory is optional.
    pub fn on_failure(&self, e: CustomError) -> (r: Option<CustomError>)
        ensures
            self.mandatory ==> r == Some(e),
            !self.mandatory ==> r is None,
    {
        if self.mandatory {
            Some(e)
        } else {
            None
        }
    }
}

/// Whether a file may be put into the shared trash directory: it is not a
/// symbolic link, or the directory holding it has the sticky bit.
pub open spec fn shared_allowed(shared_is_symlink: bool, parent_mode: u32) -> bool {
    !shared_is_symlink || parent_mode & 0o1000u32 != 0
}

/// Whether `name` is one of `v`.
fn listed(v: &Vec<Vec<char>>, name: &Vec<char>) -> (r: bool)
    ensures
        r == views(v@).contains(name@),
{
    let mut i: usize = 0;
    while i < v.len()
        invariant
            i <= v@.len(),
            forall|j: int| 0 <= j < i ==> v@[j]@ != name@,
        decreases v@.len() - i,
    {
        if same_chars(&v[i], name) {
            assert(views(v@)[i as int] == name@);
            return true;
        }
        i = i + 1;
    }
    assert forall|j: int| 0 <= j < views(v@).len() implies views(v@)[j] != name@ by {
        assert(views(v@)[j] == v@[j]@);
    }
    false
}

fn name_chars(v: &Vec<String>) -> (r: Vec<Vec<char>>)
    ensures
        views(r@) == names(v@),
{
    let mut r: Vec<Vec<char>> = Vec::new();
    let mut i: usize = 0;
    while i < v.len()
        invariant
            i <= v@.len(),
            views(r@) =~= names(v@).subrange(0, i as int),
        decreases v@.len() - i,
    {
        let c = chars_of(v[i].as_str());
        let ghost before = r@;
        r.push(c);
        assert(views(r@) =~= views(before).push(c@));
        i = i + 1;
        assert(views(r@) =~= names(v@).subrange(0, i as int));
    }
    assert(names(v@).subrange(0, i as int) =~= names(v@));
    r
}

fn is_free_exec(c: &Vec<char>, files: &Vec<Vec<char>>, info: &Vec<Vec<char>>, suffix: &Vec<char>) -> (r: bool)
    requires
        suffix@ == info_suffix(),
    ensures
        r == is_free(c@, views(files@), views(info@)),
{
    if listed(files, c) {
        return false;
    }
    let mut with_suffix: Vec<char> = Vec::new();
    push_all(&mut with_suffix, c);
    push_all(&mut with_suffix, suffix);
    !listed(info, &with_suffix)
}

fn candidate_exec(n: &Vec<char>, i: u32) -> (r: Vec<char>)
    ensures
        r@ == candidate(n@, i as int),
{
    let mut r: Vec<char> = Vec::new();
    push_all(&mut r, n);
    r.push('_');
    push_decimal(&mut r, i);
    assert(r@ =~= candidate(n@, i as int));
    r
}

fn suffix_chars() -> (r: Vec<char>)
    ensures
        r@ == info_suffix(),
{
    let r = chars_of(".trashinfo");
    proof {
        reveal_strlit(".trashinfo");
    }
    assert(r@ =~= info_suffix());
    r
}

/// The first name tried for `n` that neither listing holds.
fn first_free(n: &Vec<char>, files: &Vec<Vec<char>>, info: &Vec<Vec<char>>) -> (r: Option<Vec<char>>)
    ensures
        r matches Some(s) ==> is_first_free(n@, views(files@), views(info@), s@),
        r is None ==> all_taken(n@, views(files@), views(info@)),
{
    let ghost fs = views(files@);
    let ghost is = views(info@);
    let suffix = suffix_chars();
    if is_free_exec(n, files, info, &suffix) {
        assert(n@ == candidate(n@, -1));
        assert(is_first_free(n@, fs, is, n@));
        return Some(copy_chars(n));
    }
    let mut i: u32 = 0;
    while i < u32::MAX
        invariant
            fs == views(files@),
            is == views(info@),
            suffix@ == info_suffix(),
            forall|j: int| -1 <= j < i ==> !is_free(#[trigger] candidate(n@, j), fs, is),
        decreases u32::MAX - i,
    {
        let c = candidate_exec(n, i);
        if is_free_exec(&c, files, info, &suffix) {
            assert(is_first_free(n@, fs, is, c@));
            return Some(c);
        }
        i = i + 1;
    }
    None
}

fn copy_chars(n: &Vec<char>) -> (r: Vec<char>)
    ensures
        r@ == n@,
{
    let mut r: Vec<char> = Vec::new();
    push_all(&mut r, n);
    assert(r@ =~= n@);
    r
}

impl Dir {
    /// The trash of the filesystem `mountpoint` for user `uid`: the home trash
    /// (below the base data directory `xdg_data_home`) where the filesystem holds
    /// it, else its shared and personal trash directories.
    pub fn new(mountpoint: Mountpoint, uid: u32, xdg_data_home: Option<&str>) -> (r: Result<Dir, CustomError>)
        ensures
            r is Err <==> mountpoint.contains_home && xdg_data_home is None,
            r matches Ok(d) ==> is_dir_of(
                d,
                mountpoint,
                uid,
                match xdg_data_home {
                    Some(x) => Some(home_of(x@)),
                    None => None,
                },
            ),
            r matches Err(e) ==> e matches CustomError::ConfigurationMissing(_),
    {
        if mountpoint.contains_home {
            let home = get_home_trash_dir(xdg_data_home)?;
            Ok(Dir::Home(mountpoint, home))
        } else {
            let top = chars_of(mountpoint.mountpoint.as_str());
            let t = chars_of(".Trash");
            proof {
                reveal_strlit(".Trash");
                assert(t@ =~= dot_trash());
            }
            let shared = join_path(&top, &t);
            let mut p = t;
            p.push('-');
            push_decimal(&mut p, uid);
            let personal = join_path(&top, &p);
            assert(p@ =~= personal_name(uid));
            Ok(Dir::Topdir(mountpoint, Topdir { shared: string_of(&shared), personal: string_of(&personal) }))
        }
    }

    /// The trash of every filesystem of the mount table text `table`, for user
    /// `uid`, each built on its own.
    pub fn all(table: &str, uid: u32, xdg_data_home: Option<&str>) -> (r: Result<Vec<Result<Dir, CustomError>>, CustomError>)
        ensures
            r is Ok <==> table_valid(table@) && xdg_data_home is Some && has_match(
                table_mounts(table@),
                home_of(xdg_data_home.unwrap()@),
            ),
            r matches Ok(v) ==> exists|ms: Seq<Mountpoint>|
                is_mount_list(ms, table@, home_of(xdg_data_home.unwrap()@)) && v@.len() == ms.len() && forall|k: int|
                    0 <= k < v@.len() ==> (#[trigger] v@[k] matches Ok(d) && mount_of(d) == ms[k] && is_dir_of(
                        d,
                        ms[k],
                        uid,
                        Some(home_of(xdg_data_home.unwrap()@)),
                    )),
    {
        let ms = mountpoints(table, xdg_data_home)?;
        let mut out: Vec<Result<Dir, CustomError>> = Vec::new();
        let mut k: usize = 0;
        while k < ms.len()
            invariant
                k <= ms@.len(),
                xdg_data_home is Some,
                out@.len() == k,
                forall|q: int|
                    0 <= q < k ==> (#[trigger] out@[q] matches Ok(d) && mount_of(d) == ms@[q] && is_dir_of(
                        d,
                        ms@[q],
                        uid,
                        Some(home_of(xdg_data_home.unwrap()@)),
                    )),
            decreases ms@.len() - k,
        {
            let d = Dir::new(ms[k].duplicate(), uid, xdg_data_home);
            out.push(d);
            k = k + 1;
        }
        assert(is_mount_list(ms@, table@, home_of(xdg_data_home.unwrap()@)));
        Ok(out)
    }

    /// The trash directories that this trash owns: one for the home trash, the
    /// shared and the personal one otherwise.
    pub fn paths(&self) -> (r: Vec<String>)
        ensures
            names(r@) == paths_of(*self),
    {
        let mut r: Vec<String> = Vec::new();
        match self {
            Dir::Home(_, p) => {
                r.push(p.clone());
            },
            Dir::Topdir(_, t) => {
                r.push(t.shared.clone());
                r.push(t.personal.clone());
            },
        }
        assert(names(r@) =~= paths_of(*self));
        r
    }

    /// The filesystem that this trash belongs to.
    pub fn mountpoint(&self) -> (r: Mountpoint)
        ensures
            r == mount_of(*self),
    {
        match self {
            Dir::Home(m, _) => m.duplicate(),
            Dir::Topdir(m, _) => m.duplicate(),
        }
    }

    /// The trash directories to try, in order, when trashing into this trash:
    /// the home trash alone, which must succeed; or the shared one, where
    /// `shared_allowed` holds of whether it is a symbolic link and of the mode
    /// of the directory holding it, and then the personal one, which must succeed.
    pub fn roots(&self, shared_is_symlink: bool, shared_parent_mode: u32) -> (r: Vec<Attempt>)
        ensures
            match *self {
                Dir::Home(_, p) => r@.len() == 1 && r@[0].root@ == p@ && r@[0].mandatory,
                Dir::Topdir(_, t) => if shared_allowed(shared_is_symlink, shared_parent_mode) {
                    r@.len() == 2 && r@[0].root@ == t.shared@ && !r@[0].mandatory && r@[1].root@ == t.personal@
                        && r@[1].mandatory
                } else {
                    r@.len() == 1 && r@[0].root@ == t.personal@ && r@[0].mandatory
                },
            },
    {
        let mut r: Vec<Attempt> = Vec::new();
        match self {
            Dir::Home(_, p) => {
                r.push(Attempt { root: p.clone(), mandatory: true });
            },
            Dir::Topdir(_, t) => {
                if !shared_is_symlink || shared_parent_mode & 0o1000u32 != 0 {
                    r.push(Attempt { root: t.shared.clone(), mandatory: false });
                }
                r.push(Attempt { root: t.personal.clone(), mandatory: true });
            },
        }
        r
    }

    /// A name for `file_name` that neither `files_taken` (the names under
    /// `files/`) nor `info_taken` (the names under `info/`, with `.trashinfo`)
    /// holds: the name itself, else the first of `<name>_0`, `<name>_1`, ...
    pub fn find_suitible_name(&self, file_name: &str, files_taken: &Vec<String>, info_taken: &Vec<String>) -> (r: Result<String, CustomError>)
        ensures
            r matches Ok(s) ==> is_first_free(file_name@, names(files_taken@), names(info_taken@), s@),
            r is Err <==> all_taken(file_name@, names(files_taken@), names(info_taken@)),
            r matches Err(e) ==> (e matches CustomError::UnableToFindSuitableName(n) && n@ == file_name@),
    {
        let n = chars_of(file_name);
        let files = name_chars(files_taken);
        let info = name_chars(info_taken);
        match first_free(&n, &files, &info) {
            Some(s) => {
                proof {
                    if all_taken(file_name@, names(files_taken@), names(info_taken@)) {
                        let i = choose|i: int|
                            -1 <= i < u32::MAX && s@ == candidate(n@, i) && is_free(s@, views(files@), views(info@))
                                && forall|j: int| -1 <= j < i ==> !is_free(#[trigger] candidate(n@, j), views(files@), views(info@));
                        assert(!is_free(candidate(n@, i), views(files@), views(info@)));
                    }
                }
                Ok(string_of(&s))
            },
            None => Err(CustomError::UnableToFindSuitableName(file_name.to_owned())),
        }
    }

    /// Where the file at absolute path `abs` goes in the trash directory `root`
    /// of this trash, trashed at `d`, the names `files_taken` and `info_taken`
    /// being in use: the path recorded is `abs` relative to this trash's
    /// mount; the name is the first free one for the last component of `abs`.
    pub fn place_at(
        &self,
        abs: &str,
        root: &str,
        files_taken: &Vec<String>,
        info_taken: &Vec<String>,
        d: DateTime,
    ) -> (r: Result<Placement, CustomError>)
        requires
            d.wf(),
        ensures
            ({
                let b = mount_of(*self).mountpoint@;
                &&& !is_path_prefix(b, abs@) ==> (r matches Err(e) && e matches CustomError::FileNotRelative(a, t)
                    && a@ == abs@ && t@ == root@)
                &&& is_path_prefix(b, abs@) && file_name(abs@) is None ==> (r matches Err(e)
                    && e matches CustomError::CouldNotRetrieveFileName(a) && a@ == abs@)
                &&& is_path_prefix(b, abs@) && file_name(abs@) is Some && all_taken(
                    file_name(abs@).unwrap(),
                    names(files_taken@),
                    names(info_taken@),
                ) ==> (r matches Err(e) && e matches CustomError::UnableToFindSuitableName(a) && a@ == file_name(
                    abs@,
                ).unwrap())
                &&& is_path_prefix(b, abs@) && file_name(abs@) is Some && !all_taken(
                    file_name(abs@).unwrap(),
                    names(files_taken@),
                    names(info_taken@),
                ) ==> r is Ok
                &&& r matches Ok(p) ==> placement_ok(p, abs@, b, root@, names(files_taken@), names(info_taken@), d)
            }),
    {
        let m = match self {
            Dir::Home(m, _) => m,
            Dir::Topdir(m, _) => m,
        };
        let b = chars_of(m.mountpoint.as_str());
        let a = chars_of(abs);
        if !path_starts_with(&a, &b) {
            return Err(CustomError::FileNotRelative(abs.to_owned(), root.to_owned()));
        }
        let rel = string_of(&strip_path_prefix(&a, &b));
        let entry = Entry { location: None, path: rel, datetime: d };
        let n = match last_component(&a) {
            Some(n) => string_of(&n),
            None => return Err(CustomError::CouldNotRetrieveFileName(abs.to_owned())),
        };
        let name = self.find_suitible_name(n.as_str(), files_taken, info_taken)?;
        let r = chars_of(root);
        let files = chars_of("files");
        let info = chars_of("info");
        proof {
            reveal_strlit("files");
            reveal_strlit("info");
            assert(files@ =~= seq!['f', 'i', 'l', 'e', 's']);
            assert(info@ =~= seq!['i', 'n', 'f', 'o']);
        }
        let name_chars = chars_of(name.as_str());
        let files_path = join_path(&join_path(&r, &files), &name_chars);
        let mut info_name = chars_of(name.as_str());
        push_all(&mut info_name, &suffix_chars());
        let info_path = join_path(&join_path(&r, &info), &info_name);
        Ok(Placement {
            name,
            info_path: string_of(&info_path),
            files_path: string_of(&files_path),
            metadata: entry.to_string(),
        })
    }

    /// Where the file `target` goes in the trash directory `root` of this
    /// trash: `target` made absolute again (it may have changed since the trash
    /// was chosen), then placed as `place_at` does, at `datetime` or now.
    pub fn placement(
        &self,
        target: &str,
        root: &str,
        files_taken: &Vec<String>,
        info_taken: &Vec<String>,
        datetime: Option<DateTime>,
    ) -> (r: Result<Placement, CustomError>)
        requires
            datetime matches Some(d) ==> d.wf(),
        ensures
            r matches Ok(p) ==> exists|abs: Seq<char>, d: DateTime|
                placement_ok(p, abs, mount_of(*self).mountpoint@, root@, names(files_taken@), names(info_taken@), d)
                    && (datetime matches Some(x) ==> d == x),
    {
        let abs = match absolutize(target) {
            Some(a) => a,
            None => return Err(CustomError::PathInvalidUnicode),
        };
        let d = match datetime {
            Some(d) => d,
            None => local_datetime()?,
        };
        self.place_at(abs.as_str(), root, files_taken, info_taken, d)
    }
}

} // verus!
