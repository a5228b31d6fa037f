//! The mount table: its text form, and which filesystem holds the home trash.
use vstd::prelude::*;
use crate::errors::CustomError;
use crate::path::{is_path_prefix, path_starts_with};
use crate::text::{chars_of, find_from, index_from, lemma_index_from, lemma_index_from_bounds, push_all, slice, string_of};

verus! {

/// A mounted filesystem: its device, where it is mounted, and whether it holds
/// the home trash.
#[derive(Debug, Clone)]
pub struct Mountpoint {
    pub filesystem: String,
    pub mountpoint: String,
    pub contains_home: bool,
}

impl Mountpoint {
    /// A copy of this mount.
    pub fn duplicate(&self) -> (r: Mountpoint)
        ensures
            r == *self,
    {
        Mountpoint {
            filesystem: self.filesystem.clone(),
            mountpoint: self.mountpoint.clone(),
            contains_home: self.contains_home,
        }
    }
}

/// The device and mount path of `m`.
pub open spec fn mount_view(m: Mountpoint) -> (Seq<char>, Seq<char>) {
    (m.filesystem@, m.mountpoint@)
}

/// The devices and mount paths of `ms`, in order.
pub open spec fn mount_views(ms: Seq<Mountpoint>) -> Seq<(Seq<char>, Seq<char>)> {
    ms.map_values(|m: Mountpoint| mount_view(m))
}

/// The devices and mount paths that the lines of the table `t` give.
pub open spec fn table_fields(t: Seq<char>) -> Seq<(Seq<char>, Seq<char>)> {
    table_lines(t).map_values(|l: Seq<char>| mount_fields(l).unwrap())
}

/// Whether character `x` comes before `y` in the order of paths: the
/// separator comes before every other character, so that paths are ordered
/// component by component.
pub open spec fn char_before(x: char, y: char) -> bool {
    x != y && (x == '/' || (y != '/' && x < y))
}

/// Whether `a` comes no later than `b` in the order of paths.
pub open spec fn path_le(a: Seq<char>, b: Seq<char>) -> bool
    decreases a.len(),
{
    if a.len() == 0 {
        true
    } else if b.len() == 0 {
        false
    } else if a[0] != b[0] {
        char_before(a[0], b[0])
    } else {
        path_le(a.drop_first(), b.drop_first())
    }
}

/// Whether the paths `ps` are in ascending order.
pub open spec fn sorted_by_path(ps: Seq<Seq<char>>) -> bool {
    forall|i: int, j: int| 0 <= i < j < ps.len() ==> path_le(#[trigger] ps[i], #[trigger] ps[j])
}

/// Whether `ms` is what the mount table text `t` gives with the home trash at
/// `h`: the mounts of its lines, in ascending order of mount path, the one at
/// the longest component prefix of `h` marked.
pub open spec fn is_mount_list(ms: Seq<Mountpoint>, t: Seq<char>, h: Seq<char>) -> bool {
    &&& ms.len() == table_lines(t).len()
    &&& mount_views(ms).to_multiset() == table_fields(t).to_multiset()
    &&& sorted_by_path(mount_paths(ms))
    &&& forall|k: int| 0 <= k < ms.len() ==> (#[trigger] ms[k]).contains_home == is_longest_match(mount_paths(ms), h, k)
}

proof fn lemma_path_le_total(a: Seq<char>, b: Seq<char>)
    ensures
        path_le(a, b) || path_le(b, a),
    decreases a.len(),
{
    if a.len() > 0 && b.len() > 0 && a[0] == b[0] {
        lemma_path_le_total(a.drop_first(), b.drop_first());
    }
}

proof fn lemma_path_le_trans(a: Seq<char>, b: Seq<char>, c: Seq<char>)
    requires
        path_le(a, b),
        path_le(b, c),
    ensures
        path_le(a, c),
    decreases a.len(),
{
    if a.len() > 0 && b.len() > 0 && c.len() > 0 && a[0] == b[0] && b[0] == c[0] {
        lemma_path_le_trans(a.drop_first(), b.drop_first(), c.drop_first());
    }
}

/// Whether `a` comes no later than `b` in the order of paths.
fn path_le_exec(a: &Vec<char>, b: &Vec<char>) -> (r: bool)
    ensures
        r == path_le(a@, b@),
{
    let mut i: usize = 0;
    assert(a@.subrange(0, a@.len() as int) =~= a@);
    assert(b@.subrange(0, b@.len() as int) =~= b@);
    while i < a.len() && i < b.len() && a[i] == b[i]
        invariant
            i <= a@.len(),
            i <= b@.len(),
            path_le(a@, b@) == path_le(
                a@.subrange(i as int, a@.len() as int),
                b@.subrange(i as int, b@.len() as int),
            ),
        decreases a@.len() - i,
    {
        assert(a@.subrange(i as int, a@.len() as int).drop_first() =~= a@.subrange(i + 1, a@.len() as int));
        assert(b@.subrange(i as int, b@.len() as int).drop_first() =~= b@.subrange(i + 1, b@.len() as int));
        i = i + 1;
    }
    let ghost sa = a@.subrange(i as int, a@.len() as int);
    let ghost sb = b@.subrange(i as int, b@.len() as int);
    if i == a.len() {
        return true;
    }
    if i == b.len() {
        return false;
    }
    assert(sa[0] == a@[i as int] && sb[0] == b@[i as int]);
    assert(sa.len() > 0 && sb.len() > 0);
    assert(path_le(sa, sb) == char_before(sa[0], sb[0]));
    if a[i] == '/' {
        true
    } else if b[i] == '/' {
        false
    } else {
        a[i] < b[i]
    }
}

/// `ms` in ascending order of mount path, mounts of equal path in the order
/// they came.
pub fn sort_mounts(ms: Vec<Mountpoint>) -> (r: Vec<Mountpoint>)
    ensures
        r@.len() == ms@.len(),
        mount_views(r@).to_multiset() == mount_views(ms@).to_multiset(),
        sorted_by_path(mount_paths(r@)),
        forall|k: int| 0 <= k < r@.len() ==> ms@.contains(#[trigger] r@[k]),
{
    broadcast use vstd::seq_lib::to_multiset_insert;

    let mut out: Vec<Mountpoint> = Vec::new();
    let mut i: usize = 0;
    assert(mount_views(out@) =~= mount_views(ms@.subrange(0, 0)));
    while i < ms.len()
        invariant
            i <= ms@.len(),
            out@.len() == i,
            mount_views(out@).to_multiset() == mount_views(ms@.subrange(0, i as int)).to_multiset(),
            sorted_by_path(mount_paths(out@)),
            forall|k: int| 0 <= k < out@.len() ==> ms@.contains(#[trigger] out@[k]),
        decreases ms@.len() - i,
    {
        let x = ms[i].duplicate();
        let xp = chars_of(x.mountpoint.as_str());
        let mut k: usize = 0;
        while k < out.len() && path_le_exec(&chars_of(out[k].mountpoint.as_str()), &xp)
            invariant
                k <= out@.len(),
                xp@ == x.mountpoint@,
                forall|q: int| 0 <= q < k ==> path_le(#[trigger] out@[q].mountpoint@, x.mountpoint@),
            decreases out@.len() - k,
        {
            k = k + 1;
        }
        let ghost old_out = out@;
        let ghost ps = mount_paths(old_out);
        proof {
            if k < old_out.len() {
                lemma_path_le_total(old_out[k as int].mountpoint@, x.mountpoint@);
            }
        }
        out.insert(k, x);
        proof {
            assert(mount_views(out@) =~= mount_views(old_out).insert(k as int, mount_view(x)));
            assert(mount_views(ms@.subrange(0, i + 1)) =~= mount_views(ms@.subrange(0, i as int)).insert(
                i as int,
                mount_view(ms@[i as int]),
            ));
            vstd::seq_lib::to_multiset_insert(mount_views(old_out), k as int, mount_view(x));
            vstd::seq_lib::to_multiset_insert(
                mount_views(ms@.subrange(0, i as int)),
                i as int,
                mount_view(ms@[i as int]),
            );
            assert(mount_views(out@).to_multiset() == mount_views(old_out).to_multiset().insert(mount_view(x)));
            assert(mount_views(ms@.subrange(0, i + 1)).to_multiset() == mount_views(
                ms@.subrange(0, i as int),
            ).to_multiset().insert(mount_view(ms@[i as int])));
            assert(ms@.contains(ms@[i as int]));
            let np = mount_paths(out@);
            assert forall|a: int, b: int| 0 <= a < b < np.len() implies path_le(#[trigger] np[a], #[trigger] np[b]) by {
                if b < k {
                    assert(np[a] == ps[a] && np[b] == ps[b]);
                } else if b == k {
                    assert(np[a] == old_out[a].mountpoint@);
                } else if a == k {
                    assert(np[b] == ps[b - 1]);
                    if b - 1 > k {
                        assert(path_le(ps[k as int], ps[b - 1]));
                        lemma_path_le_trans(x.mountpoint@, ps[k as int], ps[b - 1]);
                    }
                } else if a < k {
                    assert(np[a] == ps[a] && np[b] == ps[b - 1]);
                } else {
                    assert(np[a] == ps[a - 1] && np[b] == ps[b - 1]);
                }
            }
            assert forall|q: int| 0 <= q < out@.len() implies ms@.contains(#[trigger] out@[q]) by {
                if q < k {
                    assert(out@[q] == old_out[q]);
                } else if q > k {
                    assert(out@[q] == old_out[q - 1]);
                }
            }
        }
        i = i + 1;
    }
    assert(ms@.subrange(0, i as int) =~= ms@);
    out
}

/// The home trash directory below the base data directory `x`.
pub open spec fn home_of(x: Seq<char>) -> Seq<char> {
    x + seq!['/', 'T', 'r', 'a', 's', 'h']
}

/// The mount paths that the lines of the table `t` give.
pub open spec fn table_mounts(t: Seq<char>) -> Seq<Seq<char>> {
    table_lines(t).map_values(|l: Seq<char>| mount_fields(l).unwrap().1)
}

/// The lines of `t`: the pieces between line breaks, with no piece after a
/// final line break.
pub open spec fn table_lines(t: Seq<char>) -> Seq<Seq<char>>
    decreases t.len(),
{
    let j = index_from(t, '\n', 0);
    if t.len() == 0 {
        Seq::empty()
    } else if j < 0 || j >= t.len() {
        seq![t]
    } else {
        seq![t.subrange(0, j)] + table_lines(t.subrange(j + 1, t.len() as int))
    }
}

/// The device and mount path of a mount table line: the first field and the
/// second, fields being separated by single spaces; none where the line has no space.
pub open spec fn mount_fields(l: Seq<char>) -> Option<(Seq<char>, Seq<char>)> {
    let a = index_from(l, ' ', 0);
    if a >= l.len() {
        None
    } else {
        Some((l.subrange(0, a), l.subrange(a + 1, index_from(l, ' ', a + 1))))
    }
}

/// Whether every line of the table `t` has a device and a mount path.
pub open spec fn table_valid(t: Seq<char>) -> bool {
    forall|i: int| 0 <= i < table_lines(t).len() ==> (#[trigger] mount_fields(table_lines(t)[i])) is Some
}

/// Whether `m` is the mount that line `l` describes, not yet marked as home.
pub open spec fn mount_of_line(m: Mountpoint, l: Seq<char>) -> bool {
    &&& mount_fields(l) matches Some((d, p))
    &&& m.filesystem@ == d
    &&& m.mountpoint@ == p
    &&& !m.contains_home
}

/// The mount paths of `ms`, in order.
pub open spec fn mount_paths(ms: Seq<Mountpoint>) -> Seq<Seq<char>> {
    ms.map_values(|m: Mountpoint| m.mountpoint@)
}

/// Whether `ps[i]` is the longest of the paths that are component prefixes of
/// `t`, the last of them among equally long ones.
pub open spec fn is_longest_match(ps: Seq<Seq<char>>, t: Seq<char>, i: int) -> bool {
    &&& 0 <= i < ps.len()
    &&& is_path_prefix(ps[i], t)
    &&& forall|j: int|
        0 <= j < ps.len() && is_path_prefix(#[trigger] ps[j], t) ==> ps[j].len() < ps[i].len() || (ps[j].len()
            == ps[i].len() && j <= i)
}

/// Whether some path of `ps` is a component prefix of `t`.
pub open spec fn has_match(ps: Seq<Seq<char>>, t: Seq<char>) -> bool {
    exists|j: int| 0 <= j < ps.len() && is_path_prefix(#[trigger] ps[j], t)
}

/// The views of a vector of character vectors.
pub open spec fn views(ps: Seq<Vec<char>>) -> Seq<Seq<char>> {
    ps.map_values(|v: Vec<char>| v@)
}

/// At most one path is the longest match.
pub proof fn lemma_longest_match_unique(ps: Seq<Seq<char>>, t: Seq<char>, i: int, k: int)
    requires
        is_longest_match(ps, t, i),
        is_longest_match(ps, t, k),
    ensures
        i == k,
{
    assert(is_path_prefix(ps[k], t));
    assert(is_path_prefix(ps[i], t));
}

/// The index of the longest path of `ps` that is a component prefix of `t`.
pub fn longest_match(ps: &Vec<Vec<char>>, t: &Vec<char>) -> (r: Option<usize>)
    ensures
        r matches Some(i) ==> is_longest_match(views(ps@), t@, i as int),
        r is None ==> !has_match(views(ps@), t@),
{
    let ghost vs = views(ps@);
    let mut best: Option<usize> = None;
    let mut i: usize = 0;
    while i < ps.len()
        invariant
            i <= ps@.len(),
            vs == views(ps@),
            best is None ==> forall|j: int| 0 <= j < i ==> !is_path_prefix(#[trigger] vs[j], t@),
            best matches Some(b) ==> b < i && is_path_prefix(vs[b as int], t@) && forall|j: int|
                0 <= j < i && is_path_prefix(#[trigger] vs[j], t@) ==> vs[j].len() < vs[b as int].len() || (
                vs[j].len() == vs[b as int].len() && j <= b),
        decreases ps@.len() - i,
    {
        if path_starts_with(t, &ps[i]) {
            best = match best {
                None => Some(i),
                Some(b) => if ps[i].len() >= ps[b].len() {
                    Some(i)
                } else {
                    Some(b)
                },
            };
        }
        i = i + 1;
    }
    best
}

/// The mounts described by the mount table text `table`, in the order of its
/// lines; an error naming `source` where a line lacks a device or a mount path.
pub fn parse_mount_table(table: &str, source: &str) -> (r: Result<Vec<Mountpoint>, CustomError>)
    ensures
        r is Ok <==> table_valid(table@),
        r matches Ok(v) ==> v@.len() == table_lines(table@).len() && forall|i: int|
            0 <= i < v@.len() ==> mount_of_line(#[trigger] v@[i], table_lines(table@)[i]),
        r matches Err(e) ==> (e matches CustomError::FileParseFailed(s) && s@ == source@),
{
    let t = chars_of(table);
    let mut out: Vec<Mountpoint> = Vec::new();
    let mut pos: usize = 0;
    let ghost done: Seq<Seq<char>> = Seq::empty();
    assert(t@.subrange(0, t@.len() as int) =~= t@);
    while pos < t.len()
        invariant
            pos <= t@.len(),
            t@ == table@,
            table_lines(t@) == done + table_lines(t@.subrange(pos as int, t@.len() as int)),
            out@.len() == done.len(),
            forall|i: int| 0 <= i < done.len() ==> mount_of_line(#[trigger] out@[i], done[i]),
        decreases t@.len() - pos,
    {
        let j = find_from(&t, '\n', pos);
        let line = slice(&t, pos, j);
        let ghost rest = t@.subrange(pos as int, t@.len() as int);
        proof {
            lemma_index_from_bounds(t@, '\n', pos as int);
            assert forall|k: int| 0 <= k < j - pos implies rest[k] != '\n' by {
                assert(rest[k] == t@[pos + k]);
            }
            lemma_index_from(rest, '\n', 0, j - pos);
            if j < t@.len() {
                assert(rest.subrange(0, j - pos) =~= line@);
                assert(rest.subrange(j - pos + 1, rest.len() as int) =~= t@.subrange(j + 1, t@.len() as int));
            } else {
                assert(rest =~= line@);
            }
        }
        let a = find_from(&line, ' ', 0);
        if a == line.len() {
            proof {
                assert(table_lines(t@)[done.len() as int] == line@);
                assert(mount_fields(table_lines(t@)[done.len() as int]) is None);
            }
            return Err(CustomError::FileParseFailed(source.to_owned()));
        }
        let b = find_from(&line, ' ', a + 1);
        let device = slice(&line, 0, a);
        let mount = slice(&line, a + 1, b);
        out.push(Mountpoint { filesystem: string_of(&device), mountpoint: string_of(&mount), contains_home: false });
        proof {
            done = done.push(line@);
            if j < t@.len() {
                assert(table_lines(t@) =~= done + table_lines(t@.subrange(j + 1, t@.len() as int)));
            } else {
                assert(t@.subrange(t@.len() as int, t@.len() as int) =~= Seq::<char>::empty());
                assert(table_lines(t@) =~= done + table_lines(t@.subrange(t@.len() as int, t@.len() as int)));
            }
        }
        pos = if j < t.len() {
            j + 1
        } else {
            j
        };
    }
    proof {
        assert(table_lines(t@.subrange(pos as int, t@.len() as int)) =~= Seq::<Seq<char>>::empty());
        assert(table_lines(t@) =~= done);
        assert forall|i: int| 0 <= i < table_lines(t@).len() implies (#[trigger] mount_fields(
            table_lines(t@)[i],
        )) is Some by {
            assert(mount_of_line(out@[i], done[i]));
        }
    }
    Ok(out)
}

/// The home trash directory `<data home>/Trash`, from the configured base
/// data directory (`XDG_DATA_HOME`), which must be set.
pub fn get_home_trash_dir(xdg_data_home: Option<&str>) -> (r: Result<String, CustomError>)
    ensures
        xdg_data_home matches Some(x) ==> (r matches Ok(s) && s@ == home_of(x@)),
        xdg_data_home is None ==> (r matches Err(e) && e matches CustomError::ConfigurationMissing(n) && n@
            == seq!['X', 'D', 'G', '_', 'D', 'A', 'T', 'A', '_', 'H', 'O', 'M', 'E']),
{
    match xdg_data_home {
        Some(x) => {
            let mut out = chars_of(x);
            let tail = chars_of("/Trash");
            proof {
                reveal_strlit("/Trash");
            }
            push_all(&mut out, &tail);
            assert(out@ =~= x@ + seq!['/', 'T', 'r', 'a', 's', 'h']);
            Ok(string_of(&out))
        },
        None => {
            let n = chars_of("XDG_DATA_HOME");
            proof {
                reveal_strlit("XDG_DATA_HOME");
            }
            assert(n@ =~= seq!['X', 'D', 'G', '_', 'D', 'A', 'T', 'A', '_', 'H', 'O', 'M', 'E']);
            Err(CustomError::ConfigurationMissing(string_of(&n)))
        },
    }
}

/// The mount paths of `ms` as characters.
fn mount_path_chars(ms: &Vec<Mountpoint>) -> (r: Vec<Vec<char>>)
    ensures
        views(r@) == mount_paths(ms@),
{
    let mut r: Vec<Vec<char>> = Vec::new();
    let mut i: usize = 0;
    while i < ms.len()
        invariant
            i <= ms@.len(),
            views(r@) =~= mount_paths(ms@).subrange(0, i as int),
        decreases ms@.len() - i,
    {
        let c = chars_of(ms[i].mountpoint.as_str());
        let ghost before = r@;
        r.push(c);
        assert(r@ == before.push(c));
        assert(views(r@) =~= views(before).push(c@));
        i = i + 1;
        assert(views(r@) =~= mount_paths(ms@).subrange(0, i as int));
    }
    assert(mount_paths(ms@).subrange(0, i as int) =~= mount_paths(ms@));
    r
}

/// Marks as holding the home trash the mount whose path is the longest
/// component prefix of `home_trash` (the last such mount of the table where
/// several have that path); an error where no mount path is such a prefix.
pub fn mark_home(mounts: Vec<Mountpoint>, home_trash: &str) -> (r: Result<Vec<Mountpoint>, CustomError>)
    ensures
        r is Err <==> !has_match(mount_paths(mounts@), home_trash@),
        r matches Err(e) ==> e == CustomError::HomeTrashNotDetermined(0),
        r matches Ok(v) ==> v@.len() == mounts@.len() && forall|k: int|
            0 <= k < v@.len() ==> (#[trigger] v@[k]).filesystem@ == mounts@[k].filesystem@ && v@[k].mountpoint@
                == mounts@[k].mountpoint@ && v@[k].contains_home == is_longest_match(
                mount_paths(mounts@),
                home_trash@,
                k,
            ),
{
    let paths = mount_path_chars(&mounts);
    let home = chars_of(home_trash);
    let best = match longest_match(&paths, &home) {
        Some(b) => b,
        None => return Err(CustomError::HomeTrashNotDetermined(0)),
    };
    let ghost ps = mount_paths(mounts@);
    let mut out: Vec<Mountpoint> = Vec::new();
    let mut k: usize = 0;
    while k < mounts.len()
        invariant
            k <= mounts@.len(),
            ps == mount_paths(mounts@),
            is_longest_match(ps, home_trash@, best as int),
            out@.len() == k,
            forall|q: int|
                0 <= q < k ==> (#[trigger] out@[q]).filesystem@ == mounts@[q].filesystem@ && out@[q].mountpoint@
                    == mounts@[q].mountpoint@ && out@[q].contains_home == is_longest_match(ps, home_trash@, q),
        decreases mounts@.len() - k,
    {
        let m = &mounts[k];
        let fs = chars_of(m.filesystem.as_str());
        let mp = chars_of(m.mountpoint.as_str());
        proof {
            if is_longest_match(ps, home_trash@, k as int) {
                lemma_longest_match_unique(ps, home_trash@, k as int, best as int);
            }
        }
        out.push(Mountpoint { filesystem: string_of(&fs), mountpoint: string_of(&mp), contains_home: k == best });
        k = k + 1;
    }
    Ok(out)
}

/// Mounts with the same devices and paths, in any order, hold a component
/// prefix of `h` alike.
proof fn lemma_has_match_same_multiset(a: Seq<(Seq<char>, Seq<char>)>, b: Seq<(Seq<char>, Seq<char>)>, h: Seq<char>)
    requires
        a.to_multiset() == b.to_multiset(),
    ensures
        has_match(a.map_values(|p: (Seq<char>, Seq<char>)| p.1), h) ==> has_match(
            b.map_values(|p: (Seq<char>, Seq<char>)| p.1),
            h,
        ),
{
    broadcast use vstd::seq_lib::to_multiset_contains;

    let pa = a.map_values(|p: (Seq<char>, Seq<char>)| p.1);
    let pb = b.map_values(|p: (Seq<char>, Seq<char>)| p.1);
    if has_match(pa, h) {
        let j = choose|j: int| 0 <= j < pa.len() && is_path_prefix(#[trigger] pa[j], h);
        assert(a.contains(a[j]));
        assert(a.to_multiset().count(a[j]) > 0);
        assert(b.contains(a[j]));
        let k = choose|k: int| 0 <= k < b.len() && b[k] == a[j];
        assert(pb[k] == pa[j]);
    }
}

/// The mounts of the mount table text `table`, in ascending order of mount
/// path, the one holding the home trash (below the base data directory
/// `xdg_data_home`) marked.
pub fn mountpoints(table: &str, xdg_data_home: Option<&str>) -> (r: Result<Vec<Mountpoint>, CustomError>)
    ensures
        !table_valid(table@) ==> (r matches Err(e) && e matches CustomError::FileParseFailed(s) && s@
            == "/proc/mounts"@),
        table_valid(table@) && xdg_data_home is None ==> (r matches Err(e) && e matches CustomError::ConfigurationMissing(_)),
        table_valid(table@) && xdg_data_home is Some ==> (r is Ok <==> has_match(
            table_mounts(table@),
            home_of(xdg_data_home.unwrap()@),
        )),
        table_valid(table@) && xdg_data_home is Some && !has_match(
            table_mounts(table@),
            home_of(xdg_data_home.unwrap()@),
        ) ==> r == Err::<Vec<Mountpoint>, CustomError>(CustomError::HomeTrashNotDetermined(0)),
        r matches Ok(v) ==> xdg_data_home is Some && is_mount_list(v@, table@, home_of(xdg_data_home.unwrap()@)),
{
    let parsed = parse_mount_table(table, "/proc/mounts")?;
    let sorted = sort_mounts(parsed);
    let home = get_home_trash_dir(xdg_data_home)?;
    let ghost h = home@;
    proof {
        assert(mount_views(parsed@) =~= table_fields(table@)) by {
            assert forall|k: int| 0 <= k < parsed@.len() implies mount_views(parsed@)[k] == table_fields(table@)[k] by {
                assert(mount_of_line(parsed@[k], table_lines(table@)[k]));
            }
        }
        let mv = mount_views(sorted@);
        let tf = table_fields(table@);
        assert(mount_paths(sorted@) =~= mv.map_values(|p: (Seq<char>, Seq<char>)| p.1));
        assert(table_mounts(table@) =~= tf.map_values(|p: (Seq<char>, Seq<char>)| p.1));
        lemma_has_match_same_multiset(mv, tf, h);
        lemma_has_match_same_multiset(tf, mv, h);
    }
    let marked = mark_home(sorted, home.as_str());
    proof {
        if marked is Ok {
            let v = marked->Ok_0;
            assert(mount_views(v@) =~= mount_views(sorted@));
            assert(mount_paths(v@) =~= mount_paths(sorted@));
        }
    }
    marked
}

} // verus!
