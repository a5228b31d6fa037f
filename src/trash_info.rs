//! The `.trashinfo` metadata record and its three-line text form.
use vstd::prelude::*;
use crate::datetime::{days_in_month, format_datetime, format_spec, lemma_datetime_round_trip, parse_datetime, parse_datetime_spec, DateTime};
use crate::errors::CustomError;
use crate::path::{file_name, file_stem, join, join_path, last_component, parent, parent_path, stem};
use crate::text::{chars_of, find_from, has_prefix, index_from, lemma_index_from, matches_at, push_all, slice, string_of};

verus! {

/// The first line of every metadata file.
pub open spec fn header() -> Seq<char> {
    seq!['[', 'T', 'r', 'a', 's', 'h', ' ', 'I', 'n', 'f', 'o', ']']
}

pub open spec fn path_key() -> Seq<char> {
    seq!['P', 'a', 't', 'h', '=']
}

pub open spec fn date_key() -> Seq<char> {
    seq!['D', 'e', 'l', 'e', 't', 'i', 'o', 'n', 'D', 'a', 't', 'e', '=']
}

/// The header line followed by the key of the second line.
pub open spec fn lead() -> Seq<char> {
    header().push('\n') + path_key()
}

/// The text form of a record with this path and date.
pub open spec fn serialized(path: Seq<char>, d: DateTime) -> Seq<char> {
    lead() + path + seq!['\n'] + date_key() + format_spec(d) + seq!['\n']
}

pub open spec fn no_newline(s: Seq<char>) -> bool {
    forall|i: int| 0 <= i < s.len() ==> s[i] != '\n'
}

/// The position of the first line break at or after `i`, or the length of `t`.
pub open spec fn line_end(t: Seq<char>, i: int) -> int {
    index_from(t, '\n', i)
}

/// The path and date held by the text `t`, if it is a metadata record: exactly
/// three lines (the last line break may be absent), the header, `Path=` with the
/// path, `DeletionDate=` with a date in the text form.
pub open spec fn parse_spec(t: Seq<char>) -> Option<(Seq<char>, DateTime)> {
    let j = line_end(t, 18);
    let k = line_end(t, j + 14);
    if has_prefix(t, lead()) && j < t.len() && has_prefix(t.subrange(j + 1, t.len() as int), date_key()) && (
    k == t.len() || k == t.len() - 1) {
        match parse_datetime_spec(t.subrange(j + 14, k)) {
            Some(d) => Some((t.subrange(18, j), d)),
            None => None,
        }
    } else {
        None
    }
}

/// Where the payload of the record stored at `location` lies: the `files`
/// directory beside the `info` directory, under the record's file stem.
pub open spec fn payload_of(location: Seq<char>) -> Option<Seq<char>> {
    match (file_name(location), parent(location)) {
        (Some(n), Some(info)) => match parent(info) {
            Some(root) => Some(join(join(root, seq!['f', 'i', 'l', 'e', 's']), stem(n))),
            None => None,
        },
        _ => None,
    }
}

/// One trashed item: the path it had, when it was trashed, and where its
/// metadata file lies (absent for a record not read from a file).
#[derive(Debug, Clone, PartialEq)]
pub struct Entry {
    pub location: Option<String>,
    pub path: String,
    pub datetime: DateTime,
}

/// Relies on `time::OffsetDateTime::now_local`: the local date and time now,
/// as year, month, day, hour, minute and second, when the local offset is known.
/// The fields lie in the ranges that `time`'s date and time types keep
/// (a valid calendar date; no leap second).
#[verifier::external_body]
fn local_now() -> (r: Option<(i32, u8, u8, u8, u8, u8)>)
    ensures
        r matches Some((y, mo, d, h, mi, s)) ==> -9999 <= y <= 9999 && 1 <= mo <= 12 && 1 <= d <= days_in_month(
            y as int,
            mo as int,
        ) && h < 24 && mi < 60 && s < 60,
{
    match time::OffsetDateTime::now_local() {
        Ok(t) => Some((t.year(), u8::from(t.month()), t.day(), t.hour(), t.minute(), t.second())),
        Err(_) => None,
    }
}

/// The local date and time now.
pub fn local_datetime() -> (r: Result<DateTime, CustomError>)
    ensures
        r matches Ok(d) ==> d.wf(),
        r matches Err(e) ==> e == CustomError::LocalTimeUnavailable,
{
    match local_now() {
        Some((y, mo, d, h, mi, s)) => match DateTime::new(y, mo, d, h, mi, s) {
            Some(d) => Ok(d),
            None => Err(CustomError::LocalTimeUnavailable),
        },
        None => Err(CustomError::LocalTimeUnavailable),
    }
}

fn lead_chars() -> (r: Vec<char>)
    ensures
        r@ == lead(),
{
    let r = chars_of("[Trash Info]\nPath=");
    proof {
        reveal_strlit("[Trash Info]\nPath=");
    }
    assert(r@ =~= lead());
    r
}

fn date_key_chars() -> (r: Vec<char>)
    ensures
        r@ == date_key(),
{
    let r = chars_of("DeletionDate=");
    proof {
        reveal_strlit("DeletionDate=");
    }
    assert(r@ =~= date_key());
    r
}

impl Entry {
    pub open spec fn wf(&self) -> bool {
        self.datetime.wf()
    }

    /// A fresh record of `path`, trashed at `datetime`, or now where that is absent.
    pub fn new(path: &str, datetime: Option<DateTime>) -> (r: Result<Entry, CustomError>)
        requires
            datetime matches Some(d) ==> d.wf(),
        ensures
            r matches Ok(e) ==> e.wf() && e.path@ == path@ && e.location is None,
            r matches Ok(e) ==> (datetime matches Some(d) ==> e.datetime == d),
            datetime is Some ==> r is Ok,
            r matches Err(e) ==> e == CustomError::LocalTimeUnavailable,
    {
        let d = match datetime {
            Some(d) => d,
            None => local_datetime()?,
        };
        Ok(Entry { location: None, path: path.to_owned(), datetime: d })
    }

    /// The text form: the header, `Path=` and `DeletionDate=` lines.
    pub fn to_string(&self) -> (r: String)
        requires
            self.wf(),
        ensures
            r@ == serialized(self.path@, self.datetime),
    {
        let mut out = lead_chars();
        let p = chars_of(self.path.as_str());
        push_all(&mut out, &p);
        out.push('\n');
        let k = date_key_chars();
        push_all(&mut out, &k);
        let d = format_datetime(&self.datetime);
        push_all(&mut out, &d);
        out.push('\n');
        assert(out@ =~= serialized(self.path@, self.datetime));
        string_of(&out)
    }

    /// The record held by the text `entry`, if it is one.
    pub fn parse(entry: &str) -> (r: Option<Entry>)
        ensures
            r is Some <==> parse_spec(entry@) is Some,
            r matches Some(e) ==> e.wf() && e.location is None && parse_spec(entry@) == Some((e.path@, e.datetime)),
    {
        let t = chars_of(entry);
        if t.len() < 18 {
            return None;
        }
        let lead = lead_chars();
        if !matches_at(&t, 0, &lead) {
            return None;
        }
        let j = find_from(&t, '\n', 18);
        if j == t.len() {
            return None;
        }
        let key = date_key_chars();
        let rest_has_key = matches_at(&t, j + 1, &key);
        proof {
            let rest = t@.subrange(j + 1, t@.len() as int);
            if j + 14 <= t@.len() {
                assert(rest.subrange(0, 13) =~= t@.subrange(j + 1, j + 14));
            }
        }
        if !rest_has_key {
            return None;
        }
        let k = find_from(&t, '\n', j + 14);
        if !(k == t.len() || k == t.len() - 1) {
            return None;
        }
        let date = slice(&t, j + 14, k);
        let d = match parse_datetime(&date) {
            Some(d) => d,
            None => return None,
        };
        let path = slice(&t, 18, j);
        Some(Entry { location: None, path: string_of(&path), datetime: d })
    }

    /// The record held by `contents`, read from the metadata file at `path`;
    /// an error naming the file where the text is no record.
    pub fn from_file(path: &str, contents: &str) -> (r: Result<Entry, CustomError>)
        ensures
            r is Ok <==> parse_spec(contents@) is Some,
            r matches Ok(e) ==> e.wf() && (e.location matches Some(l) && l@ == path@) && parse_spec(contents@)
                == Some((e.path@, e.datetime)),
            r matches Err(e) ==> e matches CustomError::TrashInfoParseFailure(l) && l@ == path@,
    {
        match Entry::parse(contents) {
            Some(e) => Ok(Entry { location: Some(path.to_owned()), path: e.path, datetime: e.datetime }),
            None => Err(CustomError::TrashInfoParseFailure(path.to_owned())),
        }
    }

    /// Where the payload of this record lies, derived from the location of its
    /// metadata file; none for a record not read from a file.
    pub fn file(&self) -> (r: Option<String>)
        ensures
            self.location is None ==> r is None,
            self.location matches Some(l) ==> (match payload_of(l@) {
                Some(p) => r matches Some(s) && s@ == p,
                None => r is None,
            }),
    {
        let l = match &self.location {
            Some(l) => chars_of(l.as_str()),
            None => return None,
        };
        let n = match last_component(&l) {
            Some(n) => n,
            None => return None,
        };
        let info = match parent_path(&l) {
            Some(i) => i,
            None => return None,
        };
        let root = match parent_path(&info) {
            Some(r) => r,
            None => return None,
        };
        let files = chars_of("files");
        proof {
            reveal_strlit("files");
            assert(files@ =~= seq!['f', 'i', 'l', 'e', 's']);
        }
        let dir = join_path(&root, &files);
        let s = file_stem(&n);
        Some(string_of(&join_path(&dir, &s)))
    }

    /// Whether the payload of this record is missing, given whether a file
    /// exists at the path that `file` returns.
    pub fn missing_file(&self, payload_exists: bool) -> (r: bool)
        ensures
            r == (payload_of_entry(self) is None || !payload_exists),
    {
        match self.file() {
            Some(_) => !payload_exists,
            None => true,
        }
    }
}

/// Where the payload of `e` lies, if it was read from a file.
pub open spec fn payload_of_entry(e: &Entry) -> Option<Seq<char>> {
    match e.location {
        Some(l) => payload_of(l@),
        None => None,
    }
}

/// Reading the text form of a record gives back its path and date.
pub proof fn lemma_round_trip(path: Seq<char>, d: DateTime)
    requires
        d.wf(),
        no_newline(path),
    ensures
        parse_spec(serialized(path, d)) == Some((path, d)),
{
    let t = serialized(path, d);
    let j: int = 18 + path.len() as int;
    lemma_datetime_round_trip(d);
    assert(format_spec(d).len() == 19);
    assert forall|k: int| 18 <= k < j implies t[k] != '\n' by {
        assert(t[k] == path[k - 18]);
    }
    lemma_index_from(t, '\n', 18, j);
    assert forall|k: int| j + 14 <= k < j + 33 implies t[k] != '\n' by {
        let f = format_spec(d);
        assert(t[k] == f[k - j - 14]);
        assert(parse_datetime_spec(f) is Some);
        assert(crate::datetime::separator_at(k - j - 14) is None ==> crate::text::is_digit(f[k - j - 14]));
    }
    lemma_index_from(t, '\n', j + 14, j + 33);
    assert(t.subrange(0, 18) =~= lead());
    assert(t.subrange(j + 1, t.len() as int).subrange(0, 13) =~= date_key());
    assert(t.subrange(j + 14, j + 33) =~= format_spec(d));
    assert(t.subrange(18, j) =~= path);
}

/// The header followed by its line break.
pub open spec fn header_line() -> Seq<char> {
    header().push('\n')
}

/// No line break lies between `i` and `j`, so the same line end is found from both.
proof fn lemma_same_line(t: Seq<char>, i: int, j: int)
    requires
        0 <= i <= j <= t.len(),
        forall|k: int| i <= k < j ==> t[k] != '\n',
    ensures
        line_end(t, i) == line_end(t, j),
    decreases j - i,
{
    if i < j {
        lemma_same_line(t, i + 1, j);
    }
}

/// Text whose first line is not the header holds no record.
pub proof fn lemma_wrong_header_rejected(t: Seq<char>)
    requires
        !has_prefix(t, header_line()),
    ensures
        parse_spec(t) is None,
{
    if has_prefix(t, lead()) {
        assert(t.subrange(0, 13) =~= t.subrange(0, 18).subrange(0, 13));
        assert(lead().subrange(0, 13) =~= header_line());
    }
}

/// Text whose second line does not begin with the key `Path` and `=` (it has
/// no `=`, or another key before its first `=`) holds no record.
pub proof fn lemma_wrong_path_line_rejected(t: Seq<char>)
    requires
        has_prefix(t, header_line()),
        !has_prefix(t.subrange(13, line_end(t, 13)), path_key()),
    ensures
        parse_spec(t) is None,
{
    if has_prefix(t, lead()) {
        assert forall|k: int| 13 <= k < 18 implies t[k] != '\n' by {
            assert(t[k] == lead()[k]);
        }
        lemma_same_line(t, 13, 18);
        crate::text::lemma_index_from_bounds(t, '\n', 18);
        assert(t.subrange(13, line_end(t, 13)).subrange(0, 5) =~= t.subrange(0, 18).subrange(13, 18));
        assert(lead().subrange(13, 18) =~= path_key());
    }
}

/// Text whose header and second line are in order, but whose third line does
/// not begin with the key `DeletionDate` and `=`, or whose date after that key
/// is not in the text form, holds no record.
pub proof fn lemma_wrong_date_line_rejected(t: Seq<char>)
    requires
        has_prefix(t, lead()),
        line_end(t, 18) < t.len(),
        !has_prefix(t.subrange(line_end(t, 18) + 1, line_end(t, line_end(t, 18) + 1)), date_key()) || parse_datetime_spec(
            t.subrange(line_end(t, 18) + 14, line_end(t, line_end(t, 18) + 14)),
        ) is None,
    ensures
        parse_spec(t) is None,
{
    let j = line_end(t, 18);
    crate::text::lemma_index_from_bounds(t, '\n', 18);
    let rest = t.subrange(j + 1, t.len() as int);
    if has_prefix(rest, date_key()) {
        assert forall|k: int| j + 1 <= k < j + 14 implies t[k] != '\n' by {
            assert(t[k] == rest[k - j - 1]);
            assert(rest[k - j - 1] == date_key()[k - j - 1]);
        }
        lemma_same_line(t, j + 1, j + 14);
        crate::text::lemma_index_from_bounds(t, '\n', j + 14);
        assert(t.subrange(j + 1, line_end(t, j + 1)).subrange(0, 13) =~= rest.subrange(0, 13));
    }
}

} // verus!
