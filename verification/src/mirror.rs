//! The pruned registry index: where a package's file lives, and which of its
//! lines are kept.

use crate::exclusion::texts;
use crate::records::{info_views, CrateInformation, InfoView};
use crate::text::same_text;
use vstd::prelude::*;
use vstd::string::*;
use vstd::utf8::is_ascii_chars;

verus! {

/// The relative path of a package's index file, as the registry lays its
/// index out: by the length of the name for names of up to three characters,
/// by the first two pairs of characters for longer ones.
pub open spec fn shard_of(name: Seq<char>) -> Seq<char> {
    if name.len() == 1 {
        seq!['1', '/'] + name
    } else if name.len() == 2 {
        seq!['2', '/'] + name
    } else if name.len() == 3 {
        seq!['3', '/'] + name.subrange(0, 1) + seq!['/'] + name
    } else {
        name.subrange(0, 2) + seq!['/'] + name.subrange(2, 4) + seq!['/'] + name
    }
}

/// A name that has an index file: not empty, and ASCII throughout.
pub open spec fn is_index_name(name: Seq<char>) -> bool {
    name.len() > 0 && is_ascii_chars(name)
}

/// Computes the path of the index file of `name` below the root of an index.
pub fn prefix_path(name: &str) -> (path: String)
    requires
        is_index_name(name@),
    ensures
        path@ == shard_of(name@),
{
    proof {
        is_ascii_spec_bytes(name);
        reveal_strlit("1");
        reveal_strlit("2");
        reveal_strlit("3/");
        reveal_strlit("/");
    }
    let len = name.as_bytes().len();
    let mut s = String::new();
    if len == 1 {
        s.append("1");
    } else if len == 2 {
        s.append("2");
    } else if len == 3 {
        s.append("3/");
        s.append(name.substring_ascii(0, 1));
    } else {
        s.append(name.substring_ascii(0, 2));
        s.append("/");
        s.append(name.substring_ascii(2, 4));
    }
    s.append("/");
    s.append(name);
    s
}

/// Why no path could be made for a name.
#[derive(Clone, Copy, Debug, PartialEq, Eq, Structural)]
pub enum ShardError {
    /// The name is empty.
    EmptyName,
    /// The name holds a character that is not ASCII.
    NotAscii,
}

/// Computes the path of the index file of `name`, or says why `name` has
/// none.
pub fn shard_path(name: &str) -> (path: Result<String, ShardError>)
    ensures
        match path {
            Ok(p) => is_index_name(name@) && p@ == shard_of(name@),
            Err(ShardError::EmptyName) => name@.len() == 0,
            Err(ShardError::NotAscii) => name@.len() > 0 && !is_ascii_chars(name@),
        },
{
    if name.is_empty() {
        Err(ShardError::EmptyName)
    } else if !name.is_ascii() {
        Err(ShardError::NotAscii)
    } else {
        Ok(prefix_path(name))
    }
}

/// The byte that ends a line.
pub open spec fn newline() -> u8 {
    10u8
}

/// The byte that, just before the end of a line, belongs to the line's end.
pub open spec fn carriage_return() -> u8 {
    13u8
}

/// The position of the first newline in `data`, or the length of `data`
/// where it holds none.
pub open spec fn first_newline(data: Seq<u8>) -> int
    decreases data.len(),
{
    if data.len() == 0 {
        0
    } else if data[0] == newline() {
        0
    } else {
        1 + first_newline(data.drop_first())
    }
}

/// A line without the carriage return at its end, if it has one there.
pub open spec fn without_return(line: Seq<u8>) -> Seq<u8> {
    if line.len() > 0 && line.last() == carriage_return() {
        line.drop_last()
    } else {
        line
    }
}

/// The lines of a file. Each newline ends a line; a carriage return just
/// before it belongs to the line's end. What follows the last newline is a
/// line too, unless it is empty.
pub open spec fn lines_of(data: Seq<u8>) -> Seq<Seq<u8>>
    decreases data.len(),
{
    if data.len() == 0 {
        Seq::<Seq<u8>>::empty()
    } else {
        let end = first_newline(data);
        if 0 <= end < data.len() {
            seq![without_return(data.subrange(0, end))] + lines_of(
                data.subrange(end + 1, data.len() as int),
            )
        } else {
            seq![data]
        }
    }
}

/// The contents of a list of byte vectors.
pub open spec fn byte_lines(lines: Seq<Vec<u8>>) -> Seq<Seq<u8>> {
    Seq::new(lines.len(), |i: int| lines[i]@)
}

proof fn lemma_first_newline(data: Seq<u8>, end: int)
    requires
        0 <= end <= data.len(),
        forall|k: int| 0 <= k < end ==> data[k] != newline(),
        end < data.len() ==> data[end] == newline(),
    ensures
        first_newline(data) == end,
    decreases data.len(),
{
    if data.len() > 0 && end > 0 {
        let rest = data.drop_first();
        lemma_first_newline(rest, end - 1);
    }
}

/// Splits a file into its lines.
pub fn split_lines(data: &[u8]) -> (lines: Vec<Vec<u8>>)
    ensures
        byte_lines(lines@) == lines_of(data@),
{
    let mut lines: Vec<Vec<u8>> = Vec::new();
    let mut current: Vec<u8> = Vec::new();
    let mut start: usize = 0;
    let mut j: usize = 0;
    assert(data@.subrange(0, data@.len() as int) =~= data@);
    while j < data.len()
        invariant
            start <= j <= data@.len(),
            current@ == data@.subrange(start as int, j as int),
            forall|k: int| start <= k < j ==> data@[k] != newline(),
            lines_of(data@) == byte_lines(lines@) + lines_of(
                data@.subrange(start as int, data@.len() as int),
            ),
        decreases data@.len() - j,
    {
        let b = data[j];
        if b == 10u8 {
            let ghost rest = data@.subrange(start as int, data@.len() as int);
            let ghost whole = current@;
            proof {
                lemma_first_newline(rest, j - start);
                assert(rest.subrange(0, j - start) =~= whole);
                assert(rest.subrange(j - start + 1, rest.len() as int) =~= data@.subrange(
                    j + 1,
                    data@.len() as int,
                ));
            }
            if current.len() > 0 && current[current.len() - 1] == 13u8 {
                current.pop();
            }
            lines.push(current);
            current = Vec::new();
            start = j + 1;
        } else {
            current.push(b);
        }
        j = j + 1;
    }
    let ghost rest = data@.subrange(start as int, data@.len() as int);
    if start < data.len() {
        proof {
            lemma_first_newline(rest, rest.len() as int);
        }
        lines.push(current);
    }
    lines
}

/// The text that a record of an index file holds in the field `field`: `None`
/// where the line is no JSON value, or no object with a text in that field.
pub uninterp spec fn record_field(line: Seq<u8>, field: Seq<char>) -> Option<Seq<char>>;

/// The text of a string that may be there.
pub open spec fn text_of(field: Option<String>) -> Option<Seq<char>> {
    match field {
        Some(text) => Some(text@),
        None => None,
    }
}

/// Parses `line` with `serde_json::from_slice` as a `serde_json::Value`,
/// looks `field` up with `Value::get` and reads it with `Value::as_str`.
/// Nothing is proved of the result: it is what those functions give, under
/// the name [`record_field`], and `None` where one of them gives nothing.
#[verifier::external_body]
fn read_field(line: &[u8], field: &str) -> (found: Option<String>)
    ensures
        text_of(found) == record_field(line@, field@),
{
    let value: serde_json::Value = match serde_json::from_slice(line) {
        Ok(value) => value,
        Err(_) => {
            return None;
        },
    };
    match value.get(field) {
        Some(inner) => match inner.as_str() {
            Some(text) => Some(text.to_string()),
            None => None,
        },
        None => None,
    }
}

/// Whether a record of an index file is that of the version `version`: its
/// field `vers` holds exactly that text.
pub open spec fn is_record_of(line: Seq<u8>, version: Seq<char>) -> bool {
    record_field(line, "vers"@) == Some(version)
}

/// Whether the text read from a record's version field is the version asked
/// for. The two are compared as texts, not as versions.
pub fn field_is(field: &Option<String>, version: &str) -> (same: bool)
    ensures
        same == (text_of(*field) == Some(version@)),
{
    match field {
        Some(text) => same_text(text.as_str(), version),
        None => false,
    }
}

/// Whether `i` is the first line that is a record of `version`.
pub open spec fn is_first_record(lines: Seq<Seq<u8>>, version: Seq<char>, i: int) -> bool {
    &&& 0 <= i < lines.len()
    &&& is_record_of(lines[i], version)
    &&& forall|j: int| 0 <= j < i ==> !is_record_of(#[trigger] lines[j], version)
}

/// The first line that is a record of `version`, if there is one.
pub open spec fn first_record(lines: Seq<Seq<u8>>, version: Seq<char>) -> Option<int> {
    if exists|i: int| is_first_record(lines, version, i) {
        Some(choose|i: int| is_first_record(lines, version, i))
    } else {
        None
    }
}

/// Finds the first line that is a record of `version`. The lines behind it
/// are not looked at.
pub fn find_version_line(lines: &Vec<Vec<u8>>, version: &str) -> (found: Option<usize>)
    ensures
        match found {
            Some(i) => first_record(byte_lines(lines@), version@) == Some(i as int)
                && is_first_record(byte_lines(lines@), version@, i as int),
            None => first_record(byte_lines(lines@), version@) is None && forall|j: int|
                0 <= j < lines@.len() ==> !is_record_of((#[trigger] lines@[j])@, version@),
        },
{
    let ghost all = byte_lines(lines@);
    let mut i: usize = 0;
    while i < lines.len()
        invariant
            i <= lines@.len(),
            all == byte_lines(lines@),
            forall|j: int| 0 <= j < i ==> !is_record_of(#[trigger] all[j], version@),
        decreases lines@.len() - i,
    {
        let field = read_field(lines[i].as_slice(), "vers");
        if field_is(&field, version) {
            assert(is_first_record(all, version@, i as int));
            return Some(i);
        }
        i = i + 1;
    }
    proof {
        assert forall|j: int| 0 <= j < lines@.len() implies !is_record_of(
            (#[trigger] lines@[j])@,
            version@,
        ) by {
            assert(all[j] == lines@[j]@);
        }
    }
    None
}

/// The lines kept for a list of versions: for each version in turn its first
/// record, where the file has one.
pub open spec fn selected_lines(lines: Seq<Seq<u8>>, versions: Seq<Seq<char>>) -> Seq<Seq<u8>>
    decreases versions.len(),
{
    if versions.len() == 0 {
        Seq::<Seq<u8>>::empty()
    } else {
        let front = selected_lines(lines, versions.drop_last());
        match first_record(lines, versions.last()) {
            Some(i) => front.push(lines[i]),
            None => front,
        }
    }
}

/// Lines put together with a newline between each two, and none at the end.
pub open spec fn joined(lines: Seq<Seq<u8>>) -> Seq<u8>
    decreases lines.len(),
{
    if lines.len() == 0 {
        Seq::<u8>::empty()
    } else if lines.len() == 1 {
        lines[0]
    } else {
        joined(lines.drop_last()) + seq![newline()] + lines.last()
    }
}

/// What goes into the mirror for one package: the pruned file, and the
/// number of lines in it.
pub struct MirrorFile {
    pub contents: Vec<u8>,
    pub lines: usize,
}

fn append_bytes(out: &mut Vec<u8>, bytes: &Vec<u8>)
    ensures
        final(out)@ == old(out)@ + bytes@,
{
    let mut k: usize = 0;
    while k < bytes.len()
        invariant
            k <= bytes@.len(),
            out@ == old(out)@ + bytes@.subrange(0, k as int),
        decreases bytes@.len() - k,
    {
        out.push(bytes[k]);
        k = k + 1;
    }
}

/// Prunes the index file of one package: of the file `data`, keeps for each
/// of `versions` the first line that is a record of that version, unchanged,
/// and nothing for a version that has no record.
pub fn mirror_contents(data: &[u8], versions: &Vec<String>) -> (file: MirrorFile)
    ensures
        file.contents@ == joined(selected_lines(lines_of(data@), texts(versions@))),
        file.lines == selected_lines(lines_of(data@), texts(versions@)).len(),
        file.lines <= versions@.len(),
{
    let lines = split_lines(data);
    let ghost all = lines_of(data@);
    let ghost wanted = texts(versions@);
    let mut contents: Vec<u8> = Vec::new();
    let mut count: usize = 0;
    let mut v: usize = 0;
    while v < versions.len()
        invariant
            v <= versions@.len(),
            all == byte_lines(lines@),
            wanted == texts(versions@),
            count == selected_lines(all, wanted.subrange(0, v as int)).len(),
            count <= v,
            contents@ == joined(selected_lines(all, wanted.subrange(0, v as int))),
        decreases versions@.len() - v,
    {
        let ghost upto = wanted.subrange(0, v as int + 1);
        let ghost kept = selected_lines(all, wanted.subrange(0, v as int));
        assert(upto.drop_last() =~= wanted.subrange(0, v as int));
        match find_version_line(&lines, versions[v].as_str()) {
            Some(i) => {
                if count > 0 {
                    contents.push(10u8);
                }
                append_bytes(&mut contents, &lines[i]);
                count = count + 1;
                proof {
                    let more = kept.push(all[i as int]);
                    assert(more.drop_last() =~= kept);
                }
            },
            None => {},
        }
        v = v + 1;
    }
    assert(wanted.subrange(0, versions@.len() as int) =~= wanted);
    MirrorFile { contents, lines: count }
}

/// The names of the packages of a list of records, each once, in the order
/// in which they first occur.
pub open spec fn group_names(records: Seq<InfoView>) -> Seq<Seq<char>>
    decreases records.len(),
{
    if records.len() == 0 {
        Seq::<Seq<char>>::empty()
    } else {
        let front = group_names(records.drop_last());
        if front.contains(records.last().name) {
            front
        } else {
            front.push(records.last().name)
        }
    }
}

/// The versions that a list of records holds of the package `name`, in the
/// order of the records.
pub open spec fn versions_of(records: Seq<InfoView>, name: Seq<char>) -> Seq<Seq<char>>
    decreases records.len(),
{
    if records.len() == 0 {
        Seq::<Seq<char>>::empty()
    } else {
        let front = versions_of(records.drop_last(), name);
        if records.last().name == name {
            front.push(records.last().version)
        } else {
            front
        }
    }
}

/// Whether one of the records is of the package `name`.
pub open spec fn names_package(records: Seq<InfoView>, name: Seq<char>) -> bool {
    exists|i: int| 0 <= i < records.len() && (#[trigger] records[i]).name == name
}

/// No name occurs twice among the group names, so that no file of the
/// mirror is written twice; and each record's name is among them.
pub proof fn lemma_group_names(records: Seq<InfoView>)
    ensures
        group_names(records).no_duplicates(),
        forall|i: int|
            0 <= i < records.len() ==> group_names(records).contains((#[trigger] records[i]).name),
        forall|j: int|
            0 <= j < group_names(records).len() ==> names_package(
                records,
                #[trigger] group_names(records)[j],
            ),
    decreases records.len(),
{
    if records.len() > 0 {
        let front_records = records.drop_last();
        let front = group_names(front_records);
        let names = group_names(records);
        let last = records.last().name;
        lemma_group_names(front_records);
        assert forall|i: int| 0 <= i < records.len() implies names.contains(
            (#[trigger] records[i]).name,
        ) by {
            if i < records.len() - 1 {
                assert(front_records[i] == records[i]);
                let j = choose|j: int| 0 <= j < front.len() && front[j] == records[i].name;
                assert(names[j] == records[i].name);
            } else if front.contains(last) {
            } else {
                assert(names[front.len() as int] == last);
            }
        }
    }
}

/// Each record's version is among the versions of the record's package.
pub proof fn lemma_versions_of_holds_each(records: Seq<InfoView>, i: int)
    requires
        0 <= i < records.len(),
    ensures
        versions_of(records, records[i].name).contains(records[i].version),
    decreases records.len(),
{
    let name = records[i].name;
    let front = versions_of(records.drop_last(), name);
    if i == records.len() - 1 {
        assert(versions_of(records, name)[front.len() as int] == records[i].version);
    } else {
        lemma_versions_of_holds_each(records.drop_last(), i);
        let k = choose|k: int| 0 <= k < front.len() && front[k] == records[i].version;
        assert(versions_of(records, name)[k] == records[i].version);
    }
}

fn holds_name(names: &Vec<String>, name: &str) -> (held: bool)
    ensures
        held == texts(names@).contains(name@),
{
    let mut j: usize = 0;
    while j < names.len()
        invariant
            j <= names@.len(),
            forall|k: int| 0 <= k < j ==> texts(names@)[k] != name@,
        decreases names@.len() - j,
    {
        if same_text(names[j].as_str(), name) {
            assert(texts(names@)[j as int] == name@);
            return true;
        }
        j = j + 1;
    }
    false
}

/// Lists the packages that a list of records names, each once, in the order
/// in which they first occur.
pub fn package_names(records: &Vec<CrateInformation>) -> (names: Vec<String>)
    ensures
        texts(names@) == group_names(info_views(records@)),
{
    let ghost all = info_views(records@);
    let mut names: Vec<String> = Vec::new();
    let mut i: usize = 0;
    while i < records.len()
        invariant
            i <= records@.len(),
            all == info_views(records@),
            texts(names@) == group_names(all.subrange(0, i as int)),
        decreases records@.len() - i,
    {
        let ghost upto = all.subrange(0, i as int + 1);
        assert(upto.drop_last() =~= all.subrange(0, i as int));
        if !holds_name(&names, records[i].name.as_str()) {
            names.push(records[i].name.clone());
        }
        i = i + 1;
    }
    assert(all.subrange(0, records@.len() as int) =~= all);
    names
}

/// Lists the versions that a list of records holds of the package `name`.
pub fn versions_for(records: &Vec<CrateInformation>, name: &str) -> (versions: Vec<String>)
    ensures
        texts(versions@) == versions_of(info_views(records@), name@),
{
    let ghost all = info_views(records@);
    let mut versions: Vec<String> = Vec::new();
    let mut i: usize = 0;
    while i < records.len()
        invariant
            i <= records@.len(),
            all == info_views(records@),
            texts(versions@) == versions_of(all.subrange(0, i as int), name@),
        decreases records@.len() - i,
    {
        let ghost upto = all.subrange(0, i as int + 1);
        assert(upto.drop_last() =~= all.subrange(0, i as int));
        if same_text(records[i].name.as_str(), name) {
            versions.push(records[i].version.clone());
        }
        i = i + 1;
    }
    assert(all.subrange(0, records@.len() as int) =~= all);
    versions
}

/// One file of the mirror that is to be written: the package, the path of
/// its index file below the root of either index, and the versions of which
/// a line is kept.
#[derive(Debug)]
pub struct MirrorEntry {
    pub name: String,
    pub path: String,
    pub versions: Vec<String>,
}

/// Whether `plan` is the plan for `records`: one entry for each package that
/// the records name, in the order in which the packages first occur, with the
/// package's path and all of its versions.
pub open spec fn is_plan_for(plan: Seq<MirrorEntry>, records: Seq<InfoView>) -> bool {
    &&& plan.len() == group_names(records).len()
    &&& forall|j: int|
        0 <= j < plan.len() ==> {
            &&& (#[trigger] plan[j]).name@ == group_names(records)[j]
            &&& plan[j].path@ == shard_of(plan[j].name@)
            &&& texts(plan[j].versions@) == versions_of(records, plan[j].name@)
        }
}

/// Plans the mirror for a list of records: which files are written, and
/// which versions each one holds. A package is written once, with all of its
/// versions, however many records name it. The first record whose package
/// name has no index file is reported by its position, with the reason.
pub fn mirror_plan(records: &Vec<CrateInformation>) -> (plan: Result<
    Vec<MirrorEntry>,
    (usize, ShardError),
>)
    ensures
        match plan {
            Ok(entries) => is_plan_for(entries@, info_views(records@)) && forall|i: int|
                0 <= i < records@.len() ==> is_index_name((#[trigger] records@[i]).name@),
            Err((i, reason)) => {
                &&& i < records@.len()
                &&& forall|k: int| 0 <= k < i ==> is_index_name((#[trigger] records@[k]).name@)
                &&& match reason {
                    ShardError::EmptyName => records@[i as int].name@.len() == 0,
                    ShardError::NotAscii => records@[i as int].name@.len() > 0 && !is_ascii_chars(
                        records@[i as int].name@,
                    ),
                }
            },
        },
{
    let ghost all = info_views(records@);
    let mut i: usize = 0;
    while i < records.len()
        invariant
            i <= records@.len(),
            forall|k: int| 0 <= k < i ==> is_index_name((#[trigger] records@[k]).name@),
        decreases records@.len() - i,
    {
        let name = records[i].name.as_str();
        if name.is_empty() {
            return Err((i, ShardError::EmptyName));
        }
        if !name.is_ascii() {
            return Err((i, ShardError::NotAscii));
        }
        i = i + 1;
    }
    let names = package_names(records);
    proof {
        lemma_group_names(all);
    }
    let mut entries: Vec<MirrorEntry> = Vec::new();
    let mut j: usize = 0;
    while j < names.len()
        invariant
            j <= names@.len(),
            all == info_views(records@),
            texts(names@) == group_names(all),
            forall|k: int| 0 <= k < records@.len() ==> is_index_name((#[trigger] records@[k]).name@),
            forall|j: int|
                0 <= j < group_names(all).len() ==> names_package(
                    all,
                    #[trigger] group_names(all)[j],
                ),
            entries@.len() == j,
            forall|k: int|
                0 <= k < j ==> {
                    &&& (#[trigger] entries@[k]).name@ == group_names(all)[k]
                    &&& entries@[k].path@ == shard_of(entries@[k].name@)
                    &&& texts(entries@[k].versions@) == versions_of(all, entries@[k].name@)
                },
        decreases names@.len() - j,
    {
        let name = names[j].clone();
        proof {
            let i = choose|i: int|
                0 <= i < all.len() && (#[trigger] all[i]).name == group_names(all)[j as int];
        }
        let path = prefix_path(name.as_str());
        let versions = versions_for(records, name.as_str());
        entries.push(MirrorEntry { name, path, versions });
        j = j + 1;
    }
    Ok(entries)
}

} // verus!
