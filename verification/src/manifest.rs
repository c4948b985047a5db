//! Manifest decoding: turning the bytes fetched from the manifest source into
//! the ordered list of virtual asset paths.
//!
//! Two encodings are understood. The newline list holds one path per line,
//! with surrounding whitespace ignored and blank lines dropped; it travels
//! gzip-compressed. The delimited record list holds one comma-separated
//! record per line and names the path in the third field.

use crate::trusted::{gzip_member, inflate_gzip, utf8_text};
use crate::text::{lemma_split_prefix, lemma_split_push, split, substring, trim, trim_bounds};
use vstd::prelude::*;
use vstd::string::StrSliceExecFns;
use vstd::string::StringSliceAdditionalSpecFns;
use vstd::utf8::{decode_utf8, encode_utf8_decode_utf8, valid_utf8};

verus! {

/// Why a manifest could not be obtained. Any of these is fatal: no extraction
/// work starts without a manifest.
#[derive(Clone, Copy, Debug, PartialEq, Eq, Structural)]
pub enum ManifestFetchError {
    /// The manifest could not be fetched from its source.
    Network,
    /// The fetched bytes could not be decompressed or are not UTF-8 text.
    Decode,
    /// A record of a delimited list has fewer than three fields. `record` is
    /// the zero-based line number of the first such record.
    MalformedRecord { record: usize },
}

/// The entries of a newline list, given its lines: each line trimmed, blank
/// ones dropped.
pub open spec fn list_entries(lines: Seq<Seq<char>>) -> Seq<Seq<char>> {
    lines.map_values(|line: Seq<char>| trim(line)).filter(|entry: Seq<char>| entry.len() > 0)
}

/// The virtual paths that a newline list holds.
pub open spec fn newline_list(text: Seq<char>) -> Seq<Seq<char>> {
    list_entries(split(text, '\n'))
}

/// A line of a delimited list without the carriage return that a CRLF line
/// ending leaves behind.
pub open spec fn strip_carriage_return(line: Seq<char>) -> Seq<char> {
    if line.len() > 0 && line.last() == '\r' {
        line.drop_last()
    } else {
        line
    }
}

/// The records of a delimited list, given its lines.
pub open spec fn records_of(lines: Seq<Seq<char>>) -> Seq<Seq<char>> {
    lines.map_values(|line: Seq<char>| strip_carriage_return(line))
}

/// A record is malformed when it is not blank and has fewer than three fields.
pub open spec fn is_malformed(record: Seq<char>) -> bool {
    record.len() > 0 && split(record, ',').len() < 3
}

/// The position of the first malformed record, if there is one.
pub open spec fn first_malformed(records: Seq<Seq<char>>) -> Option<int>
    decreases records.len(),
{
    if records.len() == 0 {
        None
    } else {
        match first_malformed(records.drop_last()) {
            Some(i) => Some(i),
            None => if is_malformed(records.last()) {
                Some(records.len() - 1)
            } else {
                None
            },
        }
    }
}

/// The virtual paths named by well-formed records: the third field of every
/// record that is not blank.
pub open spec fn record_paths(records: Seq<Seq<char>>) -> Seq<Seq<char>> {
    records.filter(|record: Seq<char>| record.len() > 0).map_values(
        |record: Seq<char>| split(record, ',')[2],
    )
}

/// What parsing a delimited record list yields: the paths of its records, or
/// the first malformed record.
pub open spec fn delimited_records(text: Seq<char>) -> Result<Seq<Seq<char>>, ManifestFetchError> {
    let records = records_of(split(text, '\n'));
    match first_malformed(records) {
        Some(i) => Err(ManifestFetchError::MalformedRecord { record: i as usize }),
        None => Ok(record_paths(records)),
    }
}

/// What decoding the bytes of a newline list yields.
pub open spec fn newline_list_of_bytes(data: Seq<u8>) -> Result<
    Seq<Seq<char>>,
    ManifestFetchError,
> {
    if valid_utf8(data) {
        Ok(newline_list(decode_utf8(data)))
    } else {
        Err(ManifestFetchError::Decode)
    }
}

/// What decoding the bytes of a delimited record list yields.
pub open spec fn delimited_records_of_bytes(data: Seq<u8>) -> Result<
    Seq<Seq<char>>,
    ManifestFetchError,
> {
    if valid_utf8(data) {
        delimited_records(decode_utf8(data))
    } else {
        Err(ManifestFetchError::Decode)
    }
}

/// What decoding a compressed newline list yields, given the outcome of
/// decompressing it.
pub open spec fn compressed_list(inflated: Option<Seq<u8>>) -> Result<
    Seq<Seq<char>>,
    ManifestFetchError,
> {
    match inflated {
        Some(data) => newline_list_of_bytes(data),
        None => Err(ManifestFetchError::Decode),
    }
}

/// Whether an executable parse result is the one that `expected` describes.
pub open spec fn yields(
    result: Result<Vec<String>, ManifestFetchError>,
    expected: Result<Seq<Seq<char>>, ManifestFetchError>,
) -> bool {
    match result {
        Ok(paths) => expected == Ok::<Seq<Seq<char>>, ManifestFetchError>(paths.deep_view()),
        Err(e) => expected == Err::<Seq<Seq<char>>, ManifestFetchError>(e),
    }
}

/// Appending a line to a newline list appends its trimmed text to the
/// entries, unless the line is blank.
pub proof fn lemma_list_entries_push(lines: Seq<Seq<char>>, line: Seq<char>)
    ensures
        list_entries(lines.push(line)) == if trim(line).len() > 0 {
            list_entries(lines).push(trim(line))
        } else {
            list_entries(lines)
        },
{
    let f = |line: Seq<char>| trim(line);
    let p = |entry: Seq<char>| entry.len() > 0;
    assert(lines.push(line).map_values(f) =~= lines.map_values(f).push(trim(line)));
    lines.map_values(f).lemma_filter_push(trim(line), p);
}

/// Appending a record appends its third field to the paths, unless the
/// record is blank.
pub proof fn lemma_record_paths_push(records: Seq<Seq<char>>, record: Seq<char>)
    ensures
        record_paths(records.push(record)) == if record.len() > 0 {
            record_paths(records).push(split(record, ',')[2])
        } else {
            record_paths(records)
        },
{
    let f = |record: Seq<char>| split(record, ',')[2];
    let p = |record: Seq<char>| record.len() > 0;
    records.lemma_filter_push(record, p);
    if record.len() > 0 {
        assert(records.filter(p).push(record).map_values(f) =~= records.filter(p).map_values(
            f,
        ).push(split(record, ',')[2]));
    }
}

/// `first_malformed` finds a malformed record exactly when there is one, and
/// then it is the earliest.
pub proof fn lemma_first_malformed(records: Seq<Seq<char>>)
    ensures
        match first_malformed(records) {
            Some(i) => {
                &&& 0 <= i < records.len()
                &&& is_malformed(records[i])
                &&& forall|j: int| 0 <= j < i ==> !is_malformed(#[trigger] records[j])
            },
            None => forall|j: int| 0 <= j < records.len() ==> !is_malformed(#[trigger] records[j]),
        },
    decreases records.len(),
{
    if records.len() > 0 {
        let earlier = records.drop_last();
        lemma_first_malformed(earlier);
        assert(forall|j: int| 0 <= j < earlier.len() ==> earlier[j] == records[j]);
        match first_malformed(earlier) {
            Some(i) => {
                assert forall|j: int| 0 <= j < i implies !is_malformed(#[trigger] records[j]) by {
                    assert(!is_malformed(earlier[j]));
                }
            },
            None => {
                assert forall|j: int| 0 <= j < earlier.len() implies !is_malformed(
                    #[trigger] records[j],
                ) by {
                    assert(!is_malformed(earlier[j]));
                }
            },
        }
    }
}

/// Appends the trimmed text of `line` to `paths`, unless it is blank.
fn push_entry(paths: &mut Vec<String>, line: &Vec<char>)
    ensures
        final(paths).deep_view() == if trim(line@).len() > 0 {
            old(paths).deep_view().push(trim(line@))
        } else {
            old(paths).deep_view()
        },
{
    let (from, to) = trim_bounds(line);
    if from < to {
        paths.push(substring(line, from, to));
        assert(paths.deep_view() =~= old(paths).deep_view().push(trim(line@)));
    }
}

/// Parses a newline list: the text is split on `'\n'`, every line is trimmed
/// of surrounding whitespace, and lines that are blank after trimming are
/// dropped. The remaining entries are returned in their order of appearance.
pub fn parse_newline_list(text: &str) -> (paths: Vec<String>)
    ensures
        paths.deep_view() == newline_list(text@),
{
    let mut paths: Vec<String> = Vec::new();
    let mut line: Vec<char> = Vec::new();
    assert(paths.deep_view() =~= Seq::<Seq<char>>::empty());
    assert(text@.take(0) =~= Seq::<char>::empty());
    assert(split(text@.take(0), '\n').drop_last() =~= Seq::<Seq<char>>::empty());
    assert(list_entries(Seq::<Seq<char>>::empty()) =~= Seq::<Seq<char>>::empty()) by {
        reveal(Seq::filter);
    }
    for c in it: text.chars()
        invariant
            it.seq() == text@,
            split(text@.take(it.index()), '\n').len() >= 1,
            split(text@.take(it.index()), '\n').last() == line@,
            paths.deep_view() == list_entries(split(text@.take(it.index()), '\n').drop_last()),
    {
        proof {
            let seen = text@.take(it.index());
            assert(text@.take(it.index() + 1) =~= seen.push(c));
            lemma_split_push(seen, c, '\n');
            if c == '\n' {
                assert(split(seen.push(c), '\n').drop_last() =~= split(seen, '\n'));
                assert(split(seen, '\n') =~= split(seen, '\n').drop_last().push(line@));
                lemma_list_entries_push(split(seen, '\n').drop_last(), line@);
            } else {
                assert(split(seen.push(c), '\n').drop_last() =~= split(seen, '\n').drop_last());
            }
        }
        if c == '\n' {
            push_entry(&mut paths, &line);
            line = Vec::new();
        } else {
            line.push(c);
        }
    }
    proof {
        assert(text@.take(text@.len() as int) =~= text@);
        let lines = split(text@, '\n');
        assert(lines =~= lines.drop_last().push(line@));
        lemma_list_entries_push(lines.drop_last(), line@);
    }
    push_entry(&mut paths, &line);
    paths
}

/// The third field of the record held in the first `len` characters of
/// `line`, if the record has that many fields.
fn third_field(line: &Vec<char>, len: usize) -> (field: Option<String>)
    requires
        len <= line.len(),
    ensures
        match field {
            Some(path) => {
                &&& split(line@.take(len as int), ',').len() >= 3
                &&& path@ == split(line@.take(len as int), ',')[2]
            },
            None => split(line@.take(len as int), ',').len() < 3,
        },
{
    let ghost record = line@.take(len as int);
    let mut commas: usize = 0;
    let mut start: usize = 0;
    let mut i: usize = 0;
    assert(record.take(0) =~= Seq::<char>::empty());
    assert(record.subrange(0, 0) =~= Seq::<char>::empty());
    while i < len
        invariant
            i <= len <= line.len(),
            record == line@.take(len as int),
            commas <= 2,
            start <= i,
            split(record.take(i as int), ',').len() == commas + 1,
            split(record.take(i as int), ',').last() == record.subrange(start as int, i as int),
        decreases len - i,
    {
        let c = line[i];
        proof {
            let seen = record.take(i as int);
            assert(record.take(i + 1) =~= seen.push(c));
            lemma_split_push(seen, c, ',');
            assert(record.subrange(i + 1, i + 1) =~= Seq::<char>::empty());
            assert(record.subrange(start as int, i + 1) =~= record.subrange(
                start as int,
                i as int,
            ).push(c));
        }
        if c == ',' {
            if commas == 2 {
                proof {
                    lemma_split_prefix(record, i + 1, ',', 2);
                    assert(record.subrange(start as int, i as int) =~= line@.subrange(
                        start as int,
                        i as int,
                    ));
                }
                return Some(substring(line, start, i));
            }
            commas += 1;
            start = i + 1;
        }
        i += 1;
    }
    assert(record.take(len as int) =~= record);
    if commas == 2 {
        assert(record.subrange(start as int, len as int) =~= line@.subrange(
            start as int,
            len as int,
        ));
        Some(substring(line, start, len))
    } else {
        None
    }
}

/// Reads the record on `line` and appends the path it names to `paths`.
/// Blank records are skipped. Returns whether the record was well formed.
fn push_record(paths: &mut Vec<String>, line: &Vec<char>) -> (well_formed: bool)
    ensures
        well_formed == !is_malformed(strip_carriage_return(line@)),
        well_formed ==> final(paths).deep_view() == if strip_carriage_return(line@).len() > 0 {
            old(paths).deep_view().push(split(strip_carriage_return(line@), ',')[2])
        } else {
            old(paths).deep_view()
        },
{
    let mut len = line.len();
    if len > 0 && line[len - 1] == '\r' {
        len -= 1;
    }
    assert(line@.take(len as int) =~= strip_carriage_return(line@));
    if len == 0 {
        return true;
    }
    match third_field(line, len) {
        Some(path) => {
            paths.push(path);
            assert(paths.deep_view() =~= old(paths).deep_view().push(path@));
            true
        },
        None => false,
    }
}

/// Appending a line appends its record.
proof fn lemma_records_of_push(lines: Seq<Seq<char>>, line: Seq<char>)
    ensures
        records_of(lines.push(line)) == records_of(lines).push(strip_carriage_return(line)),
{
    assert(records_of(lines.push(line)) =~= records_of(lines).push(strip_carriage_return(line)));
}

/// Parses a delimited record list. The text is split on `'\n'` into records; a
/// carriage return before the line break is not part of the record, and blank
/// records are skipped. The fields of a record are separated by commas (there
/// is no quoting), and its third field is the virtual path. The paths are
/// returned in the order of their records.
///
/// A record with fewer than three fields makes the whole list malformed: the
/// error names the first such record by its zero-based line number.
pub fn parse_delimited_records(text: &str) -> (result: Result<Vec<String>, ManifestFetchError>)
    ensures
        yields(result, delimited_records(text@)),
{
    let total = text.unicode_len();
    let mut paths: Vec<String> = Vec::new();
    let mut line: Vec<char> = Vec::new();
    let mut line_no: usize = 0;
    proof {
        assert(paths.deep_view() =~= Seq::<Seq<char>>::empty());
        assert(text@.take(0) =~= Seq::<char>::empty());
        assert(split(text@.take(0), '\n').drop_last() =~= Seq::<Seq<char>>::empty());
        assert(records_of(Seq::<Seq<char>>::empty()) =~= Seq::<Seq<char>>::empty());
        assert(record_paths(Seq::<Seq<char>>::empty()) =~= Seq::<Seq<char>>::empty()) by {
            reveal(Seq::filter);
        }
    }
    for c in it: text.chars()
        invariant
            it.seq() == text@,
            total == text@.len(),
            line_no <= it.index(),
            split(text@.take(it.index()), '\n').len() == line_no + 1,
            split(text@.take(it.index()), '\n').last() == line@,
            first_malformed(records_of(split(text@.take(it.index()), '\n').drop_last())) is None,
            paths.deep_view() == record_paths(
                records_of(split(text@.take(it.index()), '\n').drop_last()),
            ),
    {
        let ghost seen = text@.take(it.index());
        let ghost closed = split(seen, '\n').drop_last();
        proof {
            assert(text@.take(it.index() + 1) =~= seen.push(c));
            lemma_split_push(seen, c, '\n');
            if c == '\n' {
                assert(split(seen.push(c), '\n').drop_last() =~= split(seen, '\n'));
                assert(split(seen, '\n') =~= closed.push(line@));
                lemma_records_of_push(closed, line@);
                lemma_record_paths_push(records_of(closed), strip_carriage_return(line@));
                assert(records_of(closed.push(line@)).drop_last() =~= records_of(closed));
            } else {
                assert(split(seen.push(c), '\n').drop_last() =~= closed);
            }
        }
        if c == '\n' {
            if !push_record(&mut paths, &line) {
                proof {
                    assert(split(seen.push(c), '\n').take(line_no as int) =~= closed);
                    lemma_first_malformed_in_prefix(text@, it.index() + 1, line_no as int);
                }
                return Err(ManifestFetchError::MalformedRecord { record: line_no });
            }
            line = Vec::new();
            line_no += 1;
        } else {
            line.push(c);
        }
    }
    let ghost closed = split(text@, '\n').drop_last();
    proof {
        assert(text@.take(text@.len() as int) =~= text@);
        assert(split(text@, '\n') =~= closed.push(line@));
        lemma_records_of_push(closed, line@);
        lemma_record_paths_push(records_of(closed), strip_carriage_return(line@));
        assert(records_of(closed.push(line@)).drop_last() =~= records_of(closed));
    }
    if !push_record(&mut paths, &line) {
        return Err(ManifestFetchError::MalformedRecord { record: line_no });
    }
    Ok(paths)
}

/// If, among the lines of a prefix of `text` that a line break has closed,
/// the last one holds a malformed record and none before it does, then that
/// record is the first malformed record of the whole text.
proof fn lemma_first_malformed_in_prefix(text: Seq<char>, n: int, last: int)
    requires
        0 <= n <= text.len(),
        split(text.take(n), '\n').len() == last + 2,
        last >= 0,
        first_malformed(records_of(split(text.take(n), '\n').take(last))) is None,
        is_malformed(strip_carriage_return(split(text.take(n), '\n')[last])),
    ensures
        first_malformed(records_of(split(text, '\n'))) == Some(last),
{
    let part = split(text.take(n), '\n');
    let whole = split(text, '\n');
    lemma_split_prefix(text, n, '\n', last);
    lemma_first_malformed(records_of(part.take(last)));
    lemma_first_malformed(records_of(whole));
    assert(records_of(whole)[last] == strip_carriage_return(whole[last]));
    assert forall|j: int| 0 <= j < last implies !is_malformed(#[trigger] records_of(whole)[j]) by {
        lemma_split_prefix(text, n, '\n', j);
        assert(records_of(part.take(last))[j] == strip_carriage_return(part[j]));
        assert(records_of(whole)[j] == strip_carriage_return(whole[j]));
    }
}

/// Decodes the bytes of a newline list: they must be UTF-8 text, which is
/// then parsed as `parse_newline_list` does.
pub fn newline_list_from_bytes(data: &[u8]) -> (result: Result<Vec<String>, ManifestFetchError>)
    ensures
        yields(result, newline_list_of_bytes(data@)),
{
    match utf8_text(data) {
        Ok(text) => {
            proof {
                encode_utf8_decode_utf8(text@);
            }
            Ok(parse_newline_list(text))
        },
        Err(_) => Err(ManifestFetchError::Decode),
    }
}

/// Decodes the bytes of a delimited record list: they must be UTF-8 text,
/// which is then parsed as `parse_delimited_records` does.
pub fn delimited_records_from_bytes(data: &[u8]) -> (result: Result<
    Vec<String>,
    ManifestFetchError,
>)
    ensures
        yields(result, delimited_records_of_bytes(data@)),
{
    match utf8_text(data) {
        Ok(text) => {
            proof {
                encode_utf8_decode_utf8(text@);
            }
            parse_delimited_records(text)
        },
        Err(_) => Err(ManifestFetchError::Decode),
    }
}

/// Decodes a gzip-compressed newline list as it arrives from the manifest
/// source: the body is decompressed and the result decoded as
/// `newline_list_from_bytes` does. A body that cannot be decompressed is a
/// decode failure.
pub fn decode_compressed_list(body: &[u8]) -> (result: Result<Vec<String>, ManifestFetchError>)
    ensures
        yields(result, compressed_list(gzip_member(body@))),
{
    match inflate_gzip(body) {
        Ok(data) => newline_list_from_bytes(data.as_slice()),
        Err(_) => Err(ManifestFetchError::Decode),
    }
}

} // verus!
