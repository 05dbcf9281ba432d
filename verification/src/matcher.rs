//! Matching the lines of one file against a compiled expression.

use vstd::prelude::*;
use std::path::PathBuf;
use vstd::utf8::{decode_utf8, encode_utf8_decode_utf8, valid_utf8};
use crate::lines::{lines_of, split_lines, texts};
use crate::pattern::{decode, is_match, pattern_text, regex_matches, regex_text};

verus! {

/// One line of one file that the expression matched.
#[derive(Debug, Clone, PartialEq, Eq)]
pub struct Match {
    /// Zero-based number of the line within its file.
    pub line_num: usize,
    /// The whole line, without its line ending.
    pub line: String,
    /// The text of the expression that matched.
    pub regex: String,
    /// The path of the file the line came from.
    pub file_name: PathBuf,
}

/// A match record as plain mathematical values.
pub struct MatchView {
    pub line_num: nat,
    pub line: Seq<char>,
    pub regex: Seq<char>,
    pub file_name: PathBuf,
}

impl View for Match {
    type V = MatchView;

    open spec fn view(&self) -> MatchView {
        MatchView {
            line_num: self.line_num as nat,
            line: self.line@,
            regex: self.regex@,
            file_name: self.file_name,
        }
    }
}

/// Why a file, a directory or a path gave no result.
#[derive(Debug, Clone, PartialEq, Eq)]
pub enum SearchError {
    /// The file system refused an operation; the text is its message.
    Io(String),
    /// The file's bytes are not well-formed UTF-8.
    InvalidText,
}

impl SearchError {
    /// The error as text: the file system's own message, or a fixed sentence
    /// for bytes that are not text.
    pub fn message(&self) -> (text: String)
        ensures
            match *self {
                SearchError::Io(m) => text == m,
                SearchError::InvalidText => text@ == "file is not valid UTF-8 text"@,
            },
    {
        match self {
            SearchError::Io(m) => m.clone(),
            SearchError::InvalidText => "file is not valid UTF-8 text".to_owned(),
        }
    }
}

/// The records that a vector of matches holds.
pub open spec fn records(v: Seq<Match>) -> Seq<MatchView> {
    v.map_values(|m: Match| m@)
}

/// Whether line `i` counts as matched according to `hits`; a line without an
/// answer counts as not matched.
pub open spec fn hit(hits: Seq<bool>, i: int) -> bool {
    0 <= i < hits.len() && hits[i]
}

/// The records of the matched lines among the first `n` of `lines`, in line
/// order.
pub open spec fn picked(
    path: PathBuf,
    pattern: Seq<char>,
    lines: Seq<Seq<char>>,
    hits: Seq<bool>,
    n: int,
) -> Seq<MatchView>
    decreases n,
{
    if n <= 0 {
        seq![]
    } else {
        let earlier = picked(path, pattern, lines, hits, n - 1);
        if hit(hits, n - 1) {
            earlier.push(
                MatchView {
                    line_num: (n - 1) as nat,
                    line: lines[n - 1],
                    regex: pattern,
                    file_name: path,
                },
            )
        } else {
            earlier
        }
    }
}

/// For each of `lines`, whether the expression matches it.
pub open spec fn hits_of(re: regex::Regex, lines: Seq<Seq<char>>) -> Seq<bool> {
    Seq::new(lines.len(), |i: int| regex_matches(re, lines[i]))
}

/// The records of all lines of `text` that the expression matches.
pub open spec fn matches_of(path: PathBuf, re: regex::Regex, text: Seq<char>) -> Seq<MatchView> {
    let lines = lines_of(text);
    picked(path, regex_text(re), lines, hits_of(re, lines), lines.len() as int)
}

/// What searching one file yields, given what reading it returned: the read
/// error, a decoding error, or the file's records.
pub open spec fn search_outcome(
    path: PathBuf,
    re: regex::Regex,
    read: Result<Vec<u8>, String>,
) -> Result<Seq<MatchView>, SearchError> {
    match read {
        Err(message) => Err(SearchError::Io(message)),
        Ok(bytes) => if valid_utf8(bytes@) {
            Ok(matches_of(path, re, decode_utf8(bytes@)))
        } else {
            Err(SearchError::InvalidText)
        },
    }
}

/// A search result with its records as plain values.
pub open spec fn outcome_view(found: Result<Vec<Match>, SearchError>) -> Result<
    Seq<MatchView>,
    SearchError,
> {
    match found {
        Ok(v) => Ok(records(v@)),
        Err(e) => Err(e),
    }
}

/// The records are exactly the matched lines among the first `n`, each once
/// and in line order: every record carries the number and the text of a
/// matched line below `n` together with the pattern and the path, the line
/// numbers rise strictly, and every matched line below `n` has its record.
pub proof fn law_records_are_the_matched_lines(
    path: PathBuf,
    pattern: Seq<char>,
    lines: Seq<Seq<char>>,
    hits: Seq<bool>,
    n: int,
)
    requires
        0 <= n <= lines.len(),
    ensures
        ({
            let found = picked(path, pattern, lines, hits, n);
            &&& forall|k: int|
                0 <= k < found.len() ==> {
                    &&& (#[trigger] found[k]).line_num < n
                    &&& hit(hits, found[k].line_num as int)
                    &&& found[k].line == lines[found[k].line_num as int]
                    &&& found[k].regex == pattern
                    &&& found[k].file_name == path
                }
            &&& forall|j: int, k: int|
                0 <= j < k < found.len() ==> (#[trigger] found[j]).line_num < (
                #[trigger] found[k]).line_num
            &&& forall|i: int|
                0 <= i < n && #[trigger] hit(hits, i) ==> exists|k: int|
                    0 <= k < found.len() && (#[trigger] found[k]).line_num == i
        }),
    decreases n,
{
    if n > 0 {
        law_records_are_the_matched_lines(path, pattern, lines, hits, n - 1);
        let earlier = picked(path, pattern, lines, hits, n - 1);
        let found = picked(path, pattern, lines, hits, n);
        if hit(hits, n - 1) {
            assert(found[found.len() - 1].line_num == n - 1);
            assert forall|i: int| 0 <= i < n && #[trigger] hit(hits, i) implies exists|k: int|
                0 <= k < found.len() && (#[trigger] found[k]).line_num == i by {
                if i < n - 1 {
                    let k = choose|k: int|
                        0 <= k < earlier.len() && (#[trigger] earlier[k]).line_num == i;
                    assert(found[k].line_num == i);
                } else {
                    assert(found[found.len() - 1].line_num == i);
                }
            }
        }
    }
}

/// A record's line number is below the number of lines of the text, and the
/// record holds that line, which the expression matches.
pub proof fn law_line_numbers_within_file(path: PathBuf, re: regex::Regex, text: Seq<char>)
    ensures
        forall|k: int|
            0 <= k < matches_of(path, re, text).len() ==> {
                let m = #[trigger] matches_of(path, re, text)[k];
                &&& m.line_num < lines_of(text).len()
                &&& m.line == lines_of(text)[m.line_num as int]
                &&& regex_matches(re, m.line)
            },
{
    let lines = lines_of(text);
    law_records_are_the_matched_lines(
        path,
        regex_text(re),
        lines,
        hits_of(re, lines),
        lines.len() as int,
    );
}

/// Text of which the expression matches no line gives no record, and a file
/// that holds such text is searched with success.
pub proof fn law_no_match_no_record(path: PathBuf, re: regex::Regex, bytes: Vec<u8>)
    requires
        valid_utf8(bytes@),
        forall|i: int|
            0 <= i < lines_of(decode_utf8(bytes@)).len() ==> !regex_matches(
                re,
                #[trigger] lines_of(decode_utf8(bytes@))[i],
            ),
    ensures
        search_outcome(path, re, Ok(bytes)) == Ok::<Seq<MatchView>, SearchError>(seq![]),
{
    let lines = lines_of(decode_utf8(bytes@));
    let found = matches_of(path, re, decode_utf8(bytes@));
    law_records_are_the_matched_lines(
        path,
        regex_text(re),
        lines,
        hits_of(re, lines),
        lines.len() as int,
    );
    if found.len() > 0 {
        let i = found[0].line_num as int;
        assert(hit(hits_of(re, lines), i));
        assert(regex_matches(re, lines[i]));
    }
    assert(found =~= seq![]);
}

/// Searching the same content under the same path with the same expression
/// gives the same records in the same order, or the same error, every time.
pub proof fn law_search_is_repeatable(
    path: PathBuf,
    re: regex::Regex,
    read: Result<Vec<u8>, String>,
    first: Result<Vec<Match>, SearchError>,
    second: Result<Vec<Match>, SearchError>,
)
    requires
        outcome_view(first) == search_outcome(path, re, read),
        outcome_view(second) == search_outcome(path, re, read),
    ensures
        outcome_view(first) == outcome_view(second),
        first is Ok ==> second is Ok && records(first.unwrap()@) == records(second.unwrap()@),
{
}

/// Builds the records of the lines that `hits` marks, in line order. `hits[i]`
/// says whether line `i` matched; lines beyond the end of `hits` count as not
/// matched.
pub fn collect_matches(path: &PathBuf, pattern: &str, lines: &Vec<String>, hits: &Vec<bool>) -> (found:
    Vec<Match>)
    ensures
        records(found@) == picked(*path, pattern@, texts(lines@), hits@, lines.len() as int),
{
    let mut found: Vec<Match> = Vec::new();
    let mut i: usize = 0;
    while i < lines.len()
        invariant
            i <= lines.len(),
            records(found@) == picked(*path, pattern@, texts(lines@), hits@, i as int),
        decreases lines.len() - i,
    {
        if i < hits.len() && hits[i] {
            let m = Match {
                line_num: i,
                line: lines[i].clone(),
                regex: pattern.to_owned(),
                file_name: path.clone(),
            };
            assert(records(found@.push(m)) =~= records(found@).push(m@));
            found.push(m);
        }
        i += 1;
    }
    found
}

/// Asks the expression about every line.
pub fn match_lines(re: &regex::Regex, lines: &Vec<String>) -> (hits: Vec<bool>)
    ensures
        hits@ == hits_of(*re, texts(lines@)),
{
    let mut hits: Vec<bool> = Vec::new();
    let mut i: usize = 0;
    while i < lines.len()
        invariant
            i <= lines.len(),
            hits.len() == i,
            forall|k: int| 0 <= k < i ==> hits[k] == regex_matches(*re, #[trigger] lines[k]@),
        decreases lines.len() - i,
    {
        let found = is_match(re, lines[i].as_str());
        hits.push(found);
        i += 1;
    }
    assert(hits@ =~= hits_of(*re, texts(lines@)));
    hits
}

/// Searches decoded text: one record for every line that the expression
/// matches, in line order.
pub fn search_text(path: &PathBuf, re: &regex::Regex, text: &str) -> (found: Vec<Match>)
    ensures
        records(found@) == matches_of(*path, *re, text@),
{
    let lines = split_lines(text);
    let hits = match_lines(re, &lines);
    collect_matches(path, pattern_text(re), &lines, &hits)
}

/// Searches one file, given what reading it returned. A read error is passed
/// on; bytes that are not UTF-8 give [`SearchError::InvalidText`] and no
/// record at all; otherwise the text is searched line by line.
pub fn search_file(path: &PathBuf, re: &regex::Regex, read: Result<Vec<u8>, String>) -> (found: Result<
    Vec<Match>,
    SearchError,
>)
    ensures
        outcome_view(found) == search_outcome(*path, *re, read),
{
    match read {
        Err(message) => Err(SearchError::Io(message)),
        Ok(bytes) => match decode(bytes.as_slice()) {
            Some(text) => {
                proof {
                    encode_utf8_decode_utf8(text@);
                }
                Ok(search_text(path, re, text))
            },
            None => Err(SearchError::InvalidText),
        },
    }
}

} // verus!
