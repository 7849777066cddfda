//! Turns unified-diff text into one record per file.

use crate::icons::{file_icon, get_file_icon};
use crate::paths::{base_name, base_name_of};
use crate::tree::{lemma_parsed_totals_fit, totals_fit};
use crate::text::{
    all_whitespace, append_chars, body_end, chars_of, contains_seq, copy_range, decimal,
    decimal_chars, find, first_line_len, first_occurrence, is_blank, lemma_first_line_len_bounds,
    lemma_split_lines_concat, line_body, lines_of, occurs_at, split_lines, split_whitespace,
    starts_with, string_of, strip_prefix, without_prefix, views_of, words,
};
use vstd::prelude::*;
use vstd::string::*;

verus! {

/// Correlates a file's diff with stored check state: the two blob hashes of
/// its `index` line and its path.
#[derive(Debug, Hash)]
pub struct DiffFileKey {
    pub from_hash: String,
    pub to_hash: String,
    pub file_path: String,
}

/// What a [`DiffFileKey`] holds, as character sequences.
pub struct DiffFileKeyView {
    pub from_hash: Seq<char>,
    pub to_hash: Seq<char>,
    pub file_path: Seq<char>,
}

impl View for DiffFileKey {
    type V = DiffFileKeyView;

    open spec fn view(&self) -> DiffFileKeyView {
        DiffFileKeyView {
            from_hash: self.from_hash@,
            to_hash: self.to_hash@,
            file_path: self.file_path@,
        }
    }
}

impl DeepView for DiffFileKey {
    type V = DiffFileKeyView;

    open spec fn deep_view(&self) -> DiffFileKeyView {
        self@
    }
}

impl Clone for DiffFileKey {
    fn clone(&self) -> (out: Self)
        ensures
            out == *self,
    {
        DiffFileKey {
            from_hash: self.from_hash.clone(),
            to_hash: self.to_hash.clone(),
            file_path: self.file_path.clone(),
        }
    }
}

impl PartialEq for DiffFileKey {
    fn eq(&self, other: &Self) -> (r: bool) {
        self.from_hash == other.from_hash && self.to_hash == other.to_hash && self.file_path
            == other.file_path
    }
}

impl vstd::std_specs::cmp::PartialEqSpecImpl for DiffFileKey {
    open spec fn obeys_eq_spec() -> bool {
        true
    }

    open spec fn eq_spec(&self, other: &Self) -> bool {
        self@ == other@
    }
}

impl Eq for DiffFileKey {

}

/// The diff of one file.
#[derive(Debug)]
pub struct FileDiff {
    /// Path of the file, without the `a/` of the boundary marker.
    pub filename: String,
    /// Label of the old side, from the `--- ` line.
    pub old_path: Option<String>,
    /// Label of the new side, from the `+++ ` line.
    pub new_path: Option<String>,
    /// The file's block of the diff text, verbatim.
    pub content: String,
    pub added_lines: usize,
    pub removed_lines: usize,
    pub diff_key: Option<DiffFileKey>,
}

/// What a [`FileDiff`] holds, as mathematical values.
pub struct FileDiffView {
    pub filename: Seq<char>,
    pub old_path: Option<Seq<char>>,
    pub new_path: Option<Seq<char>>,
    pub content: Seq<char>,
    pub added_lines: nat,
    pub removed_lines: nat,
    pub diff_key: Option<DiffFileKeyView>,
}

/// The view of an optional string.
pub open spec fn opt_view(s: Option<String>) -> Option<Seq<char>> {
    match s {
        Some(s) => Some(s@),
        None => None,
    }
}

impl View for FileDiff {
    type V = FileDiffView;

    open spec fn view(&self) -> FileDiffView {
        FileDiffView {
            filename: self.filename@,
            old_path: opt_view(self.old_path),
            new_path: opt_view(self.new_path),
            content: self.content@,
            added_lines: self.added_lines as nat,
            removed_lines: self.removed_lines as nat,
            diff_key: match self.diff_key {
                Some(k) => Some(k@),
                None => None,
            },
        }
    }
}

impl DeepView for FileDiff {
    type V = FileDiffView;

    open spec fn deep_view(&self) -> FileDiffView {
        self@
    }
}

/// A copy of an optional string.
pub fn clone_opt_string(s: &Option<String>) -> (out: Option<String>)
    ensures
        out == *s,
{
    match s {
        Some(s) => Some(s.clone()),
        None => None,
    }
}

impl Clone for FileDiff {
    fn clone(&self) -> (out: Self)
        ensures
            out == *self,
    {
        FileDiff {
            filename: self.filename.clone(),
            old_path: clone_opt_string(&self.old_path),
            new_path: clone_opt_string(&self.new_path),
            content: self.content.clone(),
            added_lines: self.added_lines,
            removed_lines: self.removed_lines,
            diff_key: match &self.diff_key {
                Some(k) => Some(k.clone()),
                None => None,
            },
        }
    }
}


/// The statistics of a record as shown beside its name.
pub open spec fn stats_text(added: nat, removed: nat) -> Seq<char> {
    " +"@ + decimal(added) + " -"@ + decimal(removed)
}

impl FileDiff {
    /// The icon of the file, chosen by the last component of its path.
    pub fn get_file_icon(&self) -> (icon: char)
        ensures
            icon == file_icon(base_name(self.filename@)),
    {
        let chars = chars_of(self.filename.as_str());
        let base = base_name_of(chars.as_slice());
        let name = string_of(base.as_slice());
        get_file_icon(name.as_str())
    }

    /// The statistics of the file as text: ` +<added> -<removed>`.
    pub fn diff_stats(&self) -> (text: String)
        ensures
            text@ == stats_text(self.added_lines as nat, self.removed_lines as nat),
    {
        let mut chars = chars_of(" +");
        let added = decimal_chars(self.added_lines as u64);
        append_chars(&mut chars, added.as_slice());
        let minus = chars_of(" -");
        append_chars(&mut chars, minus.as_slice());
        let removed = decimal_chars(self.removed_lines as u64);
        append_chars(&mut chars, removed.as_slice());
        string_of(chars.as_slice())
    }
}

// ---------------------------------------------------------------------
// What parsing means
// ---------------------------------------------------------------------

/// A line that starts a new file block: one that begins with `diff --git`.
pub open spec fn is_boundary_line(line: Seq<char>) -> bool {
    "diff --git"@.is_prefix_of(line)
}

/// A line that gives a path label for the given sign: it begins with three
/// signs and a blank, as `--- a/path` and `+++ b/path` do.
pub open spec fn is_label_line(line: Seq<char>, sign: char) -> bool {
    line.len() >= 4 && line[0] == sign && line[1] == sign && line[2] == sign && line[3] == ' '
}

/// A changed line of the given sign (`+` or `-`): it begins with the sign
/// and is no path label.
pub open spec fn is_change_line(line: Seq<char>, sign: char) -> bool {
    line.len() >= 1 && line[0] == sign && !is_label_line(line, sign)
}

/// How many of the lines are changed lines of the given sign.
pub open spec fn change_count(lines: Seq<Seq<char>>, sign: char) -> nat
    decreases lines.len(),
{
    if lines.len() == 0 {
        0
    } else {
        change_count(lines.drop_last(), sign) + if is_change_line(lines.last(), sign) {
            1nat
        } else {
            0nat
        }
    }
}

/// Number of added lines in a block of diff text.
pub open spec fn added_count(content: Seq<char>) -> nat {
    change_count(split_lines(content), '+')
}

/// Number of removed lines in a block of diff text.
pub open spec fn removed_count(content: Seq<char>) -> nat {
    change_count(split_lines(content), '-')
}

/// The hash pair of a line `index <from>..<to> <mode>`: the second word of
/// the line, cut at its first `..`.
pub open spec fn index_hashes(line: Seq<char>) -> Option<(Seq<char>, Seq<char>)> {
    let parts = words(line);
    if "index "@.is_prefix_of(line) && parts.len() >= 2 && contains_seq(parts[1], ".."@) {
        let at = first_occurrence(parts[1], ".."@);
        Some((parts[1].take(at), parts[1].skip(at + 2)))
    } else {
        None
    }
}

/// A record that is still collecting lines.
pub struct OpenRecord {
    pub filename: Seq<char>,
    pub old_path: Seq<char>,
    pub new_path: Seq<char>,
    pub hashes: Option<(Seq<char>, Seq<char>)>,
    pub content: Seq<char>,
}

/// The record that a boundary line `diff --git a/<path> b/<path>` opens.
/// The path is the third word of the line without the `a/` before it: one
/// `a/` is taken off, so that a file in a directory named `a` keeps its
/// directory, and a word without it is the path as it is. A line of fewer
/// than four words opens nothing.
pub open spec fn open_record(line: Seq<char>) -> Option<OpenRecord> {
    let parts = words(line);
    if parts.len() >= 4 {
        let name = without_prefix(parts[2], "a/"@);
        Some(
            OpenRecord {
                filename: name,
                old_path: "a/"@ + name,
                new_path: "b/"@ + name,
                hashes: None,
                content: line,
            },
        )
    } else {
        None
    }
}

/// The open record after one more line of its block.
pub open spec fn absorb(r: OpenRecord, line: Seq<char>) -> OpenRecord {
    let content = r.content + line;
    if "index "@.is_prefix_of(line) {
        match index_hashes(line) {
            Some(h) => OpenRecord { hashes: Some(h), content, ..r },
            None => OpenRecord { content, ..r },
        }
    } else if "--- "@.is_prefix_of(line) {
        OpenRecord { old_path: line_body(line).skip(4), content, ..r }
    } else if "+++ "@.is_prefix_of(line) {
        OpenRecord { new_path: line_body(line).skip(4), content, ..r }
    } else {
        OpenRecord { content, ..r }
    }
}

/// The finished record: its statistics are counted from its content.
pub open spec fn finish(r: OpenRecord) -> FileDiffView {
    FileDiffView {
        filename: r.filename,
        old_path: Some(r.old_path),
        new_path: Some(r.new_path),
        content: r.content,
        added_lines: added_count(r.content),
        removed_lines: removed_count(r.content),
        diff_key: match r.hashes {
            Some(h) => Some(
                DiffFileKeyView { from_hash: h.0, to_hash: h.1, file_path: r.filename },
            ),
            None => None,
        },
    }
}

/// The records that closing the open record, if there is one, adds.
pub open spec fn closed(cur: Option<OpenRecord>) -> Seq<FileDiffView> {
    match cur {
        Some(r) => seq![finish(r)],
        None => Seq::empty(),
    }
}

/// The records of the given lines, read with `cur` open. Lines outside a
/// record are dropped.
pub open spec fn scan(lines: Seq<Seq<char>>, cur: Option<OpenRecord>) -> Seq<FileDiffView>
    decreases lines.len(),
{
    if lines.len() == 0 {
        closed(cur)
    } else if is_boundary_line(lines[0]) {
        closed(cur) + scan(lines.drop_first(), open_record(lines[0]))
    } else {
        scan(
            lines.drop_first(),
            match cur {
                Some(r) => Some(absorb(r, lines[0])),
                None => None,
            },
        )
    }
}

/// The records of a diff text, in the order of the text.
pub open spec fn spec_parse(text: Seq<char>) -> Seq<FileDiffView> {
    scan(split_lines(text), None)
}

/// A record whose statistics are those of its content.
pub open spec fn stats_match_content(r: FileDiffView) -> bool {
    r.added_lines == added_count(r.content) && r.removed_lines == removed_count(r.content)
}

/// A diff text that can be joined to others: it is empty, or it begins with
/// a boundary marker and ends with a line feed.
pub open spec fn is_diff_text(text: Seq<char>) -> bool {
    text.len() == 0 || (is_boundary_line(text) && text.last() == '\n')
}


// ---------------------------------------------------------------------
// Parsing
// ---------------------------------------------------------------------

/// A record under construction.
struct Pending {
    filename: Vec<char>,
    old_path: Vec<char>,
    new_path: Vec<char>,
    hashes: Option<(Vec<char>, Vec<char>)>,
    content: Vec<char>,
}

impl Pending {
    spec fn model(&self) -> OpenRecord {
        OpenRecord {
            filename: self.filename@,
            old_path: self.old_path@,
            new_path: self.new_path@,
            hashes: match self.hashes {
                Some(h) => Some((h.0@, h.1@)),
                None => None,
            },
            content: self.content@,
        }
    }
}

spec fn pending_model(cur: Option<Pending>) -> Option<OpenRecord> {
    match cur {
        Some(p) => Some(p.model()),
        None => None,
    }
}

/// Whether a line is a changed line of the given sign.
fn is_change(line: &[char], sign: char) -> (r: bool)
    ensures
        r == is_change_line(line@, sign),
{
    line.len() >= 1 && line[0] == sign && !(line.len() >= 4 && line[1] == sign && line[2] == sign
        && line[3] == ' ')
}

/// Counts the changed lines of the given sign.
fn count_changes(lines: &Vec<Vec<char>>, sign: char) -> (n: usize)
    ensures
        n == change_count(views_of(lines@), sign),
{
    let mut n: usize = 0;
    let mut i: usize = 0;
    while i < lines.len()
        invariant
            i <= lines.len(),
            n <= i,
            n == change_count(views_of(lines@).take(i as int), sign),
        decreases lines.len() - i,
    {
        proof {
            let all = views_of(lines@);
            assert(all.take(i + 1).drop_last() =~= all.take(i as int));
            assert(all.take(i + 1).last() == lines@[i as int]@);
        }
        if is_change(lines[i].as_slice(), sign) {
            n += 1;
        }
        i += 1;
    }
    proof {
        assert(views_of(lines@).take(i as int) =~= views_of(lines@));
    }
    n
}

/// The hash pair of an `index` line.
fn hashes_of_line(line: &[char]) -> (r: Option<(Vec<char>, Vec<char>)>)
    ensures
        match r {
            Some(h) => index_hashes(line@) == Some((h.0@, h.1@)),
            None => index_hashes(line@) is None,
        },
{
    let prefix = chars_of("index ");
    if !starts_with(line, prefix.as_slice()) {
        return None;
    }
    let parts = split_whitespace(line);
    if parts.len() < 2 {
        return None;
    }
    let dots = chars_of("..");
    proof {
        reveal_strlit("..");
        assert(views_of(parts@)[1] == parts@[1]@);
    }
    let hash_part = &parts[1];
    let found = find(hash_part.as_slice(), dots.as_slice());
    match found {
        Some(at) => {
            assert(dots@.len() == 2);
            let len = hash_part.len();
            assert(occurs_at(hash_part@, dots@, at as int));
            let from = copy_range(hash_part.as_slice(), 0, at);
            let to = copy_range(hash_part.as_slice(), at + 2, len);
            proof {
                assert(hash_part@.take(at as int) =~= hash_part@.subrange(0, at as int));
                assert(hash_part@.skip(at + 2) =~= hash_part@.subrange(
                    at + 2,
                    hash_part@.len() as int,
                ));
            }
            Some((from, to))
        },
        None => None,
    }
}

/// The record that a boundary line opens.
fn open_from(line: &[char]) -> (r: Option<Pending>)
    ensures
        pending_model(r) == open_record(line@),
{
    let parts = split_whitespace(line);
    if parts.len() < 4 {
        return None;
    }
    let a_prefix = chars_of("a/");
    let b_prefix = chars_of("b/");
    proof {
        assert(views_of(parts@)[2] == parts@[2]@);
    }
    let name = strip_prefix(parts[2].as_slice(), a_prefix.as_slice());
    let mut old_path = a_prefix;
    append_chars(&mut old_path, name.as_slice());
    let mut new_path = b_prefix;
    append_chars(&mut new_path, name.as_slice());
    let content = copy_range(line, 0, line.len());
    proof {
        assert(line@.subrange(0, line@.len() as int) =~= line@);
    }
    Some(Pending { filename: name, old_path, new_path, hashes: None, content })
}

/// Adds one line to an open record.
fn absorb_line(p: Pending, line: &[char]) -> (r: Pending)
    ensures
        r.model() == absorb(p.model(), line@),
{
    let Pending { filename, old_path, new_path, hashes, content } = p;
    let mut content = content;
    append_chars(&mut content, line);
    let index_prefix = chars_of("index ");
    let old_prefix = chars_of("--- ");
    let new_prefix = chars_of("+++ ");
    if starts_with(line, index_prefix.as_slice()) {
        match hashes_of_line(line) {
            Some(h) => Pending { filename, old_path, new_path, hashes: Some(h), content },
            None => Pending { filename, old_path, new_path, hashes, content },
        }
    } else if starts_with(line, old_prefix.as_slice()) {
        let end = body_end(line);
        proof {
            reveal_strlit("--- ");
            lemma_label_in_body(line@, "--- "@);
            assert(line_body(line@).skip(4) =~= line@.subrange(4, end as int));
        }
        let label = copy_range(line, 4, end);
        Pending { filename, old_path: label, new_path, hashes, content }
    } else if starts_with(line, new_prefix.as_slice()) {
        let end = body_end(line);
        proof {
            reveal_strlit("+++ ");
            lemma_label_in_body(line@, "+++ "@);
            assert(line_body(line@).skip(4) =~= line@.subrange(4, end as int));
        }
        let label = copy_range(line, 4, end);
        Pending { filename, old_path, new_path: label, hashes, content }
    } else {
        Pending { filename, old_path, new_path, hashes, content }
    }
}

/// A prefix without line terminators lies within the body of the line.
proof fn lemma_label_in_body(line: Seq<char>, prefix: Seq<char>)
    requires
        prefix.is_prefix_of(line),
        forall|i: int| 0 <= i < prefix.len() ==> prefix[i] != '\r' && prefix[i] != '\n',
    ensures
        prefix.len() <= line_body(line).len(),
{
    let n = line.len() as int;
    let body = line_body(line);
    if body.len() < prefix.len() {
        assert(line.subrange(0, prefix.len() as int)[body.len() as int] == line[body.len() as int]);
    }
}

/// Closes a record: counts its statistics and builds its strings.
fn finish_record(p: Pending) -> (r: FileDiff)
    ensures
        r@ == finish(p.model()),
{
    let lines = lines_of(p.content.as_slice());
    let added = count_changes(&lines, '+');
    let removed = count_changes(&lines, '-');
    let filename = string_of(p.filename.as_slice());
    let diff_key = match &p.hashes {
        Some(h) => Some(
            DiffFileKey {
                from_hash: string_of(h.0.as_slice()),
                to_hash: string_of(h.1.as_slice()),
                file_path: filename.clone(),
            },
        ),
        None => None,
    };
    FileDiff {
        filename,
        old_path: Some(string_of(p.old_path.as_slice())),
        new_path: Some(string_of(p.new_path.as_slice())),
        content: string_of(p.content.as_slice()),
        added_lines: added,
        removed_lines: removed,
        diff_key,
    }
}

/// The views of a list of records.
pub open spec fn records_view(v: Seq<FileDiff>) -> Seq<FileDiffView> {
    Seq::new(v.len(), |i: int| v[i]@)
}

/// The diff parser.
pub struct DiffParser;

impl DiffParser {
    /// Recomputes the statistics of `file_diff` from `content`: the numbers
    /// of its added and of its removed lines.
    pub fn calculate_diff_stats(file_diff: &mut FileDiff, content: &str)
        ensures
            final(file_diff).added_lines == added_count(content@),
            final(file_diff).removed_lines == removed_count(content@),
            final(file_diff).filename == old(file_diff).filename,
            final(file_diff).old_path == old(file_diff).old_path,
            final(file_diff).new_path == old(file_diff).new_path,
            final(file_diff).content == old(file_diff).content,
            final(file_diff).diff_key == old(file_diff).diff_key,
    {
        let chars = chars_of(content);
        let lines = lines_of(chars.as_slice());
        file_diff.added_lines = count_changes(&lines, '+');
        file_diff.removed_lines = count_changes(&lines, '-');
    }

    /// Reads the hash pair of a line `index <from>..<to> <mode>`.
    pub fn parse_index_line(line: &str) -> (r: Option<(String, String)>)
        ensures
            match r {
                Some(h) => index_hashes(line@) == Some((h.0@, h.1@)),
                None => index_hashes(line@) is None,
            },
    {
        let chars = chars_of(line);
        match hashes_of_line(chars.as_slice()) {
            Some(h) => Some((string_of(h.0.as_slice()), string_of(h.1.as_slice()))),
            None => None,
        }
    }

    /// Parses diff text into one record per file block, in the order of the
    /// text. Never fails: text without a boundary marker gives no record.
    pub fn parse(diff_content: &str) -> (file_diffs: Vec<FileDiff>)
        ensures
            records_view(file_diffs@) == spec_parse(diff_content@),
            forall|i: int|
                0 <= i < file_diffs.len() ==> stats_match_content(#[trigger] file_diffs[i]@),
            totals_fit(records_view(file_diffs@)),
    {
        let text = chars_of(diff_content);
        proof {
            lemma_parsed_totals_fit(diff_content@);
        }
        let lines = lines_of(text.as_slice());
        let marker = chars_of("diff --git");
        let mut file_diffs: Vec<FileDiff> = Vec::new();
        let mut current: Option<Pending> = None;
        let mut i: usize = 0;
        proof {
            assert(views_of(lines@).skip(0) =~= views_of(lines@));
            assert(records_view(file_diffs@) + scan(views_of(lines@), None) =~= scan(
                views_of(lines@),
                None,
            ));
        }
        while i < lines.len()
            invariant
                i <= lines.len(),
                marker@ == "diff --git"@,
                views_of(lines@) == split_lines(diff_content@),
                spec_parse(diff_content@) == records_view(file_diffs@) + scan(
                    views_of(lines@).skip(i as int),
                    pending_model(current),
                ),
            decreases lines.len() - i,
        {
            let line = lines[i].as_slice();
            proof {
                let rest = views_of(lines@).skip(i as int);
                assert(rest[0] == line@);
                assert(rest.drop_first() =~= views_of(lines@).skip(i + 1));
            }
            if starts_with(line, marker.as_slice()) {
                let ghost before = records_view(file_diffs@);
                let ghost then = scan(views_of(lines@).skip(i + 1), open_record(line@));
                match current {
                    Some(p) => {
                        let record = finish_record(p);
                        file_diffs.push(record);
                        proof {
                            assert(records_view(file_diffs@) =~= before.push(finish(p.model())));
                            assert(before + (seq![finish(p.model())] + then) =~= before.push(
                                finish(p.model()),
                            ) + then);
                        }
                    },
                    None => {
                        proof {
                            assert(before + (Seq::<FileDiffView>::empty() + then) =~= before
                                + then);
                        }
                    },
                }
                current = open_from(line);
            } else {
                current =
                match current {
                    Some(p) => Some(absorb_line(p, line)),
                    None => None,
                };
            }
            i += 1;
        }
        let ghost before = records_view(file_diffs@);
        proof {
            assert(views_of(lines@).skip(i as int).len() == 0);
        }
        match current {
            Some(p) => {
                let record = finish_record(p);
                file_diffs.push(record);
                proof {
                    assert(records_view(file_diffs@) =~= before + seq![finish(p.model())]);
                }
            },
            None => {
                proof {
                    assert(before + Seq::<FileDiffView>::empty() =~= before);
                }
            },
        }
        proof {
            lemma_parse_stat_accounting(diff_content@);
            assert forall|i: int| 0 <= i < file_diffs.len() implies stats_match_content(
                #[trigger] file_diffs[i]@,
            ) by {
                assert(records_view(file_diffs@)[i] == file_diffs[i]@);
            }
        }
        file_diffs
    }
}

/// Parses text that was read from the input of the program. Text that
/// holds nothing but whitespace is no input at all.
pub fn parse_input(text: &str) -> (r: Option<Vec<FileDiff>>)
    ensures
        match r {
            Some(file_diffs) => {
                &&& !is_blank(text@)
                &&& records_view(file_diffs@) == spec_parse(text@)
                &&& totals_fit(records_view(file_diffs@))
            },
            None => is_blank(text@),
        },
{
    let chars = chars_of(text);
    if all_whitespace(chars.as_slice()) {
        None
    } else {
        Some(DiffParser::parse(text))
    }
}

// ---------------------------------------------------------------------
// Laws
// ---------------------------------------------------------------------

/// Every record that a scan yields has the statistics of its content.
pub proof fn lemma_scan_stat_accounting(lines: Seq<Seq<char>>, cur: Option<OpenRecord>)
    ensures
        forall|i: int|
            0 <= i < scan(lines, cur).len() ==> stats_match_content(#[trigger] scan(lines, cur)[i]),
    decreases lines.len(),
{
    if lines.len() == 0 {
        assert(scan(lines, cur) == closed(cur));
        assert forall|i: int| 0 <= i < scan(lines, cur).len() implies stats_match_content(
            #[trigger] scan(lines, cur)[i],
        ) by {
            assert(scan(lines, cur)[i] == finish(cur->0));
        }
    } else if is_boundary_line(lines[0]) {
        lemma_scan_stat_accounting(lines.drop_first(), open_record(lines[0]));
        let head = closed(cur);
        let tail = scan(lines.drop_first(), open_record(lines[0]));
        assert forall|i: int| 0 <= i < scan(lines, cur).len() implies stats_match_content(
            #[trigger] scan(lines, cur)[i],
        ) by {
            if i < head.len() {
                assert(scan(lines, cur)[i] == head[i]);
            } else {
                assert(scan(lines, cur)[i] == tail[i - head.len()]);
            }
        }
    } else {
        let next = match cur {
            Some(r) => Some(absorb(r, lines[0])),
            None => None,
        };
        lemma_scan_stat_accounting(lines.drop_first(), next);
        assert(scan(lines, cur) == scan(lines.drop_first(), next));
    }
}

/// Stat accounting: in every record of a parse, the number of added lines
/// is the number of lines of its content that begin with `+` and are no
/// `+++ ` label, and the number of removed lines is the same for `-` and
/// `--- `.
pub proof fn lemma_parse_stat_accounting(text: Seq<char>)
    ensures
        forall|i: int|
            0 <= i < spec_parse(text).len() ==> stats_match_content(#[trigger] spec_parse(text)[i]),
{
    lemma_scan_stat_accounting(split_lines(text), None);
}

/// Reading lines and then more lines that begin with a boundary line gives
/// the records of the first lines, then those of the others read alone.
pub proof fn lemma_scan_concat(
    first: Seq<Seq<char>>,
    second: Seq<Seq<char>>,
    cur: Option<OpenRecord>,
)
    requires
        second.len() == 0 || is_boundary_line(second[0]),
    ensures
        scan(first + second, cur) == scan(first, cur) + scan(second, None),
    decreases first.len(),
{
    if first.len() == 0 {
        assert(first + second =~= second);
        if second.len() == 0 {
            assert(scan(first, cur) + scan(second, None) =~= scan(first, cur));
        } else {
            let then = scan(second.drop_first(), open_record(second[0]));
            assert(closed(cur) + (Seq::<FileDiffView>::empty() + then) =~= closed(cur) + then);
        }
    } else {
        let all = first + second;
        assert(all[0] == first[0]);
        assert(all.drop_first() =~= first.drop_first() + second);
        if is_boundary_line(first[0]) {
            lemma_scan_concat(first.drop_first(), second, open_record(first[0]));
            let a = scan(first.drop_first(), open_record(first[0]));
            let b = scan(second, None);
            assert(closed(cur) + (a + b) =~= (closed(cur) + a) + b);
        } else {
            lemma_scan_concat(
                first.drop_first(),
                second,
                match cur {
                    Some(r) => Some(absorb(r, first[0])),
                    None => None,
                },
            );
        }
    }
}

/// A text that begins with a boundary marker has a first line that does.
pub proof fn lemma_first_line_is_boundary(text: Seq<char>)
    requires
        is_boundary_line(text),
    ensures
        split_lines(text).len() > 0,
        is_boundary_line(split_lines(text)[0]),
{
    reveal_strlit("diff --git");
    let marker = "diff --git"@;
    let n = first_line_len(text);
    lemma_first_line_len_bounds(text);
    lemma_marker_in_first_line(text, marker, 0);
    assert(text.take(n).subrange(0, marker.len() as int) =~= text.subrange(0, marker.len() as int));
}

/// A text that begins with characters none of which is a line feed has a
/// first line at least as long as they are.
proof fn lemma_marker_in_first_line(text: Seq<char>, marker: Seq<char>, k: int)
    requires
        0 <= k <= marker.len(),
        marker.skip(k).is_prefix_of(text),
        forall|i: int| 0 <= i < marker.len() ==> marker[i] != '\n',
    ensures
        first_line_len(text) >= marker.len() - k,
    decreases marker.len() - k,
{
    if k < marker.len() {
        let m = marker.skip(k);
        assert(text.subrange(0, m.len() as int)[0] == m[0]);
        assert(text[0] == marker[k]);
        let t = text.drop_first();
        assert(t.subrange(0, m.len() - 1) =~= text.subrange(0, m.len() as int).drop_first());
        assert(marker.skip(k + 1) =~= m.drop_first());
        lemma_marker_in_first_line(t, marker, k + 1);
    } else {
        lemma_first_line_len_bounds(text);
    }
}

/// The sum of the lengths of the contents of the records.
pub open spec fn content_length(records: Seq<FileDiffView>) -> nat
    decreases records.len(),
{
    if records.len() == 0 {
        0
    } else {
        content_length(records.drop_last()) + records.last().content.len()
    }
}

/// The contents of two lists of records are as long as those of the one
/// and those of the other together.
pub proof fn lemma_content_length_concat(a: Seq<FileDiffView>, b: Seq<FileDiffView>)
    ensures
        content_length(a + b) == content_length(a) + content_length(b),
    decreases b.len(),
{
    if b.len() == 0 {
        assert(a + b =~= a);
    } else {
        assert((a + b).drop_last() =~= a + b.drop_last());
        assert((a + b).last() == b.last());
        lemma_content_length_concat(a, b.drop_last());
    }
}

/// No more lines are changed lines than there are lines.
pub proof fn lemma_change_count_bound(lines: Seq<Seq<char>>, sign: char)
    ensures
        change_count(lines, sign) <= lines.len(),
    decreases lines.len(),
{
    if lines.len() > 0 {
        lemma_change_count_bound(lines.drop_last(), sign);
    }
}

/// A text has no more lines than characters.
pub proof fn lemma_split_lines_len(text: Seq<char>)
    ensures
        split_lines(text).len() <= text.len(),
    decreases text.len(),
{
    if text.len() > 0 {
        let n = first_line_len(text);
        lemma_first_line_len_bounds(text);
        lemma_split_lines_len(text.skip(n));
    }
}

/// A record counts no more changed lines than its content has characters.
pub proof fn lemma_stats_bound(r: FileDiffView)
    requires
        stats_match_content(r),
    ensures
        r.added_lines <= r.content.len(),
        r.removed_lines <= r.content.len(),
{
    lemma_split_lines_len(r.content);
    lemma_change_count_bound(split_lines(r.content), '+');
    lemma_change_count_bound(split_lines(r.content), '-');
}

/// The lines put together again.
pub open spec fn joined(lines: Seq<Seq<char>>) -> Seq<char>
    decreases lines.len(),
{
    if lines.len() == 0 {
        Seq::empty()
    } else {
        lines[0] + joined(lines.drop_first())
    }
}

/// The lines of a text, put together again, are the text.
pub proof fn lemma_joined_lines(text: Seq<char>)
    ensures
        joined(split_lines(text)) == text,
    decreases text.len(),
{
    if text.len() > 0 {
        let n = first_line_len(text);
        lemma_first_line_len_bounds(text);
        let rest = split_lines(text.skip(n));
        lemma_joined_lines(text.skip(n));
        assert((seq![text.take(n)] + rest).drop_first() =~= rest);
        assert(text.take(n) + text.skip(n) =~= text);
    }
}

/// Every record of a scan holds a piece of the text that is scanned: the
/// content of the open record and the lines that follow it.
pub proof fn lemma_scan_verbatim(
    text: Seq<char>,
    before: Seq<char>,
    lines: Seq<Seq<char>>,
    cur: Option<OpenRecord>,
)
    requires
        text == before + match cur {
            Some(r) => r.content,
            None => Seq::empty(),
        } + joined(lines),
    ensures
        forall|i: int|
            0 <= i < scan(lines, cur).len() ==> contains_seq(
                text,
                (#[trigger] scan(lines, cur)[i]).content,
            ),
    decreases lines.len(),
{
    let held = match cur {
        Some(r) => r.content,
        None => Seq::<char>::empty(),
    };
    let records = scan(lines, cur);
    assert forall|r: OpenRecord| cur == Some(r) implies contains_seq(text, finish(r).content) by {
        let at = before.len() as int;
        assert(text.subrange(at, at + r.content.len()) =~= r.content);
        assert(occurs_at(text, r.content, at));
    }
    if lines.len() == 0 {
    } else {
        let line = lines[0];
        let rest = lines.drop_first();
        if is_boundary_line(line) {
            let opened = open_record(line);
            let opened_content = match opened {
                Some(r) => r.content,
                None => Seq::<char>::empty(),
            };
            if opened is Some {
                assert(text =~= (before + held) + opened_content + joined(rest));
                lemma_scan_verbatim(text, before + held, rest, opened);
            } else {
                assert(text =~= (before + held + line) + opened_content + joined(rest));
                lemma_scan_verbatim(text, before + held + line, rest, opened);
            }
            let head = closed(cur);
            let tail = scan(rest, opened);
            assert forall|i: int| 0 <= i < records.len() implies contains_seq(
                text,
                (#[trigger] records[i]).content,
            ) by {
                if i < head.len() {
                    assert(records[i] == head[i]);
                } else {
                    assert(records[i] == tail[i - head.len()]);
                }
            }
        } else {
            let next = match cur {
                Some(r) => Some(absorb(r, line)),
                None => None,
            };
            let next_content = match next {
                Some(r) => r.content,
                None => Seq::<char>::empty(),
            };
            if cur is Some {
                assert(text =~= before + next_content + joined(rest));
                lemma_scan_verbatim(text, before, rest, next);
            } else {
                assert(text =~= (before + line) + next_content + joined(rest));
                lemma_scan_verbatim(text, before + line, rest, next);
            }
            assert(records == scan(rest, next));
        }
    }
}

/// The contents of the records of a scan are together no longer than the
/// content of the open record and the lines that are scanned.
pub proof fn lemma_scan_content_length(lines: Seq<Seq<char>>, cur: Option<OpenRecord>)
    ensures
        content_length(scan(lines, cur)) <= joined(lines).len() + match cur {
            Some(r) => r.content.len(),
            None => 0,
        },
    decreases lines.len(),
{
    let head = closed(cur);
    assert(content_length(head) == match cur {
        Some(r) => r.content.len(),
        None => 0,
    }) by {
        if cur is Some {
            assert(head.drop_last() =~= Seq::<FileDiffView>::empty());
            assert(content_length(head.drop_last()) == 0);
        }
    }
    if lines.len() > 0 {
        let line = lines[0];
        let rest = lines.drop_first();
        if is_boundary_line(line) {
            lemma_scan_content_length(rest, open_record(line));
            lemma_content_length_concat(head, scan(rest, open_record(line)));
        } else {
            let next = match cur {
                Some(r) => Some(absorb(r, line)),
                None => None,
            };
            lemma_scan_content_length(rest, next);
            assert(scan(lines, cur) == scan(rest, next));
        }
    }
}

/// A scan yields no more records than it reads lines, but for the open
/// one.
pub proof fn lemma_scan_len(lines: Seq<Seq<char>>, cur: Option<OpenRecord>)
    ensures
        scan(lines, cur).len() <= lines.len() + if cur is Some {
            1int
        } else {
            0int
        },
    decreases lines.len(),
{
    if lines.len() > 0 {
        let line = lines[0];
        let rest = lines.drop_first();
        if is_boundary_line(line) {
            lemma_scan_len(rest, open_record(line));
        } else {
            lemma_scan_len(
                rest,
                match cur {
                    Some(r) => Some(absorb(r, line)),
                    None => None,
                },
            );
        }
    }
}

/// A parse yields no more records than the text has characters.
pub proof fn lemma_parse_len(text: Seq<char>)
    ensures
        spec_parse(text).len() <= text.len(),
{
    lemma_split_lines_len(text);
    lemma_scan_len(split_lines(text), None);
}

/// The contents of the records of a parse are together no longer than the
/// text.
pub proof fn lemma_parse_content_length(text: Seq<char>)
    ensures
        content_length(spec_parse(text)) <= text.len(),
{
    lemma_joined_lines(text);
    lemma_scan_content_length(split_lines(text), None);
}

/// Verbatim content: the content of every record of a parse is a piece of
/// the text, unchanged.
pub proof fn lemma_parse_verbatim(text: Seq<char>)
    ensures
        forall|i: int|
            0 <= i < spec_parse(text).len() ==> contains_seq(
                text,
                (#[trigger] spec_parse(text)[i]).content,
            ),
{
    lemma_joined_lines(text);
    assert(text =~= Seq::<char>::empty() + Seq::<char>::empty() + joined(split_lines(text)));
    lemma_scan_verbatim(text, Seq::empty(), split_lines(text), None);
}

/// Parse concatenation: two diff texts, each empty or beginning with a
/// boundary marker and ending with a line feed, parse when joined to the
/// records of the first followed by the records of the second.
pub proof fn lemma_parse_concat(a: Seq<char>, b: Seq<char>)
    requires
        is_diff_text(a),
        is_diff_text(b),
    ensures
        spec_parse(a + b) == spec_parse(a) + spec_parse(b),
{
    lemma_split_lines_concat(a, b);
    if b.len() > 0 {
        lemma_first_line_is_boundary(b);
    }
    lemma_scan_concat(split_lines(a), split_lines(b), None);
}

} // verus!
