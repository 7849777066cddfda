//! What the panes show, as styled pieces of text. Drawing them is left to
//! the caller.

use crate::config::display_name_of;
use crate::icons::{directory_icon, file_icon, get_directory_icon, get_file_icon};
use crate::navigation::{Action, App, NavState};
use crate::parser::stats_text;
use crate::paths::base_name;
use crate::text::{
    append_chars, chars_of, copy_range, decimal, decimal_chars, owned, split_whitespace, string_of,
    views_of, words,
};
use crate::tree::{rows_view, FileTreeItem, FileTreeItemView};
use vstd::prelude::*;
use vstd::string::*;

verus! {

/// The color of a piece of text, by its role.
#[derive(Debug, Clone, Copy, PartialEq, Eq, Structural)]
pub enum SpanStyle {
    /// No color of its own.
    Raw,
    /// The lines of the tree.
    TreeLine,
    /// The foreground of the selected row.
    Selected,
    /// Ordinary text.
    Primary,
    /// A directory.
    Directory,
    /// A file.
    File,
    /// A file that is checked: dimmed.
    FileChecked,
    /// Added lines.
    Added,
    /// Removed lines.
    Removed,
}

/// A piece of text with its style.
#[derive(Debug)]
pub struct Span {
    pub text: String,
    pub style: SpanStyle,
}

/// What a [`Span`] holds, as mathematical values.
pub struct SpanView {
    pub text: Seq<char>,
    pub style: SpanStyle,
}

impl View for Span {
    type V = SpanView;

    open spec fn view(&self) -> SpanView {
        SpanView { text: self.text@, style: self.style }
    }
}

/// The views of a list of spans.
pub open spec fn spans_view(spans: Seq<Span>) -> Seq<SpanView> {
    Seq::new(spans.len(), |i: int| spans[i]@)
}

/// A styled piece of text.
pub open spec fn span(text: Seq<char>, style: SpanStyle) -> SpanView {
    SpanView { text, style }
}

/// The guides of the first `levels` ancestors: two columns each, with a
/// vertical line where the ancestor has siblings below it.
pub open spec fn guides(levels: int, flags: Seq<bool>) -> Seq<char>
    decreases levels,
{
    if levels <= 0 {
        Seq::empty()
    } else {
        guides(levels - 1, flags) + if levels - 1 < flags.len() && !flags[levels - 1] {
            seq!['\u{2502}', ' ']
        } else {
            seq![' ', ' ']
        }
    }
}

/// What is drawn before a row: the guides of its ancestors and, below the
/// top level, the connector of the row.
pub open spec fn tree_prefix(depth: nat, flags: Seq<bool>, is_last: bool) -> Seq<char> {
    guides(depth as int, flags) + if depth == 0 {
        Seq::<char>::empty()
    } else if is_last {
        seq!['\u{2570}', ' ']
    } else {
        seq!['\u{251c}', ' ']
    }
}

/// A name cut to the room that it has: where it is longer and the room is
/// more than 3 columns, its beginning with `...` behind it.
pub open spec fn display_name(name: Seq<char>, room: nat) -> Seq<char> {
    if name.len() > room && room > 3 {
        name.take(room - 3) + seq!['.', '.', '.']
    } else {
        name
    }
}

/// The statistics shown at the end of a row: for a collapsed directory
/// with files its totals, for a file its changed lines.
pub open spec fn row_statistics(row: FileTreeItemView) -> Option<Seq<char>> {
    if row.is_directory && !row.is_expanded && row.dir_file_count > 0 {
        Some(
            seq![' '] + decimal(row.dir_file_count) + " files +"@ + decimal(row.dir_added_lines)
                + " -"@ + decimal(row.dir_removed_lines),
        )
    } else {
        match row.file_diff {
            Some(file) => Some(stats_text(file.added_lines, file.removed_lines)),
            None => None,
        }
    }
}

/// The span of one word of the statistics.
pub open spec fn statistic_span(word: Seq<char>) -> SpanView {
    if word.len() > 0 && word[0] == '+' {
        span(word + seq![' '], SpanStyle::Added)
    } else if word.len() > 0 && word[0] == '-' {
        span(word, SpanStyle::Removed)
    } else {
        span(word + seq![' '], SpanStyle::Raw)
    }
}

/// The spans of the words of the statistics.
pub open spec fn statistic_spans(parts: Seq<Seq<char>>) -> Seq<SpanView> {
    Seq::new(parts.len(), |i: int| statistic_span(parts[i]))
}

/// The icon of a row.
pub open spec fn row_icon(row: FileTreeItemView) -> char {
    if row.is_directory {
        directory_icon(row.is_expanded)
    } else {
        match row.file_diff {
            Some(file) => file_icon(base_name(file.filename)),
            None => file_icon(Seq::empty()),
        }
    }
}

/// `count` spaces.
pub open spec fn spaces(count: nat) -> Seq<char> {
    Seq::new(count, |i: int| ' ')
}

/// The width of the checkbox of a row: files have one.
pub open spec fn checkbox_width(row: FileTreeItemView) -> nat {
    if row.is_directory {
        0
    } else {
        2
    }
}

/// The name of a row as it is shown in a pane with room for `room`
/// columns: cut to what the prefix, the checkbox, the icon and, for a row
/// with a record, 10 columns of statistics leave.
pub open spec fn shown_name(row: FileTreeItemView, room: nat) -> Seq<char> {
    let prefix = tree_prefix(row.depth, row.parent_is_last, row.is_last_child);
    let reserved: nat = if row.file_diff is Some {
        10
    } else {
        0
    };
    let used = prefix.len() + checkbox_width(row) + 2 + reserved;
    display_name(
        row.name,
        if room > used {
            (room - used) as nat
        } else {
            0
        },
    )
}

/// The columns that a row takes before its statistics.
pub open spec fn written_width(row: FileTreeItemView, room: nat) -> nat {
    tree_prefix(row.depth, row.parent_is_last, row.is_last_child).len() + checkbox_width(row) + 2
        + shown_name(row, room).len()
}

/// The span of the prefix of a row, where it has one.
pub open spec fn prefix_spans(row: FileTreeItemView) -> Seq<SpanView> {
    let prefix = tree_prefix(row.depth, row.parent_is_last, row.is_last_child);
    if prefix.len() > 0 {
        seq![span(prefix, SpanStyle::TreeLine)]
    } else {
        Seq::empty()
    }
}

/// The span of the checkbox of a row, where it has one.
pub open spec fn checkbox_spans(
    row: FileTreeItemView,
    is_selected: bool,
    is_checked: bool,
) -> Seq<SpanView> {
    if row.is_directory {
        Seq::empty()
    } else {
        seq![
            span(
                seq![
                    if is_checked {
                        '\u{2611}'
                    } else {
                        '\u{2610}'
                    },
                    ' ',
                ],
                if is_selected {
                    SpanStyle::Selected
                } else {
                    SpanStyle::Primary
                },
            ),
        ]
    }
}

/// The spans of the icon and of the name of a row.
pub open spec fn name_spans(
    row: FileTreeItemView,
    is_selected: bool,
    is_checked: bool,
    room: nat,
) -> Seq<SpanView> {
    seq![
        span(
            seq![row_icon(row), ' '],
            if !row.is_directory {
                SpanStyle::Raw
            } else if is_selected {
                SpanStyle::Selected
            } else {
                SpanStyle::Directory
            },
        ),
        span(
            shown_name(row, room),
            if is_selected {
                SpanStyle::Selected
            } else if row.is_directory {
                SpanStyle::Directory
            } else if is_checked {
                SpanStyle::FileChecked
            } else {
                SpanStyle::File
            },
        ),
    ]
}

/// The spans of the statistics of a row: where they fit, blanks that put
/// them at the right edge, then their words.
pub open spec fn statistics_spans(row: FileTreeItemView, room: nat) -> Seq<SpanView> {
    match row_statistics(row) {
        Some(stats) => if written_width(row, room) + stats.len() < room {
            seq![
                span(
                    spaces((room - written_width(row, room) - stats.len()) as nat),
                    SpanStyle::Raw,
                ),
            ] + statistic_spans(words(stats))
        } else {
            Seq::empty()
        },
        None => Seq::empty(),
    }
}

/// The spans of a row of the file list in a pane with room for `room`
/// columns of text: prefix, checkbox, icon, name and statistics.
pub open spec fn row_spans(
    row: FileTreeItemView,
    is_selected: bool,
    is_checked: bool,
    room: nat,
) -> Seq<SpanView> {
    prefix_spans(row) + checkbox_spans(row, is_selected, is_checked) + name_spans(
        row,
        is_selected,
        is_checked,
        room,
    ) + statistics_spans(row, room)
}

/// Builds the prefix of a row.
fn build_prefix(depth: usize, flags: &Vec<bool>, is_last: bool) -> (out: Vec<char>)
    ensures
        out@ == tree_prefix(depth as nat, flags@, is_last),
{
    let mut out: Vec<char> = Vec::new();
    let mut level: usize = 0;
    while level < depth
        invariant
            level <= depth,
            out@ == guides(level as int, flags@),
        decreases depth - level,
    {
        let ghost before = out@;
        if level < flags.len() && !flags[level] {
            out.push('\u{2502}');
            out.push(' ');
            proof {
                assert(out@ =~= before + seq!['\u{2502}', ' ']);
            }
        } else {
            out.push(' ');
            out.push(' ');
            proof {
                assert(out@ =~= before + seq![' ', ' ']);
            }
        }
        level += 1;
    }
    let ghost before = out@;
    if depth > 0 {
        if is_last {
            out.push('\u{2570}');
            out.push(' ');
            proof {
                assert(out@ =~= before + seq!['\u{2570}', ' ']);
            }
        } else {
            out.push('\u{251c}');
            out.push(' ');
            proof {
                assert(out@ =~= before + seq!['\u{251c}', ' ']);
            }
        }
    } else {
        proof {
            assert(out@ =~= before + Seq::<char>::empty());
        }
    }
    out
}

/// Cuts a name to the room that it has.
fn build_display_name(name: &[char], room: usize) -> (out: Vec<char>)
    ensures
        out@ == display_name(name@, room as nat),
{
    if name.len() > room && room > 3 {
        let mut out = copy_range(name, 0, room - 3);
        out.push('.');
        out.push('.');
        out.push('.');
        proof {
            assert(out@ =~= name@.take(room - 3) + seq!['.', '.', '.']);
        }
        out
    } else {
        let out = copy_range(name, 0, name.len());
        proof {
            assert(name@.subrange(0, name@.len() as int) =~= name@);
        }
        out
    }
}

/// The statistics shown at the end of a row.
fn build_row_statistics(row: &FileTreeItem) -> (out: Option<Vec<char>>)
    ensures
        match out {
            Some(s) => row_statistics(row@) == Some(s@),
            None => row_statistics(row@) is None,
        },
{
    if row.is_directory && !row.is_expanded && row.dir_file_count > 0 {
        let mut out: Vec<char> = Vec::new();
        out.push(' ');
        append_chars(&mut out, decimal_chars(row.dir_file_count as u64).as_slice());
        append_chars(&mut out, chars_of(" files +").as_slice());
        append_chars(&mut out, decimal_chars(row.dir_added_lines as u64).as_slice());
        append_chars(&mut out, chars_of(" -").as_slice());
        append_chars(&mut out, decimal_chars(row.dir_removed_lines as u64).as_slice());
        proof {
            assert(out@ =~= seq![' '] + decimal(row.dir_file_count as nat) + " files +"@ + decimal(
                row.dir_added_lines as nat,
            ) + " -"@ + decimal(row.dir_removed_lines as nat));
        }
        Some(out)
    } else {
        match &row.file_diff {
            Some(file) => Some(chars_of(file.diff_stats().as_str())),
            None => None,
        }
    }
}

/// The span of one word of the statistics.
fn build_statistic_span(word: &Vec<char>) -> (out: Span)
    ensures
        out@ == statistic_span(word@),
{
    if word.len() > 0 && word[0] == '-' {
        Span { text: string_of(word.as_slice()), style: SpanStyle::Removed }
    } else {
        let mut text = copy_range(word.as_slice(), 0, word.len());
        text.push(' ');
        proof {
            assert(text@ =~= word@ + seq![' ']);
        }
        let style = if word.len() > 0 && word[0] == '+' {
            SpanStyle::Added
        } else {
            SpanStyle::Raw
        };
        Span { text: string_of(text.as_slice()), style }
    }
}

/// The icon of a row.
fn build_row_icon(row: &FileTreeItem) -> (icon: char)
    ensures
        icon == row_icon(row@),
{
    if row.is_directory {
        get_directory_icon(row.is_expanded)
    } else {
        match &row.file_diff {
            Some(file) => file.get_file_icon(),
            None => {
                let empty = String::new();
                get_file_icon(empty.as_str())
            },
        }
    }
}

/// Appends spans to spans.
fn append_spans(spans: &mut Vec<Span>, more: Vec<Span>)
    ensures
        spans_view(final(spans)@) == spans_view(old(spans)@) + spans_view(more@),
{
    let ghost before = spans_view(spans@);
    let ghost added = spans_view(more@);
    let mut more = more;
    spans.append(&mut more);
    proof {
        assert(spans_view(spans@) =~= before + added);
    }
}

/// The span of the prefix of a row, and the width of the prefix.
fn build_prefix_spans(row: &FileTreeItem) -> (out: (Vec<Span>, usize))
    ensures
        spans_view(out.0@) == prefix_spans(row@),
        out.1 == tree_prefix(row@.depth, row@.parent_is_last, row@.is_last_child).len(),
{
    let prefix = build_prefix(row.depth, &row.parent_is_last, row.is_last_child);
    let mut spans: Vec<Span> = Vec::new();
    if prefix.len() > 0 {
        spans.push(Span { text: string_of(prefix.as_slice()), style: SpanStyle::TreeLine });
        proof {
            assert(spans_view(spans@) =~= seq![span(prefix@, SpanStyle::TreeLine)]);
        }
    } else {
        proof {
            assert(spans_view(spans@) =~= Seq::<SpanView>::empty());
        }
    }
    (spans, prefix.len())
}

/// The span of the checkbox of a row.
fn build_checkbox_spans(row: &FileTreeItem, is_selected: bool, is_checked: bool) -> (spans: Vec<
    Span,
>)
    ensures
        spans_view(spans@) == checkbox_spans(row@, is_selected, is_checked),
{
    let mut spans: Vec<Span> = Vec::new();
    if !row.is_directory {
        let mut text: Vec<char> = Vec::new();
        text.push(
            if is_checked {
                '\u{2611}'
            } else {
                '\u{2610}'
            },
        );
        text.push(' ');
        let style = if is_selected {
            SpanStyle::Selected
        } else {
            SpanStyle::Primary
        };
        spans.push(Span { text: string_of(text.as_slice()), style });
        proof {
            assert(text@ =~= seq![
                if is_checked {
                    '\u{2611}'
                } else {
                    '\u{2610}'
                },
                ' ',
            ]);
            assert(spans_view(spans@) =~= seq![span(text@, style)]);
        }
    } else {
        proof {
            assert(spans_view(spans@) =~= Seq::<SpanView>::empty());
        }
    }
    spans
}

/// The spans of the icon and of the name of a row, and the width of the
/// name as it is shown.
fn build_name_spans(
    row: &FileTreeItem,
    is_selected: bool,
    is_checked: bool,
    room: usize,
    prefix_len: usize,
) -> (out: (Vec<Span>, usize))
    requires
        prefix_len == tree_prefix(row@.depth, row@.parent_is_last, row@.is_last_child).len(),
    ensures
        spans_view(out.0@) == name_spans(row@, is_selected, is_checked, room as nat),
        out.1 == shown_name(row@, room as nat).len(),
{
    let checkbox: usize = if row.is_directory {
        0
    } else {
        2
    };
    let reserved: usize = if row.file_diff.is_some() {
        10
    } else {
        0
    };
    let name_room: usize = if prefix_len >= room {
        0
    } else {
        let fixed = checkbox + 2 + reserved;
        if room - prefix_len > fixed {
            room - prefix_len - fixed
        } else {
            0
        }
    };
    let name_chars = chars_of(row.name.as_str());
    let name = build_display_name(name_chars.as_slice(), name_room);
    let mut icon_text: Vec<char> = Vec::new();
    icon_text.push(build_row_icon(row));
    icon_text.push(' ');
    let icon_style = if !row.is_directory {
        SpanStyle::Raw
    } else if is_selected {
        SpanStyle::Selected
    } else {
        SpanStyle::Directory
    };
    let name_style = if is_selected {
        SpanStyle::Selected
    } else if row.is_directory {
        SpanStyle::Directory
    } else if is_checked {
        SpanStyle::FileChecked
    } else {
        SpanStyle::File
    };
    let mut spans: Vec<Span> = Vec::new();
    spans.push(Span { text: string_of(icon_text.as_slice()), style: icon_style });
    spans.push(Span { text: string_of(name.as_slice()), style: name_style });
    proof {
        assert(icon_text@ =~= seq![row_icon(row@), ' ']);
        assert(spans_view(spans@) =~= seq![span(icon_text@, icon_style), span(name@, name_style)]);
    }
    (spans, name.len())
}

/// The spans of the words of statistics.
fn build_statistic_spans(stats: &Vec<char>) -> (spans: Vec<Span>)
    ensures
        spans_view(spans@) == statistic_spans(words(stats@)),
{
    let parts = split_whitespace(stats.as_slice());
    let mut spans: Vec<Span> = Vec::new();
    let mut k: usize = 0;
    proof {
        assert(spans_view(spans@) =~= statistic_spans(words(stats@)).take(0));
    }
    while k < parts.len()
        invariant
            k <= parts.len(),
            views_of(parts@) == words(stats@),
            spans_view(spans@) == statistic_spans(words(stats@)).take(k as int),
        decreases parts.len() - k,
    {
        let ghost before = spans_view(spans@);
        proof {
            assert(views_of(parts@)[k as int] == parts@[k as int]@);
        }
        let piece = build_statistic_span(&parts[k]);
        spans.push(piece);
        proof {
            let all = statistic_spans(words(stats@));
            assert(spans_view(spans@) =~= before.push(piece@));
            assert(all.take(k + 1) =~= all.take(k as int).push(all[k as int]));
        }
        k += 1;
    }
    proof {
        let all = statistic_spans(words(stats@));
        assert(all.take(parts@.len() as int) =~= all);
    }
    spans
}

/// The spans of the statistics of a row.
fn build_statistics_spans(
    row: &FileTreeItem,
    room: usize,
    prefix_len: usize,
    name_len: usize,
) -> (spans: Vec<Span>)
    requires
        prefix_len == tree_prefix(row@.depth, row@.parent_is_last, row@.is_last_child).len(),
        name_len == shown_name(row@, room as nat).len(),
    ensures
        spans_view(spans@) == statistics_spans(row@, room as nat),
{
    let checkbox: usize = if row.is_directory {
        0
    } else {
        2
    };
    let mut spans: Vec<Span> = Vec::new();
    proof {
        assert(spans_view(spans@) =~= Seq::<SpanView>::empty());
    }
    match build_row_statistics(row) {
        Some(stats) => {
            let stats_len = stats.len();
            let fits = prefix_len < room && checkbox + 2 < room - prefix_len && name_len < room
                - prefix_len - checkbox - 2 && stats_len < room - prefix_len - checkbox - 2
                - name_len;
            if fits {
                let padding = room - prefix_len - checkbox - 2 - name_len - stats_len;
                let mut blank: Vec<char> = Vec::new();
                let mut i: usize = 0;
                proof {
                    assert(blank@ =~= spaces(0));
                }
                while i < padding
                    invariant
                        i <= padding,
                        blank@ == spaces(i as nat),
                    decreases padding - i,
                {
                    blank.push(' ');
                    proof {
                        assert(blank@ =~= spaces((i + 1) as nat));
                    }
                    i += 1;
                }
                spans.push(Span { text: string_of(blank.as_slice()), style: SpanStyle::Raw });
                proof {
                    assert(spans_view(spans@) =~= seq![span(blank@, SpanStyle::Raw)]);
                }
                append_spans(&mut spans, build_statistic_spans(&stats));
            }
        },
        None => {},
    }
    spans
}

/// The spans of a row of the file list in a pane with room for `room`
/// columns of text.
pub fn render_row(row: &FileTreeItem, is_selected: bool, is_checked: bool, room: u16) -> (spans:
    Vec<Span>)
    ensures
        spans_view(spans@) == row_spans(row@, is_selected, is_checked, room as nat),
{
    let room: usize = room as usize;
    let (mut spans, prefix_len) = build_prefix_spans(row);
    append_spans(&mut spans, build_checkbox_spans(row, is_selected, is_checked));
    let (names, name_len) = build_name_spans(row, is_selected, is_checked, room, prefix_len);
    append_spans(&mut spans, names);
    append_spans(&mut spans, build_statistics_spans(row, room, prefix_len, name_len));
    spans
}


// ---------------------------------------------------------------------
// The file list
// ---------------------------------------------------------------------

/// One line of the file list.
#[derive(Debug)]
pub struct ListLine {
    pub spans: Vec<Span>,
    /// Whether the line is the selected one, which has another background.
    pub selected: bool,
}

/// What a [`ListLine`] holds, as mathematical values.
pub struct ListLineView {
    pub spans: Seq<SpanView>,
    pub selected: bool,
}

impl View for ListLine {
    type V = ListLineView;

    open spec fn view(&self) -> ListLineView {
        ListLineView { spans: spans_view(self.spans@), selected: self.selected }
    }
}

/// The views of a list of lines.
pub open spec fn lines_view(lines: Seq<ListLine>) -> Seq<ListLineView> {
    Seq::new(lines.len(), |i: int| lines[i]@)
}

/// The file list: its title and its lines.
#[derive(Debug)]
pub struct FileList {
    pub title: String,
    pub lines: Vec<ListLine>,
}

/// The line of the row at `index` of the active list.
pub open spec fn list_line(s: NavState, index: int, area_width: u16) -> ListLineView {
    let row = s.active()[index];
    ListLineView {
        spans: row_spans(
            row,
            index == s.selected,
            s.checked.contains(row.full_path),
            area_width.saturating_sub(4) as nat,
        ),
        selected: index == s.selected,
    }
}

/// The lines of the file list in a pane of the given width, of which the
/// border and the padding take 4 columns.
pub open spec fn list_lines(s: NavState, area_width: u16) -> Seq<ListLineView> {
    Seq::new(s.active().len(), |i: int| list_line(s, i, area_width))
}

/// The title of the file list: what is listed, and how many rows.
pub open spec fn list_title(s: NavState) -> Seq<char> {
    if s.search_mode {
        if s.query.len() == 0 {
            " Search Mode - Type to filter ("@ + decimal(s.active().len()) + " items)"@
        } else {
            " Search: '"@ + s.query + "' ("@ + decimal(s.active().len()) + " items)"@
        }
    } else {
        " Files & Directories ("@ + decimal(s.active().len()) + " items)"@
    }
}

/// The file list of the viewer in a pane of the given width.
pub fn render_file_list(app: &App, area_width: u16) -> (list: FileList)
    ensures
        list.title@ == list_title(app.state()),
        lines_view(list.lines@) == list_lines(app.state(), area_width),
{
    let room = area_width.saturating_sub(4);
    let items = app.get_current_file_tree_items();
    let mut lines: Vec<ListLine> = Vec::new();
    let mut i: usize = 0;
    proof {
        assert(lines_view(lines@) =~= list_lines(app.state(), area_width).take(0));
    }
    while i < items.len()
        invariant
            i <= items.len(),
            room == area_width.saturating_sub(4),
            rows_view(items@) == app.state().active(),
            lines_view(lines@) == list_lines(app.state(), area_width).take(i as int),
        decreases items.len() - i,
    {
        let ghost before = lines_view(lines@);
        proof {
            assert(rows_view(items@)[i as int] == items@[i as int]@);
        }
        let row = &items[i];
        let is_selected = i == app.selected_index();
        let is_checked = app.checked_files().contains(&row.full_path);
        let line = ListLine {
            spans: render_row(row, is_selected, is_checked, room),
            selected: is_selected,
        };
        lines.push(line);
        proof {
            let all = list_lines(app.state(), area_width);
            assert(lines_view(lines@) =~= before.push(line@));
            assert(all.take(i + 1) =~= all.take(i as int).push(all[i as int]));
        }
        i += 1;
    }
    proof {
        let all = list_lines(app.state(), area_width);
        assert(all.take(items@.len() as int) =~= all);
    }
    let count = decimal_chars(items.len() as u64);
    let mut title: Vec<char> = Vec::new();
    if app.search_mode() {
        let query = chars_of(app.search_query().as_str());
        if query.len() == 0 {
            append_chars(&mut title, chars_of(" Search Mode - Type to filter (").as_slice());
        } else {
            append_chars(&mut title, chars_of(" Search: '").as_slice());
            append_chars(&mut title, query.as_slice());
            append_chars(&mut title, chars_of("' (").as_slice());
        }
    } else {
        append_chars(&mut title, chars_of(" Files & Directories (").as_slice());
    }
    append_chars(&mut title, count.as_slice());
    append_chars(&mut title, chars_of(" items)").as_slice());
    proof {
        assert(title@ =~= list_title(app.state()));
    }
    FileList { title: string_of(title.as_slice()), lines }
}

// ---------------------------------------------------------------------
// The status line
// ---------------------------------------------------------------------

/// The span of one word of the statistics in the status line.
pub open spec fn status_statistic_span(word: Seq<char>) -> SpanView {
    if word.len() > 0 && word[0] == '+' {
        span(word, SpanStyle::Added)
    } else if word.len() > 0 && word[0] == '-' {
        span(word, SpanStyle::Removed)
    } else {
        span(word, SpanStyle::Raw)
    }
}

/// The spans of the first `upto` words of the statistics in the status
/// line, with a blank between two words.
pub open spec fn status_statistic_spans(parts: Seq<Seq<char>>, upto: int) -> Seq<SpanView>
    decreases upto,
{
    if upto <= 0 || upto > parts.len() {
        Seq::empty()
    } else {
        status_statistic_spans(parts, upto - 1).push(
            status_statistic_span(parts[upto - 1]),
        ) + if upto < parts.len() {
            seq![span(seq![' '], SpanStyle::Raw)]
        } else {
            Seq::empty()
        }
    }
}

/// What the status line says of the selected row, before the scroll
/// offsets.
pub open spec fn status_of_row(row: FileTreeItemView) -> Seq<SpanView> {
    if row.is_directory {
        seq![
            span(" : "@, SpanStyle::Raw),
            span(row.full_path, SpanStyle::Directory),
            span(" | Directory | "@, SpanStyle::Raw),
        ]
    } else {
        match row.file_diff {
            Some(file) => {
                let parts = words(stats_text(file.added_lines, file.removed_lines));
                seq![
                    span(
                        seq![' ', file_icon(base_name(file.filename)), ':', ' '],
                        SpanStyle::Raw,
                    ),
                    span(row.full_path, SpanStyle::File),
                    span(" | "@, SpanStyle::Raw),
                ] + status_statistic_spans(parts, parts.len() as int) + seq![
                    span(" | "@, SpanStyle::Raw),
                ]
            },
            None => seq![span(" : "@ + row.full_path + " | No diff | "@, SpanStyle::Raw)],
        }
    }
}

/// The status line: the selected row and the scroll offsets.
pub open spec fn status_line(s: NavState) -> Seq<SpanView> {
    match s.selected_row() {
        Some(row) => status_of_row(row) + seq![
            span(
                "Scroll: "@ + decimal(s.vertical_scroll as nat) + seq![','] + decimal(
                    s.horizontal_scroll as nat,
                ),
                SpanStyle::Raw,
            ),
        ],
        None => seq![span(" No item selected"@, SpanStyle::Raw)],
    }
}

/// A span of a literal text.
fn literal(text: &str, style: SpanStyle) -> (out: Span)
    ensures
        out@ == span(text@, style),
{
    Span { text: owned(text), style }
}

/// The spans of the statistics in the status line.
fn build_status_statistics(stats: &Vec<char>) -> (spans: Vec<Span>)
    ensures
        spans_view(spans@) == status_statistic_spans(words(stats@), words(stats@).len() as int),
{
    let parts = split_whitespace(stats.as_slice());
    let mut spans: Vec<Span> = Vec::new();
    let mut k: usize = 0;
    proof {
        assert(spans_view(spans@) =~= status_statistic_spans(words(stats@), 0));
    }
    while k < parts.len()
        invariant
            k <= parts.len(),
            views_of(parts@) == words(stats@),
            spans_view(spans@) == status_statistic_spans(words(stats@), k as int),
        decreases parts.len() - k,
    {
        let ghost before = spans_view(spans@);
        proof {
            assert(views_of(parts@)[k as int] == parts@[k as int]@);
        }
        let word = &parts[k];
        let style = if word.len() > 0 && word[0] == '+' {
            SpanStyle::Added
        } else if word.len() > 0 && word[0] == '-' {
            SpanStyle::Removed
        } else {
            SpanStyle::Raw
        };
        spans.push(Span { text: string_of(word.as_slice()), style });
        proof {
            assert(spans_view(spans@) =~= before.push(status_statistic_span(word@)));
        }
        if k + 1 < parts.len() {
            let ghost with_word = spans_view(spans@);
            let mut blank: Vec<char> = Vec::new();
            blank.push(' ');
            spans.push(Span { text: string_of(blank.as_slice()), style: SpanStyle::Raw });
            proof {
                assert(blank@ =~= seq![' ']);
                assert(spans_view(spans@) =~= with_word + seq![span(seq![' '], SpanStyle::Raw)]);
            }
        } else {
            proof {
                let so_far = spans_view(spans@);
                assert(so_far + Seq::<SpanView>::empty() =~= so_far);
            }
        }
        k += 1;
    }
    spans
}

/// What the status line says of a row.
fn build_status_of_row(row: &FileTreeItem) -> (spans: Vec<Span>)
    ensures
        spans_view(spans@) == status_of_row(row@),
{
    let mut spans: Vec<Span> = Vec::new();
    if row.is_directory {
        spans.push(literal(" : ", SpanStyle::Raw));
        spans.push(Span { text: row.full_path.clone(), style: SpanStyle::Directory });
        spans.push(literal(" | Directory | ", SpanStyle::Raw));
        proof {
            assert(spans_view(spans@) =~= status_of_row(row@));
        }
    } else {
        match &row.file_diff {
            Some(file) => {
                let mut head: Vec<char> = Vec::new();
                head.push(' ');
                head.push(file.get_file_icon());
                head.push(':');
                head.push(' ');
                proof {
                    assert(head@ =~= seq![' ', file_icon(base_name(file@.filename)), ':', ' ']);
                }
                spans.push(Span { text: string_of(head.as_slice()), style: SpanStyle::Raw });
                spans.push(Span { text: row.full_path.clone(), style: SpanStyle::File });
                spans.push(literal(" | ", SpanStyle::Raw));
                let ghost first = spans_view(spans@);
                proof {
                    assert(first =~= seq![
                        span(head@, SpanStyle::Raw),
                        span(row@.full_path, SpanStyle::File),
                        span(" | "@, SpanStyle::Raw),
                    ]);
                }
                let stats = chars_of(file.diff_stats().as_str());
                append_spans(&mut spans, build_status_statistics(&stats));
                let ghost second = spans_view(spans@);
                spans.push(literal(" | ", SpanStyle::Raw));
                proof {
                    assert(spans_view(spans@) =~= second + seq![span(" | "@, SpanStyle::Raw)]);
                }
            },
            None => {
                let mut text = owned(" : ");
                text.append(row.full_path.as_str());
                text.append(" | No diff | ");
                spans.push(Span { text, style: SpanStyle::Raw });
                proof {
                    assert(spans_view(spans@) =~= status_of_row(row@));
                }
            },
        }
    }
    spans
}

/// The status line of the viewer.
pub fn render_status_line(app: &App) -> (spans: Vec<Span>)
    ensures
        spans_view(spans@) == status_line(app.state()),
{
    let items = app.get_current_file_tree_items();
    let selected = app.selected_index();
    if selected < items.len() {
        proof {
            assert(rows_view(items@)[selected as int] == items@[selected as int]@);
        }
        let mut spans = build_status_of_row(&items[selected]);
        let ghost before = spans_view(spans@);
        let vertical = app.vertical_scroll();
        let horizontal = app.horizontal_scroll();
        let mut text = chars_of("Scroll: ");
        append_chars(&mut text, decimal_chars(vertical as u64).as_slice());
        text.push(',');
        append_chars(&mut text, decimal_chars(horizontal as u64).as_slice());
        proof {
            assert(text@ =~= "Scroll: "@ + decimal(vertical as nat) + seq![','] + decimal(
                horizontal as nat,
            ));
        }
        spans.push(Span { text: string_of(text.as_slice()), style: SpanStyle::Raw });
        proof {
            assert(spans_view(spans@) =~= before + seq![span(text@, SpanStyle::Raw)]);
        }
        spans
    } else {
        let mut spans: Vec<Span> = Vec::new();
        spans.push(literal(" No item selected", SpanStyle::Raw));
        proof {
            assert(spans_view(spans@) =~= seq![span(" No item selected"@, SpanStyle::Raw)]);
        }
        spans
    }
}

// ---------------------------------------------------------------------
// The search box and the diff pane
// ---------------------------------------------------------------------

/// The search box.
#[derive(Debug)]
pub struct SearchBox {
    pub text: String,
    pub title: String,
    /// Whether the text is a hint, shown dimmed.
    pub dimmed: bool,
    /// Whether the box has the focus: the query is being typed.
    pub focused: bool,
}

/// The text of the search box: a hint or the query while it is typed, and
/// what is filtered once it is fixed.
pub open spec fn search_text(s: NavState) -> Seq<char> {
    if s.search_input_mode {
        if s.query.len() == 0 {
            "Filter files \u{f0b1b} "@
        } else {
            "\u{f0b1b} "@ + s.query
        }
    } else if s.query.len() == 0 {
        "\u{f0b1b} All files"@
    } else {
        "\u{f0b1b} Filtered: '"@ + s.query + "'"@
    }
}

/// The title of the search box.
pub open spec fn search_title(s: NavState) -> Seq<char> {
    if s.search_input_mode {
        " Search (/: search, Enter: confirm, ESC: exit)"@
    } else {
        " Search Results (/: new search, ESC: exit)"@
    }
}

/// The search box of the viewer.
pub fn render_search_box(app: &App) -> (r: SearchBox)
    ensures
        r.text@ == search_text(app.state()),
        r.title@ == search_title(app.state()),
        r.dimmed == (app.state().query.len() == 0 && app.state().search_input_mode),
        r.focused == app.state().search_input_mode,
{
    let query = chars_of(app.search_query().as_str());
    let empty = query.len() == 0;
    let typing = app.search_input_mode();
    let text = if typing {
        if empty {
            owned("Filter files \u{f0b1b} ")
        } else {
            let mut text = owned("\u{f0b1b} ");
            text.append(app.search_query().as_str());
            text
        }
    } else if empty {
        owned("\u{f0b1b} All files")
    } else {
        let mut text = owned("\u{f0b1b} Filtered: '");
        text.append(app.search_query().as_str());
        text.append("'");
        text
    };
    let title = if typing {
        owned(" Search (/: search, Enter: confirm, ESC: exit)")
    } else {
        owned(" Search Results (/: new search, ESC: exit)")
    };
    SearchBox { text, title, dimmed: empty && typing, focused: typing }
}

/// How the screen is divided.
#[derive(Debug, Clone, Copy, PartialEq, Eq, Structural)]
pub struct ScreenLayout {
    /// The share of the width that the file list takes, in percent.
    pub list_percent: u16,
    /// The share of the width that the diff and its status line take.
    pub diff_percent: u16,
    /// The rows of the search box above the file list, where it is shown.
    pub search_rows: Option<u16>,
    /// The rows of the status line above the diff.
    pub status_rows: u16,
}

/// How the screen is divided: a fifth for the file list, the rest for the
/// diff below a status line of 3 rows; during a search a box of 3 rows
/// stands above the file list.
pub open spec fn screen_layout(search_mode: bool) -> ScreenLayout {
    ScreenLayout {
        list_percent: 20,
        diff_percent: 80,
        search_rows: if search_mode {
            Some(3u16)
        } else {
            None
        },
        status_rows: 3,
    }
}

/// How the screen of the viewer is divided.
pub fn ui(app: &App) -> (layout: ScreenLayout)
    ensures
        layout == screen_layout(app.state().search_mode),
{
    ScreenLayout {
        list_percent: 20,
        diff_percent: 80,
        search_rows: if app.search_mode() {
            Some(3)
        } else {
            None
        },
        status_rows: 3,
    }
}

/// The title of the diff pane: the tool in use and the keys.
pub open spec fn diff_title(tool: Seq<char>) -> Seq<char> {
    "Diff Content (using "@ + tool + ") - [h/l: scroll, j/k: files, g/G: jump]"@
}

/// Prepares the diff pane for drawing in an area of the given size: the
/// scroll offsets are clamped to the content, and the width is looked at,
/// which may call for formatting the diff anew. Returns the title of the
/// pane and the outside work.
pub fn render_diff_content(app: &mut App, area_height: u16, area_width: u16) -> (r: (
    String,
    Action,
))
    ensures
        final(app).state() == old(app).state().clamp_scroll(area_height, area_width).width_seen(
            old(app).formats(),
            area_width,
        ),
        r.0@ == diff_title(display_name_of(old(app).spec_config().command_type())),
        r.1@ == old(app).state().clamp_scroll(area_height, area_width).width_action(
            old(app).formats(),
            area_width,
            old(app).fetches(),
        ),
        final(app).same_setup(old(app)),
        old(app).wf() ==> final(app).wf(),
{
    app.clamp_scroll(area_height, area_width);
    let action = app.refresh_diff_with_width(area_width);
    let mut title = owned("Diff Content (using ");
    title.append(app.config().get_diff_display_name().as_str());
    title.append(") - [h/l: scroll, j/k: files, g/G: jump]");
    (title, action)
}

} // verus!
