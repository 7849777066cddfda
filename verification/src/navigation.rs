//! The state of the viewer and its transitions: what is selected, what is
//! searched for, what is collapsed and checked, and what is shown.
//!
//! A transition changes the state and names the outside work that it calls
//! for; the caller does that work and reports back.

use crate::cli::{needs_repository, OperationMode};
use crate::config::{Config, DiffCommandType};
use crate::display::{
    clamp_offsets, clamped, contains_escape, content_size, has_escape, measure_content,
};
use crate::grouping::{group_records, grouped, lemma_grouped, lemma_grouped_of_ordered};
use crate::invoker::{
    plan_for_area, plan_for_width, plan_tool_for_area, plan_tool_for_width,
    should_refresh_diff_width, width_changed, ToolPlan,
};
use crate::parser::{records_view, DiffFileKey, DiffFileKeyView, FileDiff, FileDiffView};
use crate::pathset::PathSet;
use crate::text::{
    chars_of, contains_seq, copy_range, find, lowercase_chars, lowercase_of, owned, push_char,
    string_of,
};
use crate::theme::Theme;
use crate::tree_laws::{lemma_rows_carry_records, row_carries};
use crate::tree::{
    lemma_grouped_totals, rows_view, spec_rows, totals_fit, FileTreeBuilder, FileTreeItem,
    FileTreeItemView,
};
use vstd::prelude::*;
use vstd::string::*;

verus! {

// ---------------------------------------------------------------------
// Search
// ---------------------------------------------------------------------

/// Whether `pattern` occurs in `text` without regard to case.
pub open spec fn matches_ignoring_case(text: Seq<char>, pattern: Seq<char>) -> bool {
    contains_seq(lowercase_of(text), lowercase_of(pattern))
}

/// Whether a path is shown for a query: every path for the empty query,
/// else those in which the query occurs without regard to case.
pub open spec fn path_matches(path: Seq<char>, query: Seq<char>) -> bool {
    query.len() == 0 || matches_ignoring_case(path, query)
}

/// The rows whose path is shown for the query, in their order.
pub open spec fn filter_rows(rows: Seq<FileTreeItemView>, query: Seq<char>) -> Seq<
    FileTreeItemView,
>
    decreases rows.len(),
{
    if rows.len() == 0 {
        rows
    } else if path_matches(rows.last().full_path, query) {
        filter_rows(rows.drop_last(), query).push(rows.last())
    } else {
        filter_rows(rows.drop_last(), query)
    }
}

/// Search subset: the filtered rows are exactly the rows whose path
/// contains the query without regard to case, in their order.
pub proof fn lemma_search_subset(rows: Seq<FileTreeItemView>, query: Seq<char>)
    ensures
        filter_rows(rows, query) == rows.filter(
            |row: FileTreeItemView| path_matches(row.full_path, query),
        ),
    decreases rows.len(),
{
    let shown = |row: FileTreeItemView| path_matches(row.full_path, query);
    reveal(Seq::filter);
    if rows.len() > 0 {
        lemma_search_subset(rows.drop_last(), query);
    }
}

/// Whether `pattern` occurs in `text` without regard to case.
pub fn fuzzy_match(text: &str, pattern: &str) -> (r: bool)
    ensures
        r == matches_ignoring_case(text@, pattern@),
{
    let hay = lowercase_chars(text);
    let needle = lowercase_chars(pattern);
    find(hay.as_slice(), needle.as_slice()).is_some()
}

/// A copy of a list of rows.
pub fn clone_rows(rows: &Vec<FileTreeItem>) -> (out: Vec<FileTreeItem>)
    ensures
        rows_view(out@) == rows_view(rows@),
{
    let mut out: Vec<FileTreeItem> = Vec::new();
    let mut i: usize = 0;
    while i < rows.len()
        invariant
            i <= rows.len(),
            rows_view(out@) == rows_view(rows@).take(i as int),
        decreases rows.len() - i,
    {
        let ghost before = rows_view(out@);
        let row = rows[i].clone();
        out.push(row);
        proof {
            assert(rows_view(out@) =~= before.push(rows@[i as int]@));
            assert(rows_view(rows@).take(i + 1) =~= rows_view(rows@).take(i as int).push(
                rows@[i as int]@,
            ));
        }
        i += 1;
    }
    proof {
        assert(rows_view(rows@).take(rows@.len() as int) =~= rows_view(rows@));
    }
    out
}

/// The rows whose path is shown for the query.
pub fn filter_items(rows: &Vec<FileTreeItem>, query: &str) -> (out: Vec<FileTreeItem>)
    ensures
        rows_view(out@) == filter_rows(rows_view(rows@), query@),
{
    let query_chars = chars_of(query);
    let all = query_chars.len() == 0;
    let mut out: Vec<FileTreeItem> = Vec::new();
    let mut i: usize = 0;
    proof {
        assert(rows_view(rows@).take(0) =~= Seq::<FileTreeItemView>::empty());
        assert(rows_view(out@) =~= Seq::<FileTreeItemView>::empty());
    }
    while i < rows.len()
        invariant
            i <= rows.len(),
            all == (query@.len() == 0),
            rows_view(out@) == filter_rows(rows_view(rows@).take(i as int), query@),
        decreases rows.len() - i,
    {
        let ghost before = rows_view(out@);
        proof {
            let upto = rows_view(rows@).take(i + 1);
            assert(upto.drop_last() =~= rows_view(rows@).take(i as int));
            assert(upto.last() == rows@[i as int]@);
        }
        if all || fuzzy_match(rows[i].full_path.as_str(), query) {
            let row = rows[i].clone();
            out.push(row);
            proof {
                assert(rows_view(out@) =~= before.push(rows@[i as int]@));
            }
        }
        i += 1;
    }
    proof {
        assert(rows_view(rows@).take(rows@.len() as int) =~= rows_view(rows@));
    }
    out
}

// ---------------------------------------------------------------------
// The state as a mathematical value
// ---------------------------------------------------------------------

/// The three states of the viewer.
#[derive(Debug, Clone, Copy, PartialEq, Eq, Structural)]
pub enum Phase {
    /// The whole tree is listed.
    Browsing,
    /// A query is being typed; the list is filtered as it changes.
    SearchTyping,
    /// The query is fixed; the filtered list is navigated.
    SearchBrowsing,
}

/// What the viewer holds, as mathematical values.
pub struct NavState {
    pub records: Seq<FileDiffView>,
    pub rows: Seq<FileTreeItemView>,
    pub filtered: Seq<FileTreeItemView>,
    pub collapsed: Set<Seq<char>>,
    pub checked: Set<Seq<char>>,
    pub selected: nat,
    pub vertical_scroll: u16,
    pub horizontal_scroll: u16,
    pub search_mode: bool,
    pub search_input_mode: bool,
    pub query: Seq<char>,
    pub diff_output: Seq<char>,
    pub should_quit: bool,
    pub last_width: u16,
}

/// Outside work that a transition calls for.
#[derive(Debug)]
pub enum Action {
    /// Nothing.
    Nothing,
    /// A file was selected: get its diff afresh if `fetch` says so, then
    /// report with [`App::content_loaded`].
    LoadFile { path: String, fetch: bool },
    /// The width of the pane changed: get the diff of the selected file
    /// afresh if `fetch` says so, format it for the new width, and report
    /// what the tool wrote with [`App::tool_finished`].
    Reformat { path: String, fetch: bool },
    /// Store whether the file of this key is checked. A failure to store
    /// is logged and changes nothing.
    SaveCheckState { key: DiffFileKey, is_checked: bool },
}

/// What an [`Action`] holds, as mathematical values.
pub enum ActionView {
    Nothing,
    LoadFile { path: Seq<char>, fetch: bool },
    Reformat { path: Seq<char>, fetch: bool },
    SaveCheckState { key: DiffFileKeyView, is_checked: bool },
}

impl View for Action {
    type V = ActionView;

    open spec fn view(&self) -> ActionView {
        match self {
            Action::Nothing => ActionView::Nothing,
            Action::LoadFile { path, fetch } => ActionView::LoadFile { path: path@, fetch: *fetch },
            Action::Reformat { path, fetch } => ActionView::Reformat { path: path@, fetch: *fetch },
            Action::SaveCheckState { key, is_checked } => ActionView::SaveCheckState {
                key: key@,
                is_checked: *is_checked,
            },
        }
    }
}

impl NavState {
    /// The list that is navigated: the filtered one during a search, else
    /// the whole one.
    pub open spec fn active(self) -> Seq<FileTreeItemView> {
        if self.search_mode {
            self.filtered
        } else {
            self.rows
        }
    }

    /// The state of the state machine.
    pub open spec fn phase(self) -> Phase {
        if !self.search_mode {
            Phase::Browsing
        } else if self.search_input_mode {
            Phase::SearchTyping
        } else {
            Phase::SearchBrowsing
        }
    }

    /// What holds of every state: the rows are those of the records with
    /// the collapsed directories; during a search the filtered rows are
    /// those that match the query; and the selection is an index into the
    /// active list, or 0 where that list is empty.
    pub open spec fn valid(self) -> bool {
        &&& totals_fit(self.records)
        &&& self.rows == spec_rows(self.records, self.collapsed)
        &&& self.search_mode ==> self.filtered == filter_rows(self.rows, self.query)
        &&& self.search_input_mode ==> self.search_mode
        &&& if self.active().len() == 0 {
            self.selected == 0
        } else {
            self.selected < self.active().len()
        }
    }

    /// The selected row, where the active list has one.
    pub open spec fn selected_row(self) -> Option<FileTreeItemView> {
        if self.selected < self.active().len() {
            Some(self.active()[self.selected as int])
        } else {
            None
        }
    }

    /// The path of the selected row where it is a file.
    pub open spec fn selected_file(self) -> Option<Seq<char>> {
        match self.selected_row() {
            Some(row) => if row.is_directory {
                None
            } else {
                Some(row.full_path)
            },
            None => None,
        }
    }

    /// The state after the selection was shown, as far as that needs no
    /// outside work: for a directory, which is a row that carries no
    /// record, a placeholder takes the place of the content and both
    /// scroll offsets go back to zero.
    pub open spec fn shown(self) -> NavState {
        match self.selected_row() {
            Some(row) => if row.file_diff is None {
                NavState {
                    diff_output: "Directory: "@ + row.full_path,
                    vertical_scroll: 0,
                    horizontal_scroll: 0,
                    ..self
                }
            } else {
                self
            },
            None => self,
        }
    }

    /// The outside work that showing the selection calls for: loading the
    /// content of a selected file.
    pub open spec fn load_action(self, fetch: bool) -> ActionView {
        match self.selected_row() {
            Some(row) => if row.file_diff is Some {
                ActionView::LoadFile { path: row.full_path, fetch }
            } else {
                ActionView::Nothing
            },
            None => ActionView::Nothing,
        }
    }

    /// The state with another row selected, and shown.
    pub open spec fn select(self, index: nat) -> NavState {
        (NavState { selected: index, ..self }).shown()
    }

    /// `selectNext`: one row down, unless the selection is the last row or
    /// the list is empty.
    pub open spec fn select_next(self) -> NavState {
        if self.active().len() > 0 && self.selected < self.active().len() - 1 {
            self.select(self.selected + 1)
        } else {
            self
        }
    }

    /// `selectPrevious`: one row up, unless the selection is the first
    /// row.
    pub open spec fn select_previous(self) -> NavState {
        if self.selected > 0 {
            self.select((self.selected - 1) as nat)
        } else {
            self
        }
    }

    /// `jumpTop`: the first row.
    pub open spec fn jump_to_top(self) -> NavState {
        self.select(0)
    }

    /// `jumpBottom`: the last row, where there is one.
    pub open spec fn jump_to_bottom(self) -> NavState {
        if self.active().len() > 0 {
            self.select((self.active().len() - 1) as nat)
        } else {
            self
        }
    }

    /// The state after the query changed: the list is filtered anew and
    /// its first row selected and shown.
    pub open spec fn searched(self, query: Seq<char>) -> NavState {
        (NavState {
            query,
            filtered: filter_rows(self.rows, query),
            selected: 0,
            ..self
        }).shown()
    }

    /// `enterSearch`: typing begins with an empty query.
    pub open spec fn enter_search(self) -> NavState {
        (NavState { search_mode: true, search_input_mode: true, ..self }).searched(Seq::empty())
    }

    /// `exitSearch`: back to the whole list, its first row selected.
    pub open spec fn exit_search(self) -> NavState {
        (NavState {
            search_mode: false,
            search_input_mode: false,
            query: Seq::empty(),
            selected: 0,
            ..self
        }).shown()
    }

    /// `confirmSearch`: the query is fixed.
    pub open spec fn confirm_search(self) -> NavState {
        NavState { search_input_mode: false, ..self }
    }

    /// `typeChar`: valid only while typing.
    pub open spec fn type_char(self, c: char) -> NavState {
        if self.search_input_mode {
            self.searched(self.query.push(c))
        } else {
            self
        }
    }

    /// `backspace`: valid only while typing, and only on a query that is
    /// not empty.
    pub open spec fn backspace(self) -> NavState {
        if self.search_input_mode && self.query.len() > 0 {
            self.searched(self.query.drop_last())
        } else {
            self
        }
    }

    /// `toggleDirectory`: valid only while browsing, on a selected
    /// directory. Its path enters or leaves the collapsed set, the rows are
    /// built anew, and a selection beyond the new list goes to its last
    /// row.
    pub open spec fn toggle_directory(self) -> NavState {
        match self.selected_row() {
            Some(row) => if !self.search_mode && row.is_directory {
                let collapsed = if self.collapsed.contains(row.full_path) {
                    self.collapsed.remove(row.full_path)
                } else {
                    self.collapsed.insert(row.full_path)
                };
                let rows = spec_rows(self.records, collapsed);
                NavState {
                    collapsed,
                    rows,
                    selected: if self.selected >= rows.len() {
                        if rows.len() == 0 {
                            0nat
                        } else {
                            (rows.len() - 1) as nat
                        }
                    } else {
                        self.selected
                    },
                    ..self
                }
            } else {
                self
            },
            None => self,
        }
    }

    /// `toggleChecked`: valid while browsing the whole or the filtered
    /// list, on a selected file. Its path enters or leaves the checked
    /// set.
    pub open spec fn toggle_checked(self) -> NavState {
        match self.selected_row() {
            Some(row) => if !self.search_input_mode && !row.is_directory {
                NavState {
                    checked: if self.checked.contains(row.full_path) {
                        self.checked.remove(row.full_path)
                    } else {
                        self.checked.insert(row.full_path)
                    },
                    ..self
                }
            } else {
                self
            },
            None => self,
        }
    }

    /// The outside work that `toggleChecked` calls for: storing the new
    /// state where the record of the file has an identity.
    pub open spec fn check_action(self) -> ActionView {
        match self.selected_row() {
            Some(row) => if !self.search_input_mode && !row.is_directory {
                match row.file_diff {
                    Some(file) => match file.diff_key {
                        Some(key) => ActionView::SaveCheckState {
                            key,
                            is_checked: !self.checked.contains(row.full_path),
                        },
                        None => ActionView::Nothing,
                    },
                    None => ActionView::Nothing,
                }
            } else {
                ActionView::Nothing
            },
            None => ActionView::Nothing,
        }
    }

    /// `scrollUp`.
    pub open spec fn scroll_up(self, amount: u16) -> NavState {
        NavState { vertical_scroll: self.vertical_scroll.saturating_sub(amount), ..self }
    }

    /// `scrollDown`.
    pub open spec fn scroll_down(self, amount: u16) -> NavState {
        NavState { vertical_scroll: self.vertical_scroll.saturating_add(amount), ..self }
    }

    /// `scrollLeft`.
    pub open spec fn scroll_left(self, amount: u16) -> NavState {
        NavState { horizontal_scroll: self.horizontal_scroll.saturating_sub(amount), ..self }
    }

    /// `scrollRight`.
    pub open spec fn scroll_right(self, amount: u16) -> NavState {
        NavState { horizontal_scroll: self.horizontal_scroll.saturating_add(amount), ..self }
    }

    /// The state after the content of the selected file was loaded: the
    /// fresh content is shown, or the stored one where none came, and both
    /// scroll offsets go back to zero. Without a selected file nothing
    /// changes.
    pub open spec fn content_loaded(self, fresh: Option<Seq<char>>) -> NavState {
        match self.selected_row() {
            Some(row) => match row.file_diff {
                Some(file) => NavState {
                    diff_output: match fresh {
                        Some(text) => text,
                        None => file.content,
                    },
                    vertical_scroll: 0,
                    horizontal_scroll: 0,
                    ..self
                },
                None => self,
            },
            None => self,
        }
    }

    /// The text that is formatted when the width of the pane changed: the
    /// fresh content of the selected file, or the stored one where none
    /// came; nothing without a selected file.
    pub open spec fn reformat_base(self, fresh: Option<Seq<char>>) -> Option<Seq<char>> {
        match self.selected_row() {
            Some(row) => match row.file_diff {
                Some(file) => Some(
                    match fresh {
                        Some(text) => text,
                        None => file.content,
                    },
                ),
                None => None,
            },
            None => None,
        }
    }

    /// The state after the external tool ended: what it wrote is shown;
    /// where it failed, what was shown stays.
    pub open spec fn tool_finished(self, output: Option<Seq<char>>) -> NavState {
        match output {
            Some(text) => NavState { diff_output: text, ..self },
            None => self,
        }
    }
}

impl NavState {
    /// The state in which the viewer starts: browsing, nothing collapsed,
    /// the first row selected, the content of the first record shown. The
    /// records are kept in the order in which they go into the tree.
    pub open spec fn initial(records: Seq<FileDiffView>, checked: Set<Seq<char>>) -> NavState {
        NavState {
            records: grouped(records),
            rows: spec_rows(records, Set::empty()),
            filtered: spec_rows(records, Set::empty()),
            collapsed: Set::empty(),
            checked,
            selected: 0,
            vertical_scroll: 0,
            horizontal_scroll: 0,
            search_mode: false,
            search_input_mode: false,
            query: Seq::empty(),
            diff_output: if records.len() == 0 {
                "No diff content available"@
            } else {
                records[0].content
            },
            should_quit: false,
            last_width: 0,
        }
    }

    /// The outside work that `selectNext` calls for.
    pub open spec fn select_next_action(self, fetch: bool) -> ActionView {
        if self.active().len() > 0 && self.selected < self.active().len() - 1 {
            (NavState { selected: self.selected + 1, ..self }).load_action(fetch)
        } else {
            ActionView::Nothing
        }
    }

    /// The outside work that `selectPrevious` calls for.
    pub open spec fn select_previous_action(self, fetch: bool) -> ActionView {
        if self.selected > 0 {
            (NavState { selected: (self.selected - 1) as nat, ..self }).load_action(fetch)
        } else {
            ActionView::Nothing
        }
    }

    /// The outside work that `jumpTop` calls for.
    pub open spec fn jump_to_top_action(self, fetch: bool) -> ActionView {
        (NavState { selected: 0, ..self }).load_action(fetch)
    }

    /// The outside work that `jumpBottom` calls for.
    pub open spec fn jump_to_bottom_action(self, fetch: bool) -> ActionView {
        if self.active().len() > 0 {
            (NavState { selected: (self.active().len() - 1) as nat, ..self }).load_action(fetch)
        } else {
            ActionView::Nothing
        }
    }

    /// The outside work that a change of the query calls for.
    pub open spec fn searched_action(self, query: Seq<char>, fetch: bool) -> ActionView {
        (NavState {
            query,
            filtered: filter_rows(self.rows, query),
            selected: 0,
            ..self
        }).load_action(fetch)
    }

    /// The outside work that `enterSearch` calls for.
    pub open spec fn enter_search_action(self, fetch: bool) -> ActionView {
        (NavState { search_mode: true, search_input_mode: true, ..self }).searched_action(
            Seq::empty(),
            fetch,
        )
    }

    /// The outside work that `exitSearch` calls for.
    pub open spec fn exit_search_action(self, fetch: bool) -> ActionView {
        (NavState {
            search_mode: false,
            search_input_mode: false,
            query: Seq::empty(),
            selected: 0,
            ..self
        }).load_action(fetch)
    }

    /// The outside work that `typeChar` calls for.
    pub open spec fn type_char_action(self, c: char, fetch: bool) -> ActionView {
        if self.search_input_mode {
            self.searched_action(self.query.push(c), fetch)
        } else {
            ActionView::Nothing
        }
    }

    /// The outside work that `backspace` calls for.
    pub open spec fn backspace_action(self, fetch: bool) -> ActionView {
        if self.search_input_mode && self.query.len() > 0 {
            self.searched_action(self.query.drop_last(), fetch)
        } else {
            ActionView::Nothing
        }
    }

    /// The state with the scroll offsets clamped to the content that is
    /// shown, in a viewport of the given size.
    pub open spec fn clamp_scroll(self, viewport_height: u16, viewport_width: u16) -> NavState {
        let offsets = clamped(
            (self.vertical_scroll, self.horizontal_scroll),
            content_size(self.diff_output),
            viewport_height,
            viewport_width,
        );
        NavState { vertical_scroll: offsets.0, horizontal_scroll: offsets.1, ..self }
    }

    /// The state after the width of the diff pane was looked at, where a
    /// tool formats the diff: a width that calls for formatting anew is
    /// remembered.
    pub open spec fn width_seen(self, formats: bool, area_width: u16) -> NavState {
        if formats && width_changed(self.last_width, area_width) {
            NavState { last_width: area_width, ..self }
        } else {
            self
        }
    }

    /// The outside work that a look at the width of the diff pane calls
    /// for: formatting the diff of the selected file anew.
    pub open spec fn width_action(self, formats: bool, area_width: u16, fetch: bool) -> ActionView {
        if formats && width_changed(self.last_width, area_width) {
            match self.selected_row() {
                Some(row) => if row.file_diff is Some {
                    ActionView::Reformat { path: row.full_path, fetch }
                } else {
                    ActionView::Nothing
                },
                None => ActionView::Nothing,
            }
        } else {
            ActionView::Nothing
        }
    }
}

/// Every row that a query shows is one of the rows.
pub proof fn lemma_filter_rows_members(rows: Seq<FileTreeItemView>, query: Seq<char>)
    ensures
        forall|i: int|
            0 <= i < filter_rows(rows, query).len() ==> exists|j: int|
                0 <= j < rows.len() && (#[trigger] filter_rows(rows, query)[i]) == rows[j],
    decreases rows.len(),
{
    if rows.len() > 0 {
        let front = rows.drop_last();
        let kept = filter_rows(front, query);
        let shown = filter_rows(rows, query);
        lemma_filter_rows_members(front, query);
        assert forall|i: int| 0 <= i < shown.len() implies exists|j: int|
            0 <= j < rows.len() && (#[trigger] shown[i]) == rows[j] by {
            if i < kept.len() {
                assert(shown[i] == kept[i]);
                let j = choose|j: int| 0 <= j < front.len() && kept[i] == front[j];
                assert(shown[i] == rows[j]);
            } else {
                assert(shown[i] == rows[rows.len() - 1]);
            }
        }
    }
}

/// The placeholder is shown for directories: in a valid state the selected
/// row carries no record exactly where it is a directory, and a selected
/// file carries the record of its path.
pub proof fn lemma_placeholder_for_directories(s: NavState)
    requires
        s.valid(),
        s.selected_row() is Some,
    ensures
        s.selected_row()->0.is_directory <==> s.selected_row()->0.file_diff is None,
        row_carries(s.selected_row()->0, s.records),
{
    let row = s.selected_row()->0;
    if s.search_mode {
        lemma_filter_rows_members(s.rows, s.query);
        let j = choose|j: int| 0 <= j < s.rows.len() && s.filtered[s.selected as int] == s.rows[j];
        lemma_rows_carry_records(s.records, s.collapsed, j);
    } else {
        lemma_rows_carry_records(s.records, s.collapsed, s.selected as int);
    }
}

/// Selection bounds: moving the selection down or up leaves it an index
/// into the active list; on an empty list it stays 0 and nothing changes.
pub proof fn lemma_selection_bounds(s: NavState)
    requires
        s.valid(),
    ensures
        s.select_next().valid(),
        s.select_previous().valid(),
        s.active().len() == 0 ==> s.select_next() == s && s.select_previous() == s
            && s.selected == 0,
        s.active().len() > 0 ==> s.select_next().selected < s.active().len()
            && s.select_previous().selected < s.active().len(),
        s.select_next().active() == s.active(),
        s.select_previous().active() == s.active(),
{
}


// ---------------------------------------------------------------------
// The viewer
// ---------------------------------------------------------------------

/// The state of the viewer.
pub struct App {
    should_quit: bool,
    config: Config,
    theme: Theme,
    /// The text that is shown in the diff pane.
    diff_output: String,
    /// The rows of the whole tree.
    file_tree_items: Vec<FileTreeItem>,
    /// The records, in the order in which they go into the tree.
    original_file_diffs: Vec<FileDiff>,
    /// Index of the selected row in the active list.
    selected_index: usize,
    vertical_scroll: u16,
    horizontal_scroll: u16,
    collapsed_directories: PathSet,
    checked_files: PathSet,
    operation_mode: OperationMode,
    /// Whether a search is active.
    search_mode: bool,
    /// Whether the query is being typed.
    search_input_mode: bool,
    search_query: String,
    /// The rows that match the query.
    filtered_file_tree_items: Vec<FileTreeItem>,
    /// The width of the diff pane for which the diff was last formatted,
    /// or 0.
    last_width: u16,
}

impl App {
    /// The state as a mathematical value.
    pub closed spec fn state(&self) -> NavState {
        NavState {
            records: records_view(self.original_file_diffs@),
            rows: rows_view(self.file_tree_items@),
            filtered: rows_view(self.filtered_file_tree_items@),
            collapsed: self.collapsed_directories@,
            checked: self.checked_files@,
            selected: self.selected_index as nat,
            vertical_scroll: self.vertical_scroll,
            horizontal_scroll: self.horizontal_scroll,
            search_mode: self.search_mode,
            search_input_mode: self.search_input_mode,
            query: self.search_query@,
            diff_output: self.diff_output@,
            should_quit: self.should_quit,
            last_width: self.last_width,
        }
    }

    /// Whether the state is valid. It is in every viewer that `new` made,
    /// and every transition keeps it so.
    pub open spec fn wf(&self) -> bool {
        self.state().valid()
    }

    /// The configuration that the viewer was set up with.
    pub closed spec fn spec_config(&self) -> Config {
        self.config
    }

    /// The theme that the viewer was set up with.
    pub closed spec fn spec_theme(&self) -> Theme {
        self.theme
    }

    /// The mode that the viewer was set up with.
    pub closed spec fn spec_mode(&self) -> OperationMode {
        self.operation_mode
    }

    /// Whether the viewer was set up as `other` was: with the same
    /// configuration, theme and mode.
    pub open spec fn same_setup(&self, other: &App) -> bool {
        self.spec_config() == other.spec_config() && self.spec_theme() == other.spec_theme()
            && self.spec_mode() == other.spec_mode()
    }

    /// Whether the diffs are read from a repository, so that the diff of a
    /// selected file is got afresh.
    pub open spec fn fetches(&self) -> bool {
        needs_repository(self.spec_mode()@)
    }

    /// The configuration.
    pub fn config(&self) -> (r: &Config)
        ensures
            *r == self.spec_config(),
    {
        &self.config
    }

    /// The theme.
    pub fn theme(&self) -> (r: &Theme)
        ensures
            *r == self.spec_theme(),
    {
        &self.theme
    }

    /// The mode of operation.
    pub fn operation_mode(&self) -> (r: &OperationMode)
        ensures
            *r == self.spec_mode(),
    {
        &self.operation_mode
    }

    /// The state of the state machine: browsing, typing a query, or
    /// browsing what was found.
    pub fn phase(&self) -> (r: Phase)
        ensures
            r == self.state().phase(),
    {
        if !self.search_mode {
            Phase::Browsing
        } else if self.search_input_mode {
            Phase::SearchTyping
        } else {
            Phase::SearchBrowsing
        }
    }

    /// Whether the viewer is to end.
    pub fn should_quit(&self) -> (r: bool)
        ensures
            r == self.state().should_quit,
    {
        self.should_quit
    }

    /// The text that is shown in the diff pane.
    pub fn diff_output(&self) -> (r: &String)
        ensures
            r@ == self.state().diff_output,
    {
        &self.diff_output
    }

    /// The rows of the whole tree.
    pub fn file_tree_items(&self) -> (r: &Vec<FileTreeItem>)
        ensures
            rows_view(r@) == self.state().rows,
    {
        &self.file_tree_items
    }

    /// The records, in the order in which they go into the tree.
    pub fn original_file_diffs(&self) -> (r: &Vec<FileDiff>)
        ensures
            records_view(r@) == self.state().records,
    {
        &self.original_file_diffs
    }

    /// Index of the selected row in the active list.
    pub fn selected_index(&self) -> (r: usize)
        ensures
            r == self.state().selected,
    {
        self.selected_index
    }

    /// How far the diff is scrolled down.
    pub fn vertical_scroll(&self) -> (r: u16)
        ensures
            r == self.state().vertical_scroll,
    {
        self.vertical_scroll
    }

    /// How far the diff is scrolled to the right.
    pub fn horizontal_scroll(&self) -> (r: u16)
        ensures
            r == self.state().horizontal_scroll,
    {
        self.horizontal_scroll
    }

    /// The collapsed directories.
    pub fn collapsed_directories(&self) -> (r: &PathSet)
        ensures
            r@ == self.state().collapsed,
    {
        &self.collapsed_directories
    }

    /// The checked files.
    pub fn checked_files(&self) -> (r: &PathSet)
        ensures
            r@ == self.state().checked,
    {
        &self.checked_files
    }

    /// Whether a search is active.
    pub fn search_mode(&self) -> (r: bool)
        ensures
            r == self.state().search_mode,
    {
        self.search_mode
    }

    /// Whether the query is being typed.
    pub fn search_input_mode(&self) -> (r: bool)
        ensures
            r == self.state().search_input_mode,
    {
        self.search_input_mode
    }

    /// The query.
    pub fn search_query(&self) -> (r: &String)
        ensures
            r@ == self.state().query,
    {
        &self.search_query
    }

    /// The width of the diff pane for which the diff was last formatted,
    /// or 0.
    pub fn last_width(&self) -> (r: u16)
        ensures
            r == self.state().last_width,
    {
        self.last_width
    }

    /// Asks the viewer to end.
    pub fn quit(&mut self)
        ensures
            final(self).state() == (NavState { should_quit: true, ..old(self).state() }),
            final(self).same_setup(old(self)),
    {
        self.should_quit = true;
    }

    /// Whether the selected row is a directory.
    pub fn selected_is_directory(&self) -> (r: bool)
        ensures
            r == match self.state().selected_row() {
                Some(row) => row.is_directory,
                None => false,
            },
    {
        let items = self.get_current_file_tree_items();
        if self.selected_index < items.len() {
            proof {
                assert(rows_view(items@)[self.selected_index as int]
                    == items@[self.selected_index as int]@);
            }
            items[self.selected_index].is_directory
        } else {
            false
        }
    }

    /// A viewer of the given records. There is none where the totals over
    /// the records do not fit in `usize`.
    pub fn new(
        config: Config,
        file_diffs: Vec<FileDiff>,
        operation_mode: OperationMode,
        checked_files: PathSet,
    ) -> (r: Option<App>)
        ensures
            match r {
                Some(app) => {
                    &&& app.wf()
                    &&& app.state() == NavState::initial(records_view(file_diffs@), checked_files@)
                    &&& app.spec_config() == config
                    &&& app.spec_theme() == config.theme
                    &&& app.spec_mode() == operation_mode
                },
                None => !totals_fit(records_view(file_diffs@)),
            },
    {
        if !FileTreeBuilder::stats_fit(file_diffs.as_slice()) {
            return None;
        }
        let diff_output = if file_diffs.len() == 0 {
            owned("No diff content available")
        } else {
            proof {
                assert(records_view(file_diffs@)[0] == file_diffs@[0]@);
            }
            file_diffs[0].content.clone()
        };
        let ordered = group_records(file_diffs.as_slice());
        proof {
            let records = records_view(file_diffs@);
            lemma_grouped(records);
            lemma_grouped_totals(records);
            lemma_grouped_of_ordered(grouped(records));
        }
        let file_tree_items = FileTreeBuilder::build_file_tree(ordered.as_slice());
        let filtered = clone_rows(&file_tree_items);
        let theme = config.theme.clone();
        let app = App {
            should_quit: false,
            config,
            theme,
            diff_output,
            file_tree_items,
            original_file_diffs: ordered,
            selected_index: 0,
            vertical_scroll: 0,
            horizontal_scroll: 0,
            collapsed_directories: PathSet::new(),
            checked_files,
            operation_mode,
            search_mode: false,
            search_input_mode: false,
            search_query: String::new(),
            filtered_file_tree_items: filtered,
            last_width: 0,
        };
        Some(app)
    }

    /// The list that is navigated: the filtered one during a search, else
    /// the whole one.
    pub fn get_current_file_tree_items(&self) -> (items: &Vec<FileTreeItem>)
        ensures
            rows_view(items@) == self.state().active(),
    {
        if self.search_mode {
            &self.filtered_file_tree_items
        } else {
            &self.file_tree_items
        }
    }

    /// Shows the selected row as far as that needs no outside work, and
    /// names the work that is left: for a directory a placeholder is
    /// shown; the content of a file has to be loaded.
    pub fn update_diff_content(&mut self) -> (action: Action)
        ensures
            final(self).state() == old(self).state().shown(),
            action@ == old(self).state().load_action(old(self).fetches()),
            final(self).same_setup(old(self)),
    {
        let fetch = self.operation_mode.requires_git_repo();
        let items = self.get_current_file_tree_items();
        if self.selected_index < items.len() {
            let row = &items[self.selected_index];
            proof {
                assert(rows_view(items@)[self.selected_index as int] == row@);
            }
            let path = row.full_path.clone();
            if row.file_diff.is_some() {
                Action::LoadFile { path, fetch }
            } else {
                let mut text = owned("Directory: ");
                text.append(path.as_str());
                self.diff_output = text;
                self.vertical_scroll = 0;
                self.horizontal_scroll = 0;
                Action::Nothing
            }
        } else {
            Action::Nothing
        }
    }

    /// `selectNext`: selects the next row, unless the selection is the
    /// last row or the list is empty.
    pub fn select_next(&mut self) -> (action: Action)
        requires
            old(self).wf(),
        ensures
            final(self).wf(),
            final(self).state() == old(self).state().select_next(),
            action@ == old(self).state().select_next_action(old(self).fetches()),
            final(self).same_setup(old(self)),
    {
        let len = self.get_current_file_tree_items().len();
        if len > 0 && self.selected_index < len - 1 {
            self.selected_index += 1;
            self.update_diff_content()
        } else {
            Action::Nothing
        }
    }

    /// `selectPrevious`: selects the row before, unless the selection is
    /// the first row.
    pub fn select_previous(&mut self) -> (action: Action)
        requires
            old(self).wf(),
        ensures
            final(self).wf(),
            final(self).state() == old(self).state().select_previous(),
            action@ == old(self).state().select_previous_action(old(self).fetches()),
            final(self).same_setup(old(self)),
    {
        if self.selected_index > 0 {
            self.selected_index -= 1;
            self.update_diff_content()
        } else {
            Action::Nothing
        }
    }

    /// `jumpTop`: selects the first row.
    pub fn jump_to_top(&mut self) -> (action: Action)
        requires
            old(self).wf(),
        ensures
            final(self).wf(),
            final(self).state() == old(self).state().jump_to_top(),
            action@ == old(self).state().jump_to_top_action(old(self).fetches()),
            final(self).same_setup(old(self)),
    {
        self.selected_index = 0;
        self.update_diff_content()
    }

    /// `jumpBottom`: selects the last row, where there is one.
    pub fn jump_to_bottom(&mut self) -> (action: Action)
        requires
            old(self).wf(),
        ensures
            final(self).wf(),
            final(self).state() == old(self).state().jump_to_bottom(),
            action@ == old(self).state().jump_to_bottom_action(old(self).fetches()),
            final(self).same_setup(old(self)),
    {
        let len = self.get_current_file_tree_items().len();
        if len > 0 {
            self.selected_index = len - 1;
            self.update_diff_content()
        } else {
            Action::Nothing
        }
    }

    /// `scrollUp`: saturates at zero.
    pub fn scroll_up(&mut self, amount: u16)
        ensures
            final(self).state() == old(self).state().scroll_up(amount),
            final(self).same_setup(old(self)),
    {
        self.vertical_scroll = self.vertical_scroll.saturating_sub(amount);
    }

    /// `scrollDown`: not clamped to the content here.
    pub fn scroll_down(&mut self, amount: u16)
        ensures
            final(self).state() == old(self).state().scroll_down(amount),
            final(self).same_setup(old(self)),
    {
        self.vertical_scroll = self.vertical_scroll.saturating_add(amount);
    }

    /// `scrollLeft`: saturates at zero.
    pub fn scroll_left(&mut self, amount: u16)
        ensures
            final(self).state() == old(self).state().scroll_left(amount),
            final(self).same_setup(old(self)),
    {
        self.horizontal_scroll = self.horizontal_scroll.saturating_sub(amount);
    }

    /// `scrollRight`: not clamped to the content here.
    pub fn scroll_right(&mut self, amount: u16)
        ensures
            final(self).state() == old(self).state().scroll_right(amount),
            final(self).same_setup(old(self)),
    {
        self.horizontal_scroll = self.horizontal_scroll.saturating_add(amount);
    }

    /// Filters the list for the query anew, selects its first row and
    /// shows it.
    pub fn update_search_filter(&mut self) -> (action: Action)
        ensures
            final(self).state() == old(self).state().searched(old(self).state().query),
            action@ == old(self).state().searched_action(
                old(self).state().query,
                old(self).fetches(),
            ),
            final(self).same_setup(old(self)),
            old(self).wf() ==> final(self).wf(),
    {
        self.filtered_file_tree_items =
        filter_items(&self.file_tree_items, self.search_query.as_str());
        self.selected_index = 0;
        self.update_diff_content()
    }

    /// `enterSearch`: begins typing a query, which is empty at first.
    pub fn enter_search_mode(&mut self) -> (action: Action)
        requires
            old(self).wf(),
        ensures
            final(self).wf(),
            final(self).state() == old(self).state().enter_search(),
            action@ == old(self).state().enter_search_action(old(self).fetches()),
            final(self).same_setup(old(self)),
    {
        self.search_mode = true;
        self.search_input_mode = true;
        self.search_query = String::new();
        self.update_search_filter()
    }

    /// `exitSearch`: ends the search; the whole list is navigated again.
    pub fn exit_search_mode(&mut self) -> (action: Action)
        requires
            old(self).wf(),
        ensures
            final(self).wf(),
            final(self).state() == old(self).state().exit_search(),
            action@ == old(self).state().exit_search_action(old(self).fetches()),
            final(self).same_setup(old(self)),
    {
        self.search_mode = false;
        self.search_input_mode = false;
        self.search_query = String::new();
        self.selected_index = 0;
        self.update_diff_content()
    }

    /// `confirmSearch`: fixes the query; the filtered list stays.
    pub fn confirm_search(&mut self)
        requires
            old(self).wf(),
        ensures
            final(self).wf(),
            final(self).state() == old(self).state().confirm_search(),
            final(self).same_setup(old(self)),
    {
        self.search_input_mode = false;
    }

    /// `typeChar`: adds a character to the query while it is typed.
    pub fn add_search_char(&mut self, c: char) -> (action: Action)
        requires
            old(self).wf(),
        ensures
            final(self).wf(),
            final(self).state() == old(self).state().type_char(c),
            action@ == old(self).state().type_char_action(c, old(self).fetches()),
            final(self).same_setup(old(self)),
    {
        if self.search_input_mode {
            push_char(&mut self.search_query, c);
            self.update_search_filter()
        } else {
            Action::Nothing
        }
    }

    /// `backspace`: takes the last character off the query while it is
    /// typed.
    pub fn remove_search_char(&mut self) -> (action: Action)
        requires
            old(self).wf(),
        ensures
            final(self).wf(),
            final(self).state() == old(self).state().backspace(),
            action@ == old(self).state().backspace_action(old(self).fetches()),
            final(self).same_setup(old(self)),
    {
        if !self.search_input_mode {
            return Action::Nothing;
        }
        let chars = chars_of(self.search_query.as_str());
        if chars.len() == 0 {
            return Action::Nothing;
        }
        let shorter = copy_range(chars.as_slice(), 0, chars.len() - 1);
        proof {
            assert(shorter@ =~= self.search_query@.drop_last());
        }
        self.search_query = string_of(shorter.as_slice());
        self.update_search_filter()
    }

    /// `toggleDirectory`: while browsing, collapses the selected directory
    /// or expands it again, and builds the rows anew.
    pub fn toggle_directory(&mut self)
        requires
            old(self).wf(),
        ensures
            final(self).wf(),
            final(self).state() == old(self).state().toggle_directory(),
            final(self).same_setup(old(self)),
    {
        if self.search_mode || self.selected_index >= self.file_tree_items.len() {
            return ;
        }
        proof {
            assert(rows_view(self.file_tree_items@)[self.selected_index as int]
                == self.file_tree_items@[self.selected_index as int]@);
        }
        if !self.file_tree_items[self.selected_index].is_directory {
            return ;
        }
        let path = self.file_tree_items[self.selected_index].full_path.clone();
        if self.collapsed_directories.contains(&path) {
            let _ = self.collapsed_directories.remove(&path);
        } else {
            let _ = self.collapsed_directories.insert(path);
        }
        self.rebuild_file_tree();
    }

    /// Builds the rows anew from the records and the collapsed set; a
    /// selection beyond the new list goes to its last row.
    fn rebuild_file_tree(&mut self)
        requires
            totals_fit(old(self).state().records),
        ensures
            final(self).state() == (NavState {
                rows: spec_rows(old(self).state().records, old(self).state().collapsed),
                selected: if old(self).state().selected >= spec_rows(
                    old(self).state().records,
                    old(self).state().collapsed,
                ).len() {
                    if spec_rows(old(self).state().records, old(self).state().collapsed).len()
                        == 0 {
                        0nat
                    } else {
                        (spec_rows(old(self).state().records, old(self).state().collapsed).len()
                            - 1) as nat
                    }
                } else {
                    old(self).state().selected
                },
                ..old(self).state()
            }),
            final(self).same_setup(old(self)),
    {
        self.file_tree_items =
        FileTreeBuilder::build_file_tree_with_collapsed(
            self.original_file_diffs.as_slice(),
            &self.collapsed_directories,
        );
        if self.selected_index >= self.file_tree_items.len() {
            self.selected_index = if self.file_tree_items.len() == 0 {
                0
            } else {
                self.file_tree_items.len() - 1
            };
        }
    }

    /// `toggleChecked`: while the whole or the filtered list is browsed,
    /// checks the selected file or takes the check off, and names the
    /// storing of the new state where the file's record has an identity.
    pub fn toggle_file_checked(&mut self) -> (action: Action)
        requires
            old(self).wf(),
        ensures
            final(self).wf(),
            final(self).state() == old(self).state().toggle_checked(),
            action@ == old(self).state().check_action(),
            final(self).same_setup(old(self)),
    {
        if self.search_input_mode {
            return Action::Nothing;
        }
        let items = self.get_current_file_tree_items();
        if self.selected_index >= items.len() {
            return Action::Nothing;
        }
        let row = &items[self.selected_index];
        proof {
            assert(rows_view(items@)[self.selected_index as int] == row@);
        }
        if row.is_directory {
            return Action::Nothing;
        }
        let path = row.full_path.clone();
        let key = match &row.file_diff {
            Some(file) => match &file.diff_key {
                Some(key) => Some(key.clone()),
                None => None,
            },
            None => None,
        };
        let was_checked = self.checked_files.contains(&path);
        if was_checked {
            let _ = self.checked_files.remove(&path);
        } else {
            let _ = self.checked_files.insert(path);
        }
        match key {
            Some(key) => Action::SaveCheckState { key, is_checked: !was_checked },
            None => Action::Nothing,
        }
    }

    /// Reports the content of the selected file: the fresh text where one
    /// was got, else none. The content is shown and both scroll offsets go
    /// back to zero. Without a selected file nothing changes.
    pub fn content_loaded(&mut self, fresh: Option<String>)
        ensures
            final(self).state() == old(self).state().content_loaded(
                match fresh {
                    Some(t) => Some(t@),
                    None => None,
                },
            ),
            final(self).same_setup(old(self)),
            old(self).wf() ==> final(self).wf(),
    {
        let items = self.get_current_file_tree_items();
        if self.selected_index >= items.len() {
            return ;
        }
        let row = &items[self.selected_index];
        proof {
            assert(rows_view(items@)[self.selected_index as int] == row@);
        }
        let stored = match &row.file_diff {
            Some(file) => file.content.clone(),
            None => {
                return ;
            },
        };
        self.diff_output = match fresh {
            Some(text) => text,
            None => stored,
        };
        self.vertical_scroll = 0;
        self.horizontal_scroll = 0;
    }

    /// The text to format when the width of the pane changed: the fresh
    /// content of the selected file where one was got, else the stored
    /// one.
    pub fn reformat_base(&self, fresh: Option<String>) -> (base: Option<String>)
        ensures
            match base {
                Some(t) => Some(t@),
                None => None,
            } == self.state().reformat_base(
                match fresh {
                    Some(t) => Some(t@),
                    None => None,
                },
            ),
    {
        let items = self.get_current_file_tree_items();
        if self.selected_index >= items.len() {
            return None;
        }
        let row = &items[self.selected_index];
        proof {
            assert(rows_view(items@)[self.selected_index as int] == row@);
        }
        match &row.file_diff {
            Some(file) => Some(
                match fresh {
                    Some(text) => text,
                    None => file.content.clone(),
                },
            ),
            None => None,
        }
    }

    /// Reports the end of the external tool: what it wrote, or nothing
    /// where it failed. What it wrote is shown; after a failure what was
    /// shown stays.
    pub fn tool_finished(&mut self, output: Option<String>)
        ensures
            final(self).state() == old(self).state().tool_finished(
                match output {
                    Some(t) => Some(t@),
                    None => None,
                },
            ),
            final(self).same_setup(old(self)),
            old(self).wf() ==> final(self).wf(),
    {
        match output {
            Some(text) => {
                self.diff_output = text;
            },
            None => {},
        }
    }

    /// The path of the selected row where it is a file.
    pub fn selected_file_path(&self) -> (path: Option<&String>)
        ensures
            match path {
                Some(p) => self.state().selected_file() == Some(p@),
                None => self.state().selected_file() is None,
            },
    {
        let items = self.get_current_file_tree_items();
        if self.selected_index < items.len() {
            let row = &items[self.selected_index];
            proof {
                assert(rows_view(items@)[self.selected_index as int] == row@);
            }
            if row.is_directory {
                None
            } else {
                Some(&row.full_path)
            }
        } else {
            None
        }
    }

    /// What to do with the diff text of the selected file where at most
    /// one width is known: `width`, or else the width of the terminal.
    pub fn execute_external_diff_tool_with_width(
        &self,
        width: Option<u16>,
        terminal_width: Option<u16>,
    ) -> (plan: ToolPlan)
        ensures
            plan@ == plan_for_width(
                self.spec_config().command_type(),
                width,
                terminal_width,
                self.spec_mode()@,
                self.state().selected_file(),
            ),
    {
        let kind = self.config.get_diff_command_type();
        plan_tool_for_width(
            &kind,
            width,
            terminal_width,
            &self.operation_mode,
            self.selected_file_path(),
        )
    }

    /// What to do with the diff text of the selected file for a diff pane
    /// and a terminal of known widths.
    pub fn execute_external_diff_tool_with_area_width(
        &self,
        area_width: u16,
        terminal_width: u16,
    ) -> (plan: ToolPlan)
        ensures
            plan@ == plan_for_area(
                self.spec_config().command_type(),
                area_width,
                terminal_width,
                self.spec_mode()@,
                self.state().selected_file(),
            ),
    {
        let kind = self.config.get_diff_command_type();
        plan_tool_for_area(
            &kind,
            area_width,
            terminal_width,
            &self.operation_mode,
            self.selected_file_path(),
        )
    }

    /// Clamps the scroll offsets to the content that is shown: the diff
    /// cannot be scrolled beyond its last line or its widest line.
    pub fn clamp_scroll(&mut self, viewport_height: u16, viewport_width: u16)
        ensures
            final(self).state() == old(self).state().clamp_scroll(viewport_height, viewport_width),
            final(self).same_setup(old(self)),
            old(self).wf() ==> final(self).wf(),
    {
        let content = measure_content(self.diff_output.as_str());
        let offsets = clamp_offsets(
            (self.vertical_scroll, self.horizontal_scroll),
            content,
            viewport_height,
            viewport_width,
        );
        self.vertical_scroll = offsets.0;
        self.horizontal_scroll = offsets.1;
    }

    /// Whether a text holds ANSI escape sequences: whether it holds an
    /// escape character.
    pub fn contains_ansi_codes(&self, text: &str) -> (r: bool)
        ensures
            r == has_escape(text@),
    {
        let chars = chars_of(text);
        contains_escape(chars.as_slice())
    }

    /// Whether a tool formats the diff.
    pub open spec fn formats(&self) -> bool {
        !(self.spec_config().command_type() is GitDefault)
    }

    /// Looks at the width of the diff pane before it is drawn. Where a tool
    /// formats the diff and the width differs from the last one by more
    /// than 5 columns, or none was seen yet, the width is remembered and
    /// the diff of a selected file has to be formatted anew.
    pub fn refresh_diff_with_width(&mut self, area_width: u16) -> (action: Action)
        ensures
            final(self).state() == old(self).state().width_seen(old(self).formats(), area_width),
            action@ == old(self).state().width_action(
                old(self).formats(),
                area_width,
                old(self).fetches(),
            ),
            final(self).same_setup(old(self)),
            old(self).wf() ==> final(self).wf(),
    {
        let formats = match self.config.get_diff_command_type() {
            DiffCommandType::GitDefault => false,
            DiffCommandType::Pager(_) => true,
            DiffCommandType::External(_) => true,
        };
        if !formats || !should_refresh_diff_width(self.last_width, area_width) {
            return Action::Nothing;
        }
        self.last_width = area_width;
        let fetch = self.operation_mode.requires_git_repo();
        let items = self.get_current_file_tree_items();
        if self.selected_index < items.len() {
            let row = &items[self.selected_index];
            proof {
                assert(rows_view(items@)[self.selected_index as int] == row@);
            }
            if row.file_diff.is_some() {
                Action::Reformat { path: row.full_path.clone(), fetch }
            } else {
                Action::Nothing
            }
        } else {
            Action::Nothing
        }
    }
}

} // verus!
