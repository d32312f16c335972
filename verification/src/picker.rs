//! The page on which unused files and assets are picked for deletion: what
//! each key does to it, and what it asks to be done on disk.

use crate::candidates::{
    candidate_views, CandidateView, clamp_delete_cursor, DeleteCandidate, DeleteFilter,
    filtered_indices, toggle_selected, toggled, visible_rows,
};
use crate::marks::set_indices;
use crate::text::{decimal, framed, from_chars, to_chars, to_decimal};
use vstd::prelude::*;

verus! {

/// A key, as far as the pages tell keys apart.
#[derive(Clone, Copy, Debug, PartialEq, Eq, Structural)]
pub enum Key {
    Enter,
    Esc,
    Backspace,
    Up,
    Down,
    Char(char),
    Other,
}

/// What the summary page asks for.
#[derive(Clone, Copy, Debug, PartialEq, Eq, Structural)]
pub enum SummaryAction {
    Stay,
    Quit,
    ShowDeletePage,
}

/// What a key does on the summary page: `q` and Esc quit, `d` shows the
/// delete page.
pub fn handle_summary_key(key: Key) -> (out: SummaryAction)
    ensures
        out == match key {
            Key::Char(c) => if c == 'q' {
                SummaryAction::Quit
            } else if c == 'd' {
                SummaryAction::ShowDeletePage
            } else {
                SummaryAction::Stay
            },
            Key::Esc => SummaryAction::Quit,
            _ => SummaryAction::Stay,
        },
{
    match key {
        Key::Char(c) => if c == 'q' {
            SummaryAction::Quit
        } else if c == 'd' {
            SummaryAction::ShowDeletePage
        } else {
            SummaryAction::Stay
        },
        Key::Esc => SummaryAction::Quit,
        _ => SummaryAction::Stay,
    }
}

/// What waits for a yes or a no.
#[derive(Clone, Copy, Debug, PartialEq, Eq, Structural)]
pub enum Pending {
    Nothing,
    Delete,
    EmptyTrash,
    RestorePrevious,
    RestoreAll,
}

/// What the delete page asks to be done.
#[derive(Clone, Copy, Debug, PartialEq, Eq, Structural)]
pub enum Action {
    Nothing,
    Quit,
    ShowSummary,
    DeleteSelected,
    EmptyTrash,
    RestorePreviousSession,
    RestoreAllSessions,
    UndoLastDeletion,
    RestoreFile,
    RestoreFolder,
}

/// The delete page.
pub struct DeleteState {
    /// The rows, ordered by path.
    pub items: Vec<DeleteCandidate>,
    /// The rows that are selected, by their indices.
    pub selected: Vec<usize>,
    /// The place of the cursor among the rows that are shown.
    pub cursor: usize,
    pub pending: Pending,
    pub filter: DeleteFilter,
    /// The search that narrows the rows.
    pub search_query: String,
    /// The search as far as it is typed.
    pub search_input: String,
    pub editing_search: bool,
    /// What the page says about the last key.
    pub message: String,
}

/// A `DeleteState` as plain values.
pub struct DeleteView {
    pub items: Seq<CandidateView>,
    pub selected: Seq<usize>,
    pub cursor: usize,
    pub pending: Pending,
    pub filter: DeleteFilter,
    pub search_query: Seq<char>,
    pub search_input: Seq<char>,
    pub editing_search: bool,
    pub message: Seq<char>,
}

impl View for DeleteState {
    type V = DeleteView;

    open spec fn view(&self) -> DeleteView {
        DeleteView {
            items: candidate_views(self.items@),
            selected: self.selected@,
            cursor: self.cursor,
            pending: self.pending,
            filter: self.filter,
            search_query: self.search_query@,
            search_input: self.search_input@,
            editing_search: self.editing_search,
            message: self.message@,
        }
    }
}

/// The rows that are shown, by their indices, ascending.
pub open spec fn shown_rows(s: DeleteView) -> Seq<usize> {
    set_indices(visible_rows(s.items, s.filter, s.search_query))
}

/// The page with its cursor kept on the rows that are shown.
pub open spec fn clamped(s: DeleteView) -> DeleteView {
    let shown = shown_rows(s).len();
    DeleteView {
        cursor: if shown == 0 {
            0
        } else if s.cursor >= shown {
            (shown - 1) as usize
        } else {
            s.cursor
        },
        ..s
    }
}

/// The page saying something.
pub open spec fn saying(s: DeleteView, message: Seq<char>) -> DeleteView {
    DeleteView { message, ..s }
}

/// How many rows are selected, in words.
pub open spec fn selected_count(n: nat) -> Seq<char> {
    "Selected "@ + decimal(n) + " items."@
}

/// The page after a key while a search is typed: Enter applies the search,
/// Esc gives it up, Backspace takes the last character away, and a character
/// is added.
pub open spec fn while_editing(s: DeleteView, key: Key) -> DeleteView {
    match key {
        Key::Enter => clamped(
            DeleteView {
                search_query: s.search_input,
                editing_search: false,
                message: "Search applied: '"@ + (if s.search_input.len() == 0 {
                    "(none)"@
                } else {
                    s.search_input
                }) + "'."@,
                ..s
            },
        ),
        Key::Esc => DeleteView {
            editing_search: false,
            search_input: Seq::empty(),
            message: "Search edit canceled."@,
            ..s
        },
        Key::Backspace => DeleteView {
            search_input: if s.search_input.len() > 0 {
                s.search_input.drop_last()
            } else {
                s.search_input
            },
            ..s
        },
        Key::Char(c) => DeleteView { search_input: s.search_input.push(c), ..s },
        _ => s,
    }
}

/// What is done on a yes.
pub open spec fn confirmed(pending: Pending) -> Action {
    match pending {
        Pending::Nothing => Action::Nothing,
        Pending::Delete => Action::DeleteSelected,
        Pending::EmptyTrash => Action::EmptyTrash,
        Pending::RestorePrevious => Action::RestorePreviousSession,
        Pending::RestoreAll => Action::RestoreAllSessions,
    }
}

/// What the page says on a no.
pub open spec fn canceled(pending: Pending) -> Seq<char> {
    match pending {
        Pending::Nothing => Seq::empty(),
        Pending::Delete => "Deletion canceled."@,
        Pending::EmptyTrash => "Empty trash canceled."@,
        Pending::RestorePrevious => "Restore previous session canceled."@,
        Pending::RestoreAll => "Restore all sessions canceled."@,
    }
}

/// What the page says when it asks for a yes or a no.
pub open spec fn asking(pending: Pending, selected: nat) -> Seq<char> {
    match pending {
        Pending::Nothing => Seq::empty(),
        Pending::Delete => "Confirm delete "@ + decimal(selected)
            + " selected files? Press y to confirm, n to cancel."@,
        Pending::EmptyTrash => "Empty trash and clear undo history? Press y to confirm, n to cancel."@,
        Pending::RestorePrevious => "Restore most recent previous trash session? Press y to confirm, n to cancel."@,
        Pending::RestoreAll => "Restore ALL trash sessions? Press y to confirm, n to cancel."@,
    }
}

/// The page and what it asks for after a key while something waits for a
/// yes or a no: `y` has it done, `n` and Esc give it up, any other key changes
/// nothing.
pub open spec fn while_pending(s: DeleteView, key: Key) -> (DeleteView, Action) {
    match key {
        Key::Char(c) => if c == 'y' {
            (DeleteView { pending: Pending::Nothing, ..s }, confirmed(s.pending))
        } else if c == 'n' {
            (
                DeleteView { pending: Pending::Nothing, message: canceled(s.pending), ..s },
                Action::Nothing,
            )
        } else {
            (s, Action::Nothing)
        },
        Key::Esc => (
            DeleteView { pending: Pending::Nothing, message: canceled(s.pending), ..s },
            Action::Nothing,
        ),
        _ => (s, Action::Nothing),
    }
}

/// The page with the cursor one row up, where there is one.
pub open spec fn moved_up(s: DeleteView) -> DeleteView {
    if shown_rows(s).len() > 0 && s.cursor > 0 {
        DeleteView { cursor: (s.cursor - 1) as usize, ..s }
    } else {
        s
    }
}

/// The page with the cursor one row down, where there is one.
pub open spec fn moved_down(s: DeleteView) -> DeleteView {
    if s.cursor + 1 < shown_rows(s).len() {
        DeleteView { cursor: (s.cursor + 1) as usize, ..s }
    } else {
        s
    }
}

/// The page with the row under the cursor selected, or taken out of the
/// selection; unchanged where the cursor is on no row.
pub open spec fn toggled_at_cursor(s: DeleteView) -> DeleteView {
    let shown = shown_rows(s);
    if s.cursor < shown.len() {
        let selected = toggled(s.selected, shown[s.cursor as int]);
        DeleteView { selected, message: selected_count(selected.len()), ..s }
    } else {
        s
    }
}

/// The page with every row that is shown selected.
pub open spec fn all_selected(s: DeleteView) -> DeleteView {
    let shown = shown_rows(s);
    DeleteView { selected: shown, message: selected_count(shown.len()), ..s }
}

/// The page asking whether the selected rows are to be deleted; saying that
/// none is selected where none is.
pub open spec fn asked_to_delete(s: DeleteView) -> DeleteView {
    if s.selected.len() == 0 {
        saying(s, "No items selected for deletion."@)
    } else {
        DeleteView {
            pending: Pending::Delete,
            message: asking(Pending::Delete, s.selected.len()),
            ..s
        }
    }
}

/// The page asking for a yes or a no.
pub open spec fn asked(s: DeleteView, pending: Pending) -> DeleteView {
    DeleteView { pending, message: asking(pending, s.selected.len()), ..s }
}

/// The page with the next filter.
pub open spec fn filter_turned(s: DeleteView) -> DeleteView {
    let next = match s.filter {
        DeleteFilter::All => DeleteFilter::Files,
        DeleteFilter::Files => DeleteFilter::Assets,
        DeleteFilter::Assets => DeleteFilter::All,
    };
    saying(
        clamped(DeleteView { filter: next, ..s }),
        "Filter: "@ + match next {
            DeleteFilter::All => "all"@,
            DeleteFilter::Files => "files"@,
            DeleteFilter::Assets => "assets"@,
        },
    )
}

/// The page with neither filter nor search.
pub open spec fn reset(s: DeleteView) -> DeleteView {
    saying(
        clamped(
            DeleteView {
                filter: DeleteFilter::All,
                search_query: Seq::empty(),
                search_input: Seq::empty(),
                editing_search: false,
                ..s
            },
        ),
        "Reset filter and search."@,
    )
}

/// The page with a search being typed, starting from the search in force.
pub open spec fn search_opened(s: DeleteView) -> DeleteView {
    DeleteView {
        editing_search: true,
        search_input: s.search_query,
        message: "Search mode: type and press Enter to apply."@,
        ..s
    }
}

/// The page and what it asks for after a character on the list.
pub open spec fn on_character(s: DeleteView, c: char) -> (DeleteView, Action) {
    if c == 'q' {
        (s, Action::Quit)
    } else if c == 'b' {
        (s, Action::ShowSummary)
    } else if c == 'k' {
        (moved_up(s), Action::Nothing)
    } else if c == 'j' {
        (moved_down(s), Action::Nothing)
    } else if c == ' ' {
        (toggled_at_cursor(s), Action::Nothing)
    } else if c == 'a' {
        (all_selected(s), Action::Nothing)
    } else if c == 'c' {
        (
            DeleteView { selected: Seq::empty(), message: "Selection cleared."@, ..s },
            Action::Nothing,
        )
    } else if c == 'x' {
        (asked_to_delete(s), Action::Nothing)
    } else if c == 'z' {
        (asked(s, Pending::EmptyTrash), Action::Nothing)
    } else if c == 'r' {
        (asked(s, Pending::RestorePrevious), Action::Nothing)
    } else if c == 'R' {
        (asked(s, Pending::RestoreAll), Action::Nothing)
    } else if c == 'u' {
        (s, Action::UndoLastDeletion)
    } else if c == 'i' {
        (s, Action::RestoreFile)
    } else if c == 'o' {
        (s, Action::RestoreFolder)
    } else if c == 'f' {
        (filter_turned(s), Action::Nothing)
    } else if c == 'g' {
        (reset(s), Action::Nothing)
    } else if c == '/' {
        (search_opened(s), Action::Nothing)
    } else {
        (s, Action::Nothing)
    }
}

/// The page and what it asks for after a key on the list.
pub open spec fn on_list(s: DeleteView, key: Key) -> (DeleteView, Action) {
    match key {
        Key::Esc => (s, Action::ShowSummary),
        Key::Up => (moved_up(s), Action::Nothing),
        Key::Down => (moved_down(s), Action::Nothing),
        Key::Enter => (toggled_at_cursor(s), Action::Nothing),
        Key::Char(c) => on_character(s, c),
        _ => (s, Action::Nothing),
    }
}

/// The page and what it asks for after a key. A search that is being typed
/// takes every key; then what waits for a yes or a no; then the list.
pub open spec fn after_key(s: DeleteView, key: Key) -> (DeleteView, Action) {
    if s.editing_search {
        (while_editing(s, key), Action::Nothing)
    } else if s.pending != Pending::Nothing {
        while_pending(s, key)
    } else {
        on_list(s, key)
    }
}

fn shown(state: &DeleteState) -> (out: Vec<usize>)
    ensures
        out@ == shown_rows(state@),
{
    filtered_indices(&state.items, state.filter, state.search_query.as_str())
}

fn clamp(state: &mut DeleteState)
    ensures
        final(state)@ == clamped(old(state)@),
{
    let count = shown(state).len();
    state.cursor = clamp_delete_cursor(state.cursor, count);
}

fn say(state: &mut DeleteState, message: &str)
    ensures
        final(state)@ == saying(old(state)@, message@),
{
    state.message = String::from_str(message);
}

fn say_selected(state: &mut DeleteState)
    ensures
        final(state)@ == saying(old(state)@, selected_count(old(state).selected@.len())),
{
    state.message = framed("Selected ", &to_decimal(state.selected.len()), " items.");
}

fn edit_search(state: &mut DeleteState, key: Key)
    ensures
        final(state)@ == while_editing(old(state)@, key),
{
    match key {
        Key::Enter => {
            let input = to_chars(state.search_input.as_str());
            state.search_query = from_chars(&input);
            state.editing_search = false;
            state.message = if input.len() == 0 {
                framed("Search applied: '", &to_chars("(none)"), "'.")
            } else {
                framed("Search applied: '", &input, "'.")
            };
            clamp(state);
        },
        Key::Esc => {
            state.editing_search = false;
            state.search_input = String::new();
            say(state, "Search edit canceled.");
        },
        Key::Backspace => {
            let mut input = to_chars(state.search_input.as_str());
            if input.len() > 0 {
                input.pop();
                state.search_input = from_chars(&input);
            }
        },
        Key::Char(c) => {
            state.search_input.push(c);
        },
        _ => {},
    }
}

fn answer(state: &mut DeleteState, key: Key) -> (action: Action)
    ensures
        (final(state)@, action) == while_pending(old(state)@, key),
{
    let pending = state.pending;
    let (yes, no) = match key {
        Key::Char(c) => (c == 'y', c == 'n'),
        Key::Esc => (false, true),
        _ => (false, false),
    };
    if yes {
        state.pending = Pending::Nothing;
        match pending {
            Pending::Nothing => Action::Nothing,
            Pending::Delete => Action::DeleteSelected,
            Pending::EmptyTrash => Action::EmptyTrash,
            Pending::RestorePrevious => Action::RestorePreviousSession,
            Pending::RestoreAll => Action::RestoreAllSessions,
        }
    } else if no {
        state.pending = Pending::Nothing;
        match pending {
            Pending::Nothing => {
                state.message = String::new();
            },
            Pending::Delete => say(state, "Deletion canceled."),
            Pending::EmptyTrash => say(state, "Empty trash canceled."),
            Pending::RestorePrevious => say(state, "Restore previous session canceled."),
            Pending::RestoreAll => say(state, "Restore all sessions canceled."),
        }
        Action::Nothing
    } else {
        Action::Nothing
    }
}

fn ask(state: &mut DeleteState, pending: Pending)
    ensures
        final(state)@ == asked(old(state)@, pending),
{
    state.pending = pending;
    match pending {
        Pending::Nothing => {
            state.message = String::new();
        },
        Pending::Delete => {
            state.message = framed(
                "Confirm delete ",
                &to_decimal(state.selected.len()),
                " selected files? Press y to confirm, n to cancel.",
            );
        },
        Pending::EmptyTrash => say(
            state,
            "Empty trash and clear undo history? Press y to confirm, n to cancel.",
        ),
        Pending::RestorePrevious => say(
            state,
            "Restore most recent previous trash session? Press y to confirm, n to cancel.",
        ),
        Pending::RestoreAll => say(
            state,
            "Restore ALL trash sessions? Press y to confirm, n to cancel.",
        ),
    }
}

fn move_up(state: &mut DeleteState)
    ensures
        final(state)@ == moved_up(old(state)@),
{
    if shown(state).len() > 0 && state.cursor > 0 {
        state.cursor = state.cursor - 1;
    }
}

fn move_down(state: &mut DeleteState)
    ensures
        final(state)@ == moved_down(old(state)@),
{
    let count = shown(state).len();
    if count > 0 && state.cursor < count - 1 {
        state.cursor = state.cursor + 1;
    }
}

fn toggle_at_cursor(state: &mut DeleteState)
    ensures
        final(state)@ == toggled_at_cursor(old(state)@),
{
    let rows = shown(state);
    if state.cursor < rows.len() {
        toggle_selected(&mut state.selected, &rows, state.cursor);
        say_selected(state);
    }
}

fn select_all(state: &mut DeleteState)
    ensures
        final(state)@ == all_selected(old(state)@),
{
    state.selected = shown(state);
    say_selected(state);
}

fn turn_filter(state: &mut DeleteState)
    ensures
        final(state)@ == filter_turned(old(state)@),
{
    state.filter = state.filter.next();
    clamp(state);
    let label = to_chars(state.filter.label());
    state.message = framed("Filter: ", &label, "");
    proof {
        reveal_strlit("");
        let said = "Filter: "@ + label@;
        assert(said + ""@ =~= said);
    }
}

/// Takes filter and search away.
pub fn reset_filter_and_search(state: &mut DeleteState)
    ensures
        final(state)@ == reset(old(state)@),
{
    state.filter = DeleteFilter::All;
    state.search_query = String::new();
    state.search_input = String::new();
    state.editing_search = false;
    clamp(state);
    say(state, "Reset filter and search.");
}

fn on_character_key(state: &mut DeleteState, c: char) -> (action: Action)
    ensures
        (final(state)@, action) == on_character(old(state)@, c),
{
    if c == 'q' {
        Action::Quit
    } else if c == 'b' {
        Action::ShowSummary
    } else if c == 'k' {
        move_up(state);
        Action::Nothing
    } else if c == 'j' {
        move_down(state);
        Action::Nothing
    } else if c == ' ' {
        toggle_at_cursor(state);
        Action::Nothing
    } else if c == 'a' {
        select_all(state);
        Action::Nothing
    } else if c == 'c' {
        state.selected = Vec::new();
        say(state, "Selection cleared.");
        Action::Nothing
    } else if c == 'x' {
        if state.selected.len() == 0 {
            say(state, "No items selected for deletion.");
        } else {
            ask(state, Pending::Delete);
        }
        Action::Nothing
    } else if c == 'z' {
        ask(state, Pending::EmptyTrash);
        Action::Nothing
    } else if c == 'r' {
        ask(state, Pending::RestorePrevious);
        Action::Nothing
    } else if c == 'R' {
        ask(state, Pending::RestoreAll);
        Action::Nothing
    } else if c == 'u' {
        Action::UndoLastDeletion
    } else if c == 'i' {
        Action::RestoreFile
    } else if c == 'o' {
        Action::RestoreFolder
    } else if c == 'f' {
        turn_filter(state);
        Action::Nothing
    } else if c == 'g' {
        reset_filter_and_search(state);
        Action::Nothing
    } else if c == '/' {
        state.editing_search = true;
        state.search_input = state.search_query.clone();
        say(state, "Search mode: type and press Enter to apply.");
        Action::Nothing
    } else {
        Action::Nothing
    }
}

/// Takes a key on the delete page, and says what is to be done on disk.
pub fn handle_delete_key(key: Key, state: &mut DeleteState) -> (action: Action)
    ensures
        (final(state)@, action) == after_key(old(state)@, key),
{
    if state.editing_search {
        edit_search(state, key);
        return Action::Nothing;
    }
    match state.pending {
        Pending::Nothing => {},
        _ => {
            return answer(state, key);
        },
    }
    match key {
        Key::Esc => Action::ShowSummary,
        Key::Up => {
            move_up(state);
            Action::Nothing
        },
        Key::Down => {
            move_down(state);
            Action::Nothing
        },
        Key::Enter => {
            toggle_at_cursor(state);
            Action::Nothing
        },
        Key::Char(c) => on_character_key(state, c),
        _ => Action::Nothing,
    }
}

} // verus!
