//! What each key press does, in the table view, the detail view and while
//! the help popup is open, and when the statistics are refreshed.

use vstd::prelude::*;

verus! {

/// A key, as far as the monitor tells keys apart.
#[derive(Clone, Copy, Debug, PartialEq, Eq, Structural)]
pub enum Key {
    Char(char),
    Esc,
    Enter,
    Up,
    Down,
    Other,
}

/// What the application is asked to do in answer to a key.
#[derive(Clone, Copy, Debug, PartialEq, Eq, Structural)]
pub enum KeyAction {
    Nothing,
    Quit,
    MoveUp,
    MoveDown,
    ToggleDetail,
    CycleTheme,
    ScrollUp,
    ScrollDown,
    ToggleHelp,
    CloseHelp,
}

/// Keys of the table view: `q`/Esc quit, `k`/Up and `j`/Down move the
/// selection, Enter opens the detail panel, `t` changes the theme.
pub open spec fn normal_action(key: Key) -> KeyAction {
    match key {
        Key::Char('q') | Key::Esc => KeyAction::Quit,
        Key::Up | Key::Char('k') => KeyAction::MoveUp,
        Key::Down | Key::Char('j') => KeyAction::MoveDown,
        Key::Enter => KeyAction::ToggleDetail,
        Key::Char('t') => KeyAction::CycleTheme,
        _ => KeyAction::Nothing,
    }
}

/// Keys of the detail view: `q` quits, Esc/Enter close the panel, `k`/Up
/// and `j`/Down scroll, `t` changes the theme.
pub open spec fn detail_action(key: Key) -> KeyAction {
    match key {
        Key::Char('q') => KeyAction::Quit,
        Key::Esc | Key::Enter => KeyAction::ToggleDetail,
        Key::Up | Key::Char('k') => KeyAction::ScrollUp,
        Key::Down | Key::Char('j') => KeyAction::ScrollDown,
        Key::Char('t') => KeyAction::CycleTheme,
        _ => KeyAction::Nothing,
    }
}

/// The answer to a key event: whether it was a press (the screen is then
/// redrawn) and what to do. `h` toggles help in every view; while help is
/// open, Esc closes it and every other key does nothing.
pub open spec fn key_outcome(show_help: bool, show_detail: bool, key: Key, pressed: bool) -> (
    bool,
    KeyAction,
) {
    if !pressed {
        (false, KeyAction::Nothing)
    } else if key == Key::Char('h') {
        (true, KeyAction::ToggleHelp)
    } else if show_help {
        (true, if key == Key::Esc { KeyAction::CloseHelp } else { KeyAction::Nothing })
    } else if show_detail {
        (true, detail_action(key))
    } else {
        (true, normal_action(key))
    }
}

/// The action of a key in the table view.
pub fn handle_normal_mode(key: Key) -> (a: KeyAction)
    ensures
        a == normal_action(key),
{
    match key {
        Key::Char('q') | Key::Esc => KeyAction::Quit,
        Key::Up | Key::Char('k') => KeyAction::MoveUp,
        Key::Down | Key::Char('j') => KeyAction::MoveDown,
        Key::Enter => KeyAction::ToggleDetail,
        Key::Char('t') => KeyAction::CycleTheme,
        _ => KeyAction::Nothing,
    }
}

/// The action of a key in the detail view.
pub fn handle_detail_mode(key: Key) -> (a: KeyAction)
    ensures
        a == detail_action(key),
{
    match key {
        Key::Char('q') => KeyAction::Quit,
        Key::Esc | Key::Enter => KeyAction::ToggleDetail,
        Key::Up | Key::Char('k') => KeyAction::ScrollUp,
        Key::Down | Key::Char('j') => KeyAction::ScrollDown,
        Key::Char('t') => KeyAction::CycleTheme,
        _ => KeyAction::Nothing,
    }
}

/// Decides what a key event does, given which of the help popup and the
/// detail panel are open.
pub fn handle_key(show_help: bool, show_detail: bool, key: Key, pressed: bool) -> (r: (
    bool,
    KeyAction,
))
    ensures
        r == key_outcome(show_help, show_detail, key, pressed),
        pressed && key == Key::Char('h') ==> r.1 == KeyAction::ToggleHelp,
        pressed && show_help && key != Key::Char('h') ==> (r.1 == KeyAction::Nothing || r.1
            == KeyAction::CloseHelp),
        !pressed ==> r == (false, KeyAction::Nothing),
{
    if !pressed {
        return (false, KeyAction::Nothing);
    }
    if key == Key::Char('h') {
        return (true, KeyAction::ToggleHelp);
    }
    if show_help {
        if key == Key::Esc {
            return (true, KeyAction::CloseHelp);
        }
        return (true, KeyAction::Nothing);
    }
    if show_detail {
        (true, handle_detail_mode(key))
    } else {
        (true, handle_normal_mode(key))
    }
}

/// Whether the statistics are due for a refresh: at least one interval has
/// passed since the last one (times in milliseconds).
pub fn refresh_due(since_last_ms: u64, interval_ms: u64) -> (due: bool)
    ensures
        due == (since_last_ms >= interval_ms),
{
    since_last_ms >= interval_ms
}

/// What the screen shows, as far as keys change it.
#[derive(Clone, Copy, Debug, PartialEq, Eq, Structural)]
pub struct ViewState {
    /// Row of the table that is selected.
    pub selected_row: usize,
    /// Number of rows in the table.
    pub row_count: usize,
    pub show_detail: bool,
    pub show_help: bool,
    pub should_quit: bool,
    /// First line of the detail panel that is shown.
    pub detail_scroll: u16,
    /// Largest useful value of `detail_scroll`, set when the panel is drawn.
    pub detail_max_scroll: u16,
    /// Index of the colour theme in use.
    pub theme: usize,
    /// Number of colour themes.
    pub theme_count: usize,
}

/// The selection is on a row of the table (or at 0 when there are none),
/// and the theme is one of the themes.
pub open spec fn view_wf(v: ViewState) -> bool {
    &&& v.row_count == 0 ==> v.selected_row == 0
    &&& v.row_count > 0 ==> v.selected_row < v.row_count
    &&& v.theme < v.theme_count
}

/// The view after an action:
/// - `MoveUp`/`MoveDown` move the selection by one row within the table and
///   scroll the detail panel back to its top;
/// - `ToggleDetail` opens or closes the detail panel, back at its top;
/// - `CycleTheme` takes the next theme, after the last the first;
/// - `ScrollUp` scrolls up a line, or at the top selects the previous row;
/// - `ScrollDown` scrolls down a line, or at the bottom selects the next row
///   (back at the top of the panel);
/// - `ToggleHelp` opens or closes help, `CloseHelp` closes it, `Quit` asks to
///   quit.
pub open spec fn next_view(v: ViewState, a: KeyAction) -> ViewState {
    match a {
        KeyAction::Nothing => v,
        KeyAction::Quit => ViewState { should_quit: true, ..v },
        KeyAction::MoveUp => ViewState {
            selected_row: if v.selected_row > 0 { (v.selected_row - 1) as usize } else { 0 },
            detail_scroll: 0,
            ..v
        },
        KeyAction::MoveDown => ViewState {
            selected_row: if v.selected_row + 1 < v.row_count {
                (v.selected_row + 1) as usize
            } else {
                v.selected_row
            },
            detail_scroll: 0,
            ..v
        },
        KeyAction::ToggleDetail => ViewState { show_detail: !v.show_detail, detail_scroll: 0, ..v },
        KeyAction::CycleTheme => ViewState {
            theme: if v.theme + 1 < v.theme_count { (v.theme + 1) as usize } else { 0 },
            ..v
        },
        KeyAction::ScrollUp => if v.detail_scroll > 0 {
            ViewState { detail_scroll: (v.detail_scroll - 1) as u16, ..v }
        } else if v.selected_row > 0 {
            ViewState { selected_row: (v.selected_row - 1) as usize, ..v }
        } else {
            v
        },
        KeyAction::ScrollDown => if v.detail_scroll < v.detail_max_scroll {
            ViewState { detail_scroll: (v.detail_scroll + 1) as u16, ..v }
        } else if v.selected_row + 1 < v.row_count {
            ViewState { selected_row: (v.selected_row + 1) as usize, detail_scroll: 0, ..v }
        } else {
            v
        },
        KeyAction::ToggleHelp => ViewState { show_help: !v.show_help, ..v },
        KeyAction::CloseHelp => ViewState { show_help: false, ..v },
    }
}

/// Carries out an action on the view.
pub fn apply_action(view: &mut ViewState, action: KeyAction)
    ensures
        *final(view) == next_view(*old(view), action),
        view_wf(*old(view)) ==> view_wf(*final(view)),
{
    match action {
        KeyAction::Nothing => {},
        KeyAction::Quit => {
            view.should_quit = true;
        },
        KeyAction::MoveUp => {
            if view.selected_row > 0 {
                view.selected_row = view.selected_row - 1;
            }
            view.detail_scroll = 0;
        },
        KeyAction::MoveDown => {
            if view.selected_row < view.row_count && view.row_count - view.selected_row > 1 {
                view.selected_row = view.selected_row + 1;
            }
            view.detail_scroll = 0;
        },
        KeyAction::ToggleDetail => {
            view.show_detail = !view.show_detail;
            view.detail_scroll = 0;
        },
        KeyAction::CycleTheme => {
            if view.theme < view.theme_count && view.theme_count - view.theme > 1 {
                view.theme = view.theme + 1;
            } else {
                view.theme = 0;
            }
        },
        KeyAction::ScrollUp => {
            if view.detail_scroll > 0 {
                view.detail_scroll = view.detail_scroll - 1;
            } else if view.selected_row > 0 {
                view.selected_row = view.selected_row - 1;
            }
        },
        KeyAction::ScrollDown => {
            if view.detail_scroll < view.detail_max_scroll {
                view.detail_scroll = view.detail_scroll + 1;
            } else if view.selected_row < view.row_count && view.row_count - view.selected_row > 1 {
                view.selected_row = view.selected_row + 1;
                view.detail_scroll = 0;
            }
        },
        KeyAction::ToggleHelp => {
            view.show_help = !view.show_help;
        },
        KeyAction::CloseHelp => {
            view.show_help = false;
        },
    }
}

/// The view after the table is refilled with `rows` rows: the selection
/// moves to the last row if it is now past the end.
pub open spec fn with_rows(v: ViewState, rows: usize) -> ViewState {
    ViewState {
        row_count: rows,
        selected_row: if v.selected_row >= rows {
            if rows > 0 { (rows - 1) as usize } else { 0 }
        } else {
            v.selected_row
        },
        ..v
    }
}

/// Tells the view how many rows the table now has.
pub fn set_row_count(view: &mut ViewState, rows: usize)
    ensures
        *final(view) == with_rows(*old(view), rows),
        old(view).theme < old(view).theme_count ==> view_wf(*final(view)),
{
    if view.selected_row >= rows {
        view.selected_row = if rows > 0 { rows - 1 } else { 0 };
    }
    view.row_count = rows;
}

/// The vi keys `k` and `j` do what the arrow keys Up and Down do, in the
/// table view and the detail view alike: in the table they move the
/// selection up and down, in the detail panel they scroll it up and down.
pub proof fn lemma_vi_keys_mirror_arrows(show_detail: bool)
    ensures
        normal_action(Key::Char('k')) == normal_action(Key::Up),
        normal_action(Key::Char('j')) == normal_action(Key::Down),
        detail_action(Key::Char('k')) == detail_action(Key::Up),
        detail_action(Key::Char('j')) == detail_action(Key::Down),
        normal_action(Key::Up) == KeyAction::MoveUp,
        normal_action(Key::Down) == KeyAction::MoveDown,
        detail_action(Key::Up) == KeyAction::ScrollUp,
        detail_action(Key::Down) == KeyAction::ScrollDown,
        key_outcome(false, show_detail, Key::Char('k'), true) == key_outcome(
            false,
            show_detail,
            Key::Up,
            true,
        ),
        key_outcome(false, show_detail, Key::Char('j'), true) == key_outcome(
            false,
            show_detail,
            Key::Down,
            true,
        ),
        key_outcome(false, show_detail, Key::Char('k'), true) == (true, if show_detail {
            KeyAction::ScrollUp
        } else {
            KeyAction::MoveUp
        }),
        key_outcome(false, show_detail, Key::Char('j'), true) == (true, if show_detail {
            KeyAction::ScrollDown
        } else {
            KeyAction::MoveDown
        }),
{
}

/// Up and down undo each other in the detail panel while it is scrolled
/// within its range: scrolling down a line and back up returns to the same
/// view.
pub proof fn lemma_scroll_down_up(v: ViewState)
    requires
        v.detail_scroll < v.detail_max_scroll,
    ensures
        next_view(next_view(v, KeyAction::ScrollDown), KeyAction::ScrollUp) == v,
        next_view(v, KeyAction::ScrollDown).detail_scroll == v.detail_scroll + 1,
{
}

} // verus!
