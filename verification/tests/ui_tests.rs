use rdmatop::events::{
    apply_action, handle_detail_mode, handle_key, handle_normal_mode, refresh_due, set_row_count, Key,
    KeyAction, ViewState,
};
use rdmatop::layout::{centered_rect, detail_max_scroll, help_popup_area, Area};
use rdmatop::style::{counter_tone, is_detail_counter, process_state_tone, Tone};

#[test]
fn normal_mode_keys() {
    assert_eq!(handle_normal_mode(Key::Char('q')), KeyAction::Quit);
    assert_eq!(handle_normal_mode(Key::Esc), KeyAction::Quit);
    assert_eq!(handle_normal_mode(Key::Up), KeyAction::MoveUp);
    assert_eq!(handle_normal_mode(Key::Char('k')), KeyAction::MoveUp);
    assert_eq!(handle_normal_mode(Key::Down), KeyAction::MoveDown);
    assert_eq!(handle_normal_mode(Key::Char('j')), KeyAction::MoveDown);
    assert_eq!(handle_normal_mode(Key::Enter), KeyAction::ToggleDetail);
    assert_eq!(handle_normal_mode(Key::Char('t')), KeyAction::CycleTheme);
    assert_eq!(handle_normal_mode(Key::Char('x')), KeyAction::Nothing);
    assert_eq!(handle_normal_mode(Key::Other), KeyAction::Nothing);
}

#[test]
fn detail_mode_keys() {
    assert_eq!(handle_detail_mode(Key::Char('q')), KeyAction::Quit);
    assert_eq!(handle_detail_mode(Key::Esc), KeyAction::ToggleDetail);
    assert_eq!(handle_detail_mode(Key::Enter), KeyAction::ToggleDetail);
    assert_eq!(handle_detail_mode(Key::Up), KeyAction::ScrollUp);
    assert_eq!(handle_detail_mode(Key::Char('j')), KeyAction::ScrollDown);
    assert_eq!(handle_detail_mode(Key::Char('t')), KeyAction::CycleTheme);
    assert_eq!(handle_detail_mode(Key::Char('h')), KeyAction::Nothing);
}

#[test]
fn help_key_toggles_in_every_view() {
    for help in [false, true] {
        for detail in [false, true] {
            assert_eq!(handle_key(help, detail, Key::Char('h'), true), (true, KeyAction::ToggleHelp));
        }
    }
}

#[test]
fn help_popup_swallows_keys() {
    assert_eq!(handle_key(true, false, Key::Esc, true), (true, KeyAction::CloseHelp));
    assert_eq!(handle_key(true, true, Key::Char('q'), true), (true, KeyAction::Nothing));
    assert_eq!(handle_key(true, false, Key::Enter, true), (true, KeyAction::Nothing));
}

#[test]
fn keys_dispatch_by_view() {
    assert_eq!(handle_key(false, false, Key::Esc, true), (true, KeyAction::Quit));
    assert_eq!(handle_key(false, true, Key::Esc, true), (true, KeyAction::ToggleDetail));
    assert_eq!(handle_key(false, true, Key::Down, true), (true, KeyAction::ScrollDown));
    assert_eq!(handle_key(false, false, Key::Char('z'), true), (true, KeyAction::Nothing));
}

#[test]
fn released_keys_are_ignored() {
    assert_eq!(handle_key(false, false, Key::Char('q'), false), (false, KeyAction::Nothing));
    assert_eq!(handle_key(true, false, Key::Char('h'), false), (false, KeyAction::Nothing));
}

fn area(x: u16, y: u16, width: u16, height: u16) -> Area {
    Area { x, y, width, height }
}

#[test]
fn centered_rect_centers() {
    assert_eq!(centered_rect(area(0, 0, 100, 40), 50, 18), area(25, 11, 50, 18));
    assert_eq!(centered_rect(area(10, 5, 51, 19), 50, 18), area(10, 5, 50, 18));
    assert_eq!(centered_rect(area(3, 4, 10, 10), 20, 20), area(3, 4, 20, 20));
}

#[test]
fn centered_rect_is_clipped_at_the_edge() {
    assert_eq!(centered_rect(area(65_530, 65_530, 2, 2), 10, 10), area(65_530, 65_530, 5, 5));
}

#[test]
fn help_popup_sizes() {
    assert_eq!(help_popup_area(area(0, 0, 120, 50)), area(35, 16, 50, 18));
    assert_eq!(help_popup_area(area(0, 0, 30, 10)), area(2, 2, 26, 6));
    assert_eq!(help_popup_area(area(5, 5, 3, 2)), area(6, 6, 0, 0));
}

#[test]
fn detail_scroll_limit() {
    assert_eq!(detail_max_scroll(30, 12), 20);
    assert_eq!(detail_max_scroll(5, 12), 0);
    assert_eq!(detail_max_scroll(5, 1), 5);
    assert_eq!(detail_max_scroll(65_536 + 7, 4), 5);
}

#[test]
fn process_state_colors() {
    assert_eq!(process_state_tone('R'), Tone::Good);
    assert_eq!(process_state_tone('S'), Tone::Muted);
    assert_eq!(process_state_tone('I'), Tone::Muted);
    assert_eq!(process_state_tone('D'), Tone::Warning);
    assert_eq!(process_state_tone('Z'), Tone::Error);
    assert_eq!(process_state_tone('T'), Tone::Error);
    assert_eq!(process_state_tone('?'), Tone::Fg);
}

#[test]
fn counter_colors() {
    assert_eq!(counter_tone("rdma_read_wr_err", 3), Tone::Error);
    assert_eq!(counter_tone("rx_drops", 1), Tone::Error);
    assert_eq!(counter_tone("retrans_pkts", 2), Tone::Warning);
    assert_eq!(counter_tone("unresponsive_remote_events", 1), Tone::Warning);
    assert_eq!(counter_tone("send_bytes", 10), Tone::Good);
    assert_eq!(counter_tone("rdma_read_wr_err", 0), Tone::Muted);
    assert_eq!(counter_tone("retrans_error", 1), Tone::Error);
}

#[test]
fn detail_counter_membership() {
    assert!(is_detail_counter("send_bytes"));
    assert!(is_detail_counter("impaired_remote_conn_events"));
    assert!(!is_detail_counter("send_byte"));
    assert!(!is_detail_counter("rx_vport_rdma_unicast_bytes"));
    assert!(!is_detail_counter(""));
}

#[test]
fn refresh_after_one_interval() {
    assert!(refresh_due(1000, 1000));
    assert!(refresh_due(1500, 1000));
    assert!(!refresh_due(999, 1000));
}

#[test]
fn help_popup_near_the_edge() {
    // the area itself runs past 65535, the popup's corner does not
    assert_eq!(help_popup_area(area(65_000, 0, 1000, 30)), area(65_475, 6, 50, 18));
}

fn view(selected_row: usize, row_count: usize) -> ViewState {
    ViewState {
        selected_row,
        row_count,
        show_detail: false,
        show_help: false,
        should_quit: false,
        detail_scroll: 0,
        detail_max_scroll: 0,
        theme: 0,
        theme_count: 2,
    }
}

#[test]
fn selection_moves_within_the_table() {
    let mut v = view(0, 3);
    apply_action(&mut v, KeyAction::MoveUp);
    assert_eq!(v.selected_row, 0);
    apply_action(&mut v, KeyAction::MoveDown);
    apply_action(&mut v, KeyAction::MoveDown);
    apply_action(&mut v, KeyAction::MoveDown);
    assert_eq!(v.selected_row, 2);
    apply_action(&mut v, KeyAction::MoveUp);
    assert_eq!(v.selected_row, 1);
}

#[test]
fn detail_scroll_passes_to_next_and_previous_row() {
    let mut v = view(0, 2);
    apply_action(&mut v, KeyAction::ToggleDetail);
    assert!(v.show_detail);
    v.detail_max_scroll = 1;
    apply_action(&mut v, KeyAction::ScrollDown);
    assert_eq!((v.selected_row, v.detail_scroll), (0, 1));
    apply_action(&mut v, KeyAction::ScrollDown);
    assert_eq!((v.selected_row, v.detail_scroll), (1, 0));
    apply_action(&mut v, KeyAction::ScrollDown);
    assert_eq!((v.selected_row, v.detail_scroll), (1, 1));
    apply_action(&mut v, KeyAction::ScrollDown);
    assert_eq!((v.selected_row, v.detail_scroll), (1, 1));
    apply_action(&mut v, KeyAction::ScrollUp);
    assert_eq!((v.selected_row, v.detail_scroll), (1, 0));
    apply_action(&mut v, KeyAction::ScrollUp);
    assert_eq!((v.selected_row, v.detail_scroll), (0, 0));
}

#[test]
fn toggles_themes_and_quit() {
    let mut v = view(0, 0);
    apply_action(&mut v, KeyAction::CycleTheme);
    assert_eq!(v.theme, 1);
    apply_action(&mut v, KeyAction::CycleTheme);
    assert_eq!(v.theme, 0);
    apply_action(&mut v, KeyAction::ToggleHelp);
    assert!(v.show_help);
    apply_action(&mut v, KeyAction::ToggleHelp);
    assert!(!v.show_help);
    apply_action(&mut v, KeyAction::ToggleHelp);
    apply_action(&mut v, KeyAction::CloseHelp);
    assert!(!v.show_help);
    let before = v;
    apply_action(&mut v, KeyAction::Nothing);
    assert_eq!(v, before);
    apply_action(&mut v, KeyAction::Quit);
    assert!(v.should_quit);
}

#[test]
fn refilling_the_table_keeps_selection_on_a_row() {
    let mut v = view(4, 5);
    set_row_count(&mut v, 2);
    assert_eq!((v.selected_row, v.row_count), (1, 2));
    set_row_count(&mut v, 0);
    assert_eq!((v.selected_row, v.row_count), (0, 0));
    let mut w = view(1, 5);
    set_row_count(&mut w, 3);
    assert_eq!(w.selected_row, 1);
}
