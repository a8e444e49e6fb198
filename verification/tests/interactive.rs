use texttv::interactive::{
    drain_fetch, start_fetch, FetchOutcome, center_padded, check_terminal_size, draw, handle_key, input_row, scan_links, tick, visible_chars_at,
    Action, FetchState, Key, State, SPINNER,
};
use texttv::mosaic::PatternCache;
use texttv::parse::{Cell, ColoredPage, Line, TtColor};

/// A one-cell line holding the given text.
fn line(text: &str) -> Line {
    Line {
        cells: vec![Cell {
            text: text.to_string(),
            fg: TtColor::White,
            bg: TtColor::Black,
            mosaic_url: None,
        }],
        double_height: false,
    }
}

fn page_with_links() -> ColoredPage {
    ColoredPage {
        page_no: 100,
        lines: vec![line(" 300  400 ")],
        plain: String::new(),
    }
}

fn drawn(s: &State) -> String {
    let cache = PatternCache::new();
    let mut out = String::new();
    draw(s, &cache, &mut out);
    out
}

#[test]
fn scan_finds_single_link() {
    let lines = vec![line(" 300 ")];
    let links = scan_links(&lines);
    assert_eq!(links.len(), 1);
    assert_eq!(links[0].target, 300);
    assert_eq!(links[0].row, 0);
    assert_eq!(links[0].col_start, 0);
    assert_eq!(links[0].col_len, 5);
    assert!(links[0].followable);
}

#[test]
fn scan_ignores_decimal_numbers() {
    let lines = vec![line("100.000")];
    let links = scan_links(&lines);
    assert!(links.is_empty());
}

#[test]
fn scan_ignores_four_digit_runs() {
    let lines = vec![line(" 1234 ")];
    let links = scan_links(&lines);
    assert!(links.is_empty());
}

#[test]
fn scan_marks_low_pages_unfollowable() {
    let lines = vec![line(" 099 ")];
    let links = scan_links(&lines);
    assert_eq!(links.len(), 1);
    assert_eq!(links[0].target, 99);
    assert!(!links[0].followable);
}

#[test]
fn scan_finds_multiple_links_per_row() {
    let lines = vec![line(" 300  400 ")];
    let links = scan_links(&lines);
    assert_eq!(links.len(), 2);
    assert_eq!(links[0].target, 300);
    assert_eq!(links[1].target, 400);
    assert_eq!(links[0].col_start, 0);
    assert_eq!(links[1].col_start, 5);
}

#[test]
fn scan_finds_link_at_line_start() {
    let lines = vec![line("300 foo")];
    let links = scan_links(&lines);
    assert_eq!(links.len(), 1);
    assert_eq!(links[0].col_start, 0);
    assert_eq!(links[0].col_len, 4);
}

#[test]
fn scan_finds_link_at_line_end() {
    let lines = vec![line("foo 300")];
    let links = scan_links(&lines);
    assert_eq!(links.len(), 1);
    assert_eq!(links[0].col_start, 3);
    assert_eq!(links[0].col_len, 4);
}

#[test]
fn scan_finds_link_with_f_suffix() {
    let lines = vec![line(" 328f ")];
    let links = scan_links(&lines);
    assert_eq!(links.len(), 1);
    assert_eq!(links[0].target, 328);
    assert_eq!(links[0].col_start, 0);
    assert_eq!(links[0].col_len, 6);
    assert!(links[0].followable);
}

#[test]
fn scan_finds_link_with_f_at_line_end() {
    let lines = vec![line(" 328f")];
    let links = scan_links(&lines);
    assert_eq!(links.len(), 1);
    assert_eq!(links[0].target, 328);
    assert_eq!(links[0].col_len, 5);
}

#[test]
fn scan_finds_link_with_trailing_dash() {
    let lines = vec![line(" 376- ")];
    let links = scan_links(&lines);
    assert_eq!(links.len(), 1);
    assert_eq!(links[0].target, 376);
    assert_eq!(links[0].col_start, 0);
    assert_eq!(links[0].col_len, 5);
}

#[test]
fn scan_finds_both_pages_in_range_link() {
    let lines = vec![line(" 343-344 ")];
    let links = scan_links(&lines);
    assert_eq!(links.len(), 2);
    assert_eq!(links[0].target, 343);
    assert_eq!(links[1].target, 344);
}

#[test]
fn scan_finds_range_link_after_label() {
    let lines = vec![line("Herrallsv 343-344")];
    let links = scan_links(&lines);
    assert_eq!(links.len(), 2);
    assert_eq!(links[0].target, 343);
    assert_eq!(links[1].target, 344);
}

#[test]
fn scan_finds_dash_link_after_label() {
    let lines = vec![line("Målservice 376-")];
    let links = scan_links(&lines);
    assert_eq!(links.len(), 1);
    assert_eq!(links[0].target, 376);
}

#[test]
fn scan_still_rejects_decimal_numbers() {
    let lines = vec![line(" 100.000 ")];
    let links = scan_links(&lines);
    assert!(links.is_empty());
}

#[test]
fn scan_links_columns_are_char_positions_not_byte_positions() {
    let lines = vec![line("Höj 300 hi")];
    let links = scan_links(&lines);
    assert_eq!(links.len(), 1);
    assert_eq!(links[0].target, 300);
    assert_eq!(links[0].col_start, 3);
    assert_eq!(links[0].col_len, 5);
}

#[test]
fn scan_treats_mosaic_cell_as_space() {
    let lines = vec![Line {
        cells: vec![
            Cell {
                text: " 300 ".to_string(),
                fg: TtColor::White,
                bg: TtColor::Black,
                mosaic_url: None,
            },
            Cell {
                text: " ".to_string(),
                fg: TtColor::White,
                bg: TtColor::Black,
                mosaic_url: Some("https://example.com/m.gif".to_string()),
            },
            Cell {
                text: " 400 ".to_string(),
                fg: TtColor::White,
                bg: TtColor::Black,
                mosaic_url: None,
            },
        ],
        double_height: false,
    }];
    let links = scan_links(&lines);
    assert_eq!(links.len(), 2);
    assert_eq!(links[0].target, 300);
    assert_eq!(links[1].target, 400);
}

#[test]
fn scan_numbers_rows_from_zero() {
    let lines = vec![line("nothing"), line("see 200"), line("301 and 302")];
    let links = scan_links(&lines);
    assert_eq!(links.len(), 3);
    assert_eq!((links[0].row, links[0].col_start, links[0].target), (1, 3, 200));
    assert_eq!((links[1].row, links[1].col_start, links[1].col_len), (2, 0, 4));
    assert_eq!((links[2].row, links[2].col_start, links[2].target), (2, 7, 302));
}

#[test]
fn typing_three_digits_emits_start_fetch() {
    let mut s = State::initial(100);
    s.install_page(page_with_links());

    assert_eq!(handle_key(&mut s, Key::Char('3')), Action::NoOp);
    assert_eq!(s.input_buf, "3");

    assert_eq!(handle_key(&mut s, Key::Char('0')), Action::NoOp);
    assert_eq!(s.input_buf, "30");

    assert_eq!(handle_key(&mut s, Key::Char('5')), Action::StartFetch(305));
    assert_eq!(s.input_buf, "");
}

#[test]
fn typing_out_of_range_page_sets_status_no_fetch() {
    let mut s = State::initial(100);
    s.install_page(page_with_links());
    handle_key(&mut s, Key::Char('0'));
    handle_key(&mut s, Key::Char('9'));
    let action = handle_key(&mut s, Key::Char('9'));
    assert_eq!(action, Action::NoOp);
    assert!(s.status.as_deref().unwrap_or("").contains("100..=999"));
    assert_eq!(s.input_buf, "");
}

#[test]
fn out_of_range_status_shows_three_digits() {
    let mut s = State::initial(100);
    handle_key(&mut s, Key::Char('0'));
    handle_key(&mut s, Key::Char('0'));
    handle_key(&mut s, Key::Char('7'));
    assert_eq!(
        s.status.as_deref(),
        Some("Error: page must be in 100..=999 (got 007)")
    );
}

#[test]
fn backspace_pops_input_buf() {
    let mut s = State::initial(100);
    s.install_page(page_with_links());
    handle_key(&mut s, Key::Char('3'));
    handle_key(&mut s, Key::Char('0'));
    assert_eq!(s.input_buf, "30");
    handle_key(&mut s, Key::Backspace);
    assert_eq!(s.input_buf, "3");
    handle_key(&mut s, Key::Backspace);
    assert_eq!(s.input_buf, "");
    let action = handle_key(&mut s, Key::Backspace);
    assert_eq!(action, Action::NoOp);
    assert_eq!(s.input_buf, "");
}

#[test]
fn down_arrow_moves_selection_within_bounds() {
    let mut s = State::initial(100);
    s.install_page(page_with_links());
    assert_eq!(s.selected, Some(0));
    handle_key(&mut s, Key::Down);
    assert_eq!(s.selected, Some(1));
    handle_key(&mut s, Key::Down);
    assert_eq!(s.selected, Some(1));
}

#[test]
fn up_arrow_moves_selection_within_bounds() {
    let mut s = State::initial(100);
    s.install_page(page_with_links());
    handle_key(&mut s, Key::Down);
    assert_eq!(s.selected, Some(1));
    handle_key(&mut s, Key::Up);
    assert_eq!(s.selected, Some(0));
    handle_key(&mut s, Key::Up);
    assert_eq!(s.selected, Some(0));
}

#[test]
fn enter_on_followable_link_emits_start_fetch() {
    let mut s = State::initial(100);
    s.install_page(page_with_links());
    let action = handle_key(&mut s, Key::Enter);
    assert_eq!(action, Action::StartFetch(300));
}

#[test]
fn space_follows_the_selected_link_too() {
    let mut s = State::initial(100);
    s.install_page(page_with_links());
    handle_key(&mut s, Key::Down);
    assert_eq!(handle_key(&mut s, Key::Char(' ')), Action::StartFetch(400));
}

#[test]
fn enter_on_unfollowable_link_is_noop_with_status() {
    let mut s = State::initial(100);
    s.install_page(ColoredPage {
        page_no: 100,
        lines: vec![line(" 099 ")],
        plain: String::new(),
    });
    let action = handle_key(&mut s, Key::Enter);
    assert_eq!(action, Action::NoOp);
    assert!(s.status.is_some());
    assert_eq!(s.status.as_deref(), Some("Error: page 99 not in 100..=999"));
}

#[test]
fn esc_emits_quit() {
    let mut s = State::initial(100);
    assert_eq!(handle_key(&mut s, Key::Esc), Action::Quit);
}

#[test]
fn q_quits_even_while_fetching() {
    let mut s = State::initial(100);
    assert_eq!(handle_key(&mut s, Key::Char('q')), Action::Quit);
    s.fetch = FetchState::Fetching { target_page: 200, frame: 3 };
    assert_eq!(handle_key(&mut s, Key::Char('q')), Action::Quit);
}

#[test]
fn digit_during_fetch_is_ignored() {
    let mut s = State::initial(100);
    s.fetch = FetchState::Fetching {
        target_page: 200,
        frame: 0,
    };
    let action = handle_key(&mut s, Key::Char('3'));
    assert_eq!(action, Action::NoOp);
    assert_eq!(s.input_buf, "");
}

#[test]
fn enter_during_fetch_is_ignored() {
    let mut s = State::initial(100);
    s.install_page(page_with_links());
    s.fetch = FetchState::Fetching {
        target_page: 200,
        frame: 0,
    };
    let action = handle_key(&mut s, Key::Enter);
    assert_eq!(action, Action::NoOp);
}

#[test]
fn left_arrow_starts_fetch_for_previous_page() {
    let mut s = State::initial(305);
    let action = handle_key(&mut s, Key::Left);
    assert_eq!(action, Action::StartFetch(304));
}

#[test]
fn left_arrow_at_first_page_is_noop_with_status() {
    let mut s = State::initial(100);
    let action = handle_key(&mut s, Key::Left);
    assert_eq!(action, Action::NoOp);
    assert!(s.status.is_some());
}

#[test]
fn right_arrow_starts_fetch_for_next_page() {
    let mut s = State::initial(305);
    let action = handle_key(&mut s, Key::Right);
    assert_eq!(action, Action::StartFetch(306));
}

#[test]
fn right_arrow_at_last_page_is_noop_with_status() {
    let mut s = State::initial(999);
    let action = handle_key(&mut s, Key::Right);
    assert_eq!(action, Action::NoOp);
    assert!(s.status.is_some());
}

#[test]
fn install_placeholder_sets_current_page_and_renders_message() {
    let mut s = State::initial(100);
    s.install_placeholder(420);
    assert_eq!(s.current_page, 420);
    assert!(s.links.is_empty());
    assert_eq!(s.selected, None);
    let combined: String = s
        .lines
        .iter()
        .flat_map(|l| l.cells.iter().map(|c| c.text.clone()))
        .collect();
    assert!(
        combined.contains("Sidan finns inte"),
        "placeholder text missing: {combined}"
    );
}

#[test]
fn placeholder_is_24_rows_of_40_columns() {
    let mut s = State::initial(100);
    s.install_placeholder(420);
    assert_eq!(s.lines.len(), 24);
    for l in &s.lines {
        assert_eq!(l.cells.len(), 1);
        assert_eq!(l.cells[0].text.chars().count(), 40);
    }
    assert_eq!(s.lines[11].cells[0].text.trim(), "Sidan finns inte");
    assert!(s.lines[11].cells[0].text.starts_with("            Sidan"));
}

#[test]
fn center_padded_centers_text_within_even_width() {
    assert_eq!(center_padded("hi", 6), "  hi  ");
}

#[test]
fn center_padded_uses_extra_on_right_when_odd() {
    assert_eq!(center_padded("x", 4), " x  ");
}

#[test]
fn center_padded_truncates_when_too_long() {
    assert_eq!(center_padded("abcdef", 3), "abc");
}

#[test]
fn install_placeholder_clears_input_and_fetch_state() {
    let mut s = State::initial(100);
    s.input_buf = "1".to_string();
    s.fetch = FetchState::Fetching {
        target_page: 420,
        frame: 5,
    };
    s.install_placeholder(420);
    assert_eq!(s.input_buf, "");
    assert!(matches!(s.fetch, FetchState::Idle));
}

#[test]
fn tick_advances_frame_while_fetching() {
    let mut s = State::initial(100);
    s.fetch = FetchState::Fetching {
        target_page: 200,
        frame: 0,
    };
    tick(&mut s);
    if let FetchState::Fetching { frame, .. } = s.fetch {
        assert_eq!(frame, 1);
    } else {
        panic!("expected Fetching");
    }
}

#[test]
fn tick_wraps_frame_at_spinner_len() {
    let mut s = State::initial(100);
    s.fetch = FetchState::Fetching {
        target_page: 200,
        frame: SPINNER.len() - 1,
    };
    tick(&mut s);
    if let FetchState::Fetching { frame, .. } = s.fetch {
        assert_eq!(frame, 0);
    } else {
        panic!("expected Fetching");
    }
}

#[test]
fn tick_is_noop_while_idle() {
    let mut s = State::initial(100);
    tick(&mut s);
    assert!(matches!(s.fetch, FetchState::Idle));
}

#[test]
fn draw_emits_idle_input_row_with_current_page() {
    let mut s = State::initial(100);
    s.install_page(page_with_links());
    let out = drawn(&s);
    assert!(out.contains("  100"), "idle input row missing: {out:?}");
}

#[test]
fn draw_emits_spinner_glyph_while_fetching() {
    let mut s = State::initial(100);
    s.install_page(page_with_links());
    s.fetch = FetchState::Fetching {
        target_page: 200,
        frame: 0,
    };
    let out = drawn(&s);
    assert!(out.contains(SPINNER[0]), "spinner glyph missing: {out:?}");
}

#[test]
fn draw_shows_input_buf_padded_with_underscores() {
    let mut s = State::initial(100);
    s.install_page(page_with_links());
    s.input_buf = "3".to_string();
    let out = drawn(&s);
    assert!(out.contains("3__"), "padded input missing: {out:?}");
}

#[test]
fn draw_emits_reverse_video_escape_for_selected_link() {
    let mut s = State::initial(100);
    s.install_page(page_with_links());
    assert_eq!(s.selected, Some(0));
    let out = drawn(&s);
    assert!(out.contains("\x1b[7m"), "no reverse-on escape: {out:?}");
    assert!(out.contains("\x1b[27m"), "no reverse-off escape: {out:?}");
}

#[test]
fn draw_skips_link_highlight_when_no_selection() {
    let mut s = State::initial(100);
    s.install_page(ColoredPage {
        page_no: 100,
        lines: vec![line("hello world")],
        plain: String::new(),
    });
    assert_eq!(s.selected, None);
    let out = drawn(&s);
    assert!(!out.contains("\x1b[7m"), "spurious reverse-on: {out:?}");
}

#[test]
fn draw_places_highlight_and_input_row_exactly() {
    let mut s = State::initial(100);
    s.install_page(page_with_links());
    let out = drawn(&s);
    // The selected link " 300 " sits at row 0, column 0.
    assert!(out.contains("\x1b[1;1H\x1b[7m 300 \x1b[27m"), "{out:?}");
    // Input row: white on black.
    assert!(out.contains(
        "\x1b[1;1H\x1b[48;2;0;0;0m\x1b[38;2;255;255;255m   100\x1b[39m\x1b[49m"
    ));
    // Hint bar on row 26, then the cursor parked at column 4 of row 1.
    assert!(out.contains("\x1b[26;1H"));
    assert!(out.ends_with("\x1b[1;4H"));
    // The canvas paints all 25 page rows.
    assert!(out.starts_with("\x1b[1;1H\x1b[48;2;0;0;0m"));
    assert!(out.contains("\x1b[25;1H"));
}

#[test]
fn visible_chars_cover_requested_columns() {
    let l = line("Höj 300 hi");
    assert_eq!(visible_chars_at(&l, 3, 5), " 300 ");
    assert_eq!(visible_chars_at(&l, 8, 10), "hi");
    assert_eq!(visible_chars_at(&l, 20, 3), "");
}

#[test]
fn terminal_size_check() {
    assert!(check_terminal_size(41, 26).is_ok());
    assert_eq!(
        check_terminal_size(40, 30),
        Err("terminal too small (40x30); need at least 41x26".to_string())
    );
    assert!(check_terminal_size(80, 25).is_err());
}

#[test]
fn drain_fetch_failure_installs_placeholder_for_target() {
    let mut s = State::initial(100);
    start_fetch(&mut s, 404);
    drain_fetch(&mut s, FetchOutcome::Pending);
    assert!(matches!(s.fetch, FetchState::Fetching { target_page: 404, frame: 0 }));
    drain_fetch(&mut s, FetchOutcome::Failed);
    assert_eq!(s.current_page, 404);
    assert!(matches!(s.fetch, FetchState::Idle));
    start_fetch(&mut s, 300);
    drain_fetch(&mut s, FetchOutcome::Loaded(page_with_links()));
    assert_eq!(s.current_page, 100);
    assert_eq!(s.links.len(), 2);
    assert_eq!(s.selected, Some(0));
}

#[test]
fn non_digit_buffer_reads_as_zero_when_full() {
    let mut s = State::initial(100);
    s.input_buf = "a1".to_string();
    assert_eq!(handle_key(&mut s, Key::Char('2')), Action::NoOp);
    assert_eq!(s.input_buf, "");
    assert_eq!(
        s.status.as_deref(),
        Some("Error: page must be in 100..=999 (got 000)")
    );
}

#[test]
fn plus_sign_buffer_reads_as_its_number() {
    let mut s = State::initial(100);
    s.input_buf = "+1".to_string();
    assert_eq!(handle_key(&mut s, Key::Char('2')), Action::NoOp);
    assert_eq!(s.input_buf, "");
    assert_eq!(
        s.status.as_deref(),
        Some("Error: page must be in 100..=999 (got 012)")
    );
}

#[test]
fn out_of_range_selection_is_left_alone() {
    let mut s = State::initial(100);
    s.install_page(page_with_links());
    s.selected = Some(5);
    assert_eq!(handle_key(&mut s, Key::Enter), Action::NoOp);
    assert_eq!(s.selected, Some(5));
    handle_key(&mut s, Key::Down);
    assert_eq!(s.selected, Some(5));
    let out = drawn(&s);
    assert!(!out.contains("\x1b[7m"), "spurious reverse-on: {out:?}");
}

#[test]
fn input_row_pads_by_bytes() {
    let mut s = State::initial(100);
    s.input_buf = "\u{e9}".to_string();
    assert_eq!(input_row(&s), "   \u{e9}_");
    s.input_buf = "4".to_string();
    assert_eq!(input_row(&s), "   4__");
    s.input_buf = String::new();
    assert_eq!(input_row(&s), "   100");
}

#[test]
fn any_handled_key_clears_the_status() {
    let mut s = State::initial(100);
    s.install_page(page_with_links());
    handle_key(&mut s, Key::Left);
    assert_eq!(s.status.as_deref(), Some("Already at first page (100)"));
    handle_key(&mut s, Key::Down);
    assert_eq!(s.status, None);
    handle_key(&mut s, Key::Left);
    handle_key(&mut s, Key::Char('x'));
    assert_eq!(s.status, None);
    handle_key(&mut s, Key::Left);
    handle_key(&mut s, Key::Left);
    assert_eq!(s.status.as_deref(), Some("Already at first page (100)"));
}

#[test]
fn ignored_keys_keep_the_status_while_fetching() {
    let mut s = State::initial(100);
    start_fetch(&mut s, 200);
    s.status = Some("note".to_string());
    handle_key(&mut s, Key::Down);
    assert_eq!(s.status.as_deref(), Some("note"));
}
