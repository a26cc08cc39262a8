use kibi::editor::SearchState;
use kibi::ctrl_key;
use kibi::decode_byte;
use kibi::decode_escape;
use kibi::decode_escape_tilde;
use kibi::default_syntax_db;
use kibi::rust_syntax;
use kibi::update_syntax_row;
use kibi::AppendBuffer;
use kibi::EditorConfig;
use kibi::EditorHighlight;
use kibi::EditorKey;
use kibi::EditorRow;
use kibi::EscapeStep;
use kibi::KeyAction;
use kibi::PromptStep;
use kibi::QUIT_TIMES;

fn cv(s: &str) -> Vec<char> {
    s.chars().collect()
}

fn sv(v: &[char]) -> String {
    v.iter().collect()
}

fn row_of(s: &str) -> EditorRow {
    EditorRow::new_row(cv(s), 0)
}

fn editor_with_rows(rows: &[&str]) -> EditorConfig {
    let mut e = EditorConfig::new(80, 26);
    for (i, r) in rows.iter().enumerate() {
        e.editor_insert_row(i, cv(r));
    }
    e
}

fn rust_editor_with_rows(rows: &[&str]) -> EditorConfig {
    let mut e = editor_with_rows(rows);
    e.syntax = Some(rust_syntax());
    e.update_all_syntax();
    e
}

#[test]
fn ctrl_key_masks_low_bits() {
    assert_eq!(ctrl_key(b'q'), 17);
    assert_eq!(ctrl_key(b's'), 19);
    assert_eq!(ctrl_key(b'f'), 6);
}

#[test]
fn decode_byte_maps_controls() {
    assert_eq!(decode_byte(b'\r'), Some(EditorKey::EnterKey));
    assert_eq!(decode_byte(b'\n'), Some(EditorKey::EnterKey));
    assert_eq!(decode_byte(127), Some(EditorKey::Backspace));
    assert_eq!(decode_byte(8), Some(EditorKey::Backspace));
    assert_eq!(decode_byte(17), Some(EditorKey::CtrlQ));
    assert_eq!(decode_byte(19), Some(EditorKey::CtrlS));
    assert_eq!(decode_byte(6), Some(EditorKey::CtrlF));
    assert_eq!(decode_byte(12), Some(EditorKey::CtrlL));
    assert_eq!(decode_byte(0x1b), None);
    assert_eq!(decode_byte(b'x'), Some(EditorKey::Other(b'x')));
}

#[test]
fn decode_escape_arrows_and_letters() {
    assert_eq!(decode_escape(2, b'[', b'A'), EscapeStep::Key(EditorKey::ArrowUp));
    assert_eq!(decode_escape(2, b'[', b'B'), EscapeStep::Key(EditorKey::ArrowDown));
    assert_eq!(decode_escape(2, b'[', b'C'), EscapeStep::Key(EditorKey::ArrowRight));
    assert_eq!(decode_escape(2, b'[', b'D'), EscapeStep::Key(EditorKey::ArrowLeft));
    assert_eq!(decode_escape(2, b'[', b'H'), EscapeStep::Key(EditorKey::HomeKey));
    assert_eq!(decode_escape(2, b'O', b'F'), EscapeStep::Key(EditorKey::EndKey));
    assert_eq!(decode_escape(2, b'[', b'5'), EscapeStep::NeedThirdByte);
    assert_eq!(decode_escape(1, b'[', 0), EscapeStep::Key(EditorKey::Escape));
    assert_eq!(decode_escape(0, 0, 0), EscapeStep::Key(EditorKey::Escape));
    assert_eq!(decode_escape(2, b'X', b'A'), EscapeStep::Key(EditorKey::Escape));
}

#[test]
fn decode_escape_tilde_sequences() {
    assert_eq!(decode_escape_tilde(b'1', true, b'~'), EditorKey::HomeKey);
    assert_eq!(decode_escape_tilde(b'3', true, b'~'), EditorKey::Delete);
    assert_eq!(decode_escape_tilde(b'4', true, b'~'), EditorKey::EndKey);
    assert_eq!(decode_escape_tilde(b'5', true, b'~'), EditorKey::PageUp);
    assert_eq!(decode_escape_tilde(b'6', true, b'~'), EditorKey::PageDown);
    assert_eq!(decode_escape_tilde(b'7', true, b'~'), EditorKey::HomeKey);
    assert_eq!(decode_escape_tilde(b'8', true, b'~'), EditorKey::EndKey);
    assert_eq!(decode_escape_tilde(b'5', false, 0), EditorKey::Escape);
    assert_eq!(decode_escape_tilde(b'9', true, b'~'), EditorKey::Escape);
}

#[test]
fn single_tab_renders_to_tab_stop() {
    let row = row_of("\t");
    assert!(row.render.len() >= 1 && row.render.len() <= 8);
    assert_eq!(row.render.len() % 8, 0);
    assert_eq!(sv(&row.render), "        ");
}

#[test]
fn tab_after_text_pads_to_next_stop() {
    let row = row_of("ab\tc");
    assert_eq!(sv(&row.render), "ab      c");
    let row2 = row_of("abcdefgh\tx");
    assert_eq!(sv(&row2.render), "abcdefgh        x");
}

#[test]
fn column_mapping_round_trip() {
    let chars = cv("a\tbc");
    for cx in 0..=chars.len() {
        let rx = kibi::row::cx_to_rx(&chars, cx);
        assert_eq!(kibi::row::rx_to_cx(&chars, rx), cx);
    }
    assert_eq!(kibi::row::cx_to_rx(&chars, 1), 1);
    assert_eq!(kibi::row::cx_to_rx(&chars, 2), 8);
    assert_eq!(kibi::row::cx_to_rx(&chars, 3), 9);
    assert_eq!(kibi::row::rx_to_cx(&chars, 4), 1);
    assert_eq!(kibi::row::rx_to_cx(&chars, 100), 4);
}

#[test]
fn row_insert_and_delete_char() {
    let mut row = row_of("ac");
    row.insert_char(1, 'b');
    assert_eq!(sv(&row.chars), "abc");
    assert_eq!(row.size, 3);
    row.delete_char(0);
    assert_eq!(sv(&row.chars), "bc");
    row.delete_char(10);
    assert_eq!(sv(&row.chars), "bc");
    row.append_string(&cv("de"));
    assert_eq!(sv(&row.chars), "bcde");
    assert_eq!(sv(&row.render), "bcde");
}

#[test]
fn syntax_colors() {
    assert_eq!(EditorRow::editor_syntax_to_color(EditorHighlight::Number), 31);
    assert_eq!(EditorRow::editor_syntax_to_color(EditorHighlight::Match), 34);
    assert_eq!(EditorRow::editor_syntax_to_color(EditorHighlight::HlString), 35);
    assert_eq!(EditorRow::editor_syntax_to_color(EditorHighlight::HlComment), 36);
    assert_eq!(EditorRow::editor_syntax_to_color(EditorHighlight::HlMComment), 36);
    assert_eq!(EditorRow::editor_syntax_to_color(EditorHighlight::HlKeyword1), 33);
    assert_eq!(EditorRow::editor_syntax_to_color(EditorHighlight::HlKeyword2), 32);
    assert_eq!(EditorRow::editor_syntax_to_color(EditorHighlight::Normal), 37);
}

#[test]
fn highlighter_marks_keywords_numbers_comments() {
    let syn = rust_syntax();
    let (hl, open) = update_syntax_row(&cv("if x1 1"), &syn, false);
    assert!(!open);
    assert_eq!(hl.len(), 7);
    assert_eq!(hl[0], EditorHighlight::HlKeyword1);
    assert_eq!(hl[1], EditorHighlight::HlKeyword1);
    assert_eq!(hl[2], EditorHighlight::Normal);
    assert_eq!(hl[3], EditorHighlight::Normal);
    // a digit continuing an identifier is not a numeric literal
    assert_eq!(hl[4], EditorHighlight::Normal);
    assert_eq!(hl[6], EditorHighlight::Number);

    let (hl2, _) = update_syntax_row(&cv("let y = 42;"), &syn, false);
    assert_eq!(hl2[0], EditorHighlight::HlKeyword2);
    assert_eq!(hl2[8], EditorHighlight::Number);
    assert_eq!(hl2[9], EditorHighlight::Number);

    let (hl3, open3) = update_syntax_row(&cv("x // note"), &syn, false);
    assert!(!open3);
    assert_eq!(hl3[0], EditorHighlight::Normal);
    for i in 2..9 {
        assert_eq!(hl3[i], EditorHighlight::HlComment);
    }

    let (hl4, open4) = update_syntax_row(&cv("a /* b"), &syn, false);
    assert!(open4);
    assert_eq!(hl4[2], EditorHighlight::HlMComment);
    assert_eq!(hl4[5], EditorHighlight::HlMComment);

    let (hl5, open5) = update_syntax_row(&cv("b */ c"), &syn, true);
    assert!(!open5);
    assert_eq!(hl5[0], EditorHighlight::HlMComment);
    assert_eq!(hl5[3], EditorHighlight::HlMComment);
    assert_eq!(hl5[5], EditorHighlight::Normal);
}

#[test]
fn keyword_requires_separator_boundary() {
    let syn = rust_syntax();
    let (hl, _) = update_syntax_row(&cv("iffy"), &syn, false);
    for i in 0..4 {
        assert_eq!(hl[i], EditorHighlight::Normal);
    }
    let (hl2, _) = update_syntax_row(&cv("if("), &syn, false);
    assert_eq!(hl2[0], EditorHighlight::HlKeyword1);
    assert_eq!(hl2[1], EditorHighlight::HlKeyword1);
}

#[test]
fn highlight_propagates_until_flag_stabilizes() {
    let mut e = rust_editor_with_rows(&["/* a", "b */", "c"]);
    for i in 0..4 {
        assert_eq!(e.erow[0].hl.as_ref().unwrap()[i], EditorHighlight::HlMComment);
    }
    assert!(e.erow[0].hl_open_comment);
    for i in 0..4 {
        assert_eq!(e.erow[1].hl.as_ref().unwrap()[i], EditorHighlight::HlMComment);
    }
    assert!(!e.erow[1].hl_open_comment);
    assert_eq!(e.erow[2].hl.as_ref().unwrap()[0], EditorHighlight::Normal);
    assert!(!e.erow[2].hl_open_comment);

    // removing the closing delimiter on the middle row spreads the comment
    // down to the last row
    e.cy = 1;
    e.cx = 4;
    e.editor_del_char();
    e.editor_del_char();
    assert_eq!(sv(&e.erow[1].chars), "b ");
    assert!(e.erow[1].hl_open_comment);
    assert_eq!(e.erow[2].hl.as_ref().unwrap()[0], EditorHighlight::HlMComment);
    assert!(e.erow[2].hl_open_comment);
}

#[test]
fn search_wraps_forward_around_the_document() {
    let mut e = rust_editor_with_rows(&["foo", "bar", "foo"]);
    let mut st = SearchState { last_match: None, direction: 1 };
    let q = cv("foo");
    e.editor_find_step(&mut st, &q, EditorKey::Other(b'o'));
    assert_eq!(e.cy, 0);
    assert_eq!(st.last_match, Some(0));
    e.editor_find_step(&mut st, &q, EditorKey::ArrowRight);
    assert_eq!(e.cy, 2);
    assert_eq!(st.last_match, Some(2));
    e.editor_find_step(&mut st, &q, EditorKey::ArrowRight);
    assert_eq!(e.cy, 0);
    assert_eq!(st.last_match, Some(0));
}

#[test]
fn search_overlays_and_restores_highlight() {
    let mut e = rust_editor_with_rows(&["x foo y"]);
    let mut st = SearchState { last_match: None, direction: 1 };
    let q = cv("foo");
    e.editor_find_step(&mut st, &q, EditorKey::Other(b'o'));
    assert_eq!(e.cy, 0);
    assert_eq!(e.cx, 2);
    let hl = e.erow[0].hl.as_ref().unwrap();
    assert_eq!(hl[2], EditorHighlight::Match);
    assert_eq!(hl[3], EditorHighlight::Match);
    assert_eq!(hl[4], EditorHighlight::Match);
    assert_eq!(hl[0], EditorHighlight::Normal);
    assert!(e.saved_hl.is_some());
    assert_eq!(e.saved_hl_line, Some(0));
    e.editor_find_step(&mut st, &q, EditorKey::Escape);
    let hl2 = e.erow[0].hl.as_ref().unwrap();
    assert_eq!(hl2[2], EditorHighlight::Normal);
    assert!(e.saved_hl.is_none());
    assert_eq!(st.last_match, None);
}

#[test]
fn backward_search_steps_up() {
    let mut e = rust_editor_with_rows(&["foo", "bar", "foo"]);
    let mut st = SearchState { last_match: None, direction: 1 };
    let q = cv("foo");
    e.editor_find_step(&mut st, &q, EditorKey::Other(b'o'));
    assert_eq!(e.cy, 0);
    e.editor_find_step(&mut st, &q, EditorKey::ArrowLeft);
    assert_eq!(e.cy, 2);
}

#[test]
fn join_at_start_of_line_merges_rows() {
    let mut e = editor_with_rows(&["ab", "cd"]);
    e.cy = 1;
    e.cx = 0;
    e.editor_del_char();
    assert_eq!(e.number_of_rows, 1);
    assert_eq!(sv(&e.erow[0].chars), "abcd");
    assert_eq!(e.cx, 2);
    assert_eq!(e.cy, 0);
}

#[test]
fn delete_at_document_start_is_a_no_op() {
    let mut e = editor_with_rows(&["ab"]);
    let dirty = e.dirty;
    e.cy = 0;
    e.cx = 0;
    e.editor_del_char();
    assert_eq!(sv(&e.erow[0].chars), "ab");
    assert_eq!(e.dirty, dirty);
}

#[test]
fn quit_is_gated_on_dirty_documents() {
    let mut e = editor_with_rows(&[]);
    e.editor_insert_char('x');
    assert!(e.dirty > 0);
    assert_eq!(e.quit_times, QUIT_TIMES);
    assert_eq!(e.process_keypress(EditorKey::CtrlQ, 0), KeyAction::Continue);
    assert_eq!(e.quit_times, QUIT_TIMES - 1);
    assert_eq!(e.process_keypress(EditorKey::CtrlQ, 0), KeyAction::Continue);
    assert_eq!(e.process_keypress(EditorKey::CtrlQ, 0), KeyAction::Continue);
    assert_eq!(e.quit_times, 0);
    assert_eq!(e.process_keypress(EditorKey::CtrlQ, 0), KeyAction::Quit);
}

#[test]
fn any_other_key_rearms_the_quit_gate() {
    let mut e = editor_with_rows(&[]);
    e.editor_insert_char('x');
    assert_eq!(e.process_keypress(EditorKey::CtrlQ, 0), KeyAction::Continue);
    assert_eq!(e.quit_times, QUIT_TIMES - 1);
    assert_eq!(e.process_keypress(EditorKey::ArrowLeft, 0), KeyAction::Continue);
    assert_eq!(e.quit_times, QUIT_TIMES);
}

#[test]
fn quit_on_clean_document_is_immediate() {
    let mut e = editor_with_rows(&["x"]);
    e.dirty = 0;
    assert_eq!(e.process_keypress(EditorKey::CtrlQ, 0), KeyAction::Quit);
}

#[test]
fn load_then_save_round_trips() {
    let mut e = EditorConfig::new(80, 26);
    let text = cv("hello\nworld\n");
    e.editor_open_text(cv("notes.txt"), &text, default_syntax_db());
    assert_eq!(e.number_of_rows, 2);
    assert_eq!(sv(&e.erow[0].chars), "hello");
    assert_eq!(sv(&e.erow[1].chars), "world");
    assert_eq!(e.dirty, 0);
    let out = e.editor_row_to_string();
    assert_eq!(sv(&out), "hello\nworld\n");
}

#[test]
fn load_normalizes_missing_final_newline_and_crlf() {
    let mut e = EditorConfig::new(80, 26);
    e.editor_open_text(cv("a.txt"), &cv("one\r\ntwo"), default_syntax_db());
    assert_eq!(e.number_of_rows, 2);
    assert_eq!(sv(&e.erow[0].chars), "one");
    assert_eq!(sv(&e.erow[1].chars), "two");
    assert_eq!(sv(&e.editor_row_to_string()), "one\ntwo\n");
}

#[test]
fn rust_files_select_the_rust_profile() {
    let mut e = EditorConfig::new(80, 26);
    e.editor_open_text(cv("main.rs"), &cv("if x\n"), default_syntax_db());
    assert!(e.syntax.is_some());
    assert_eq!(sv(&e.syntax.as_ref().unwrap().filetype), "Rust");
    assert_eq!(e.erow[0].hl.as_ref().unwrap()[0], EditorHighlight::HlKeyword1);

    let mut e2 = EditorConfig::new(80, 26);
    e2.editor_open_text(cv("notes.txt"), &cv("if x\n"), default_syntax_db());
    assert!(e2.syntax.is_none());
    assert!(e2.erow[0].hl.is_none());
}

#[test]
fn insert_newline_splits_and_inserts() {
    let mut e = editor_with_rows(&["hello"]);
    e.cy = 0;
    e.cx = 2;
    e.editor_insert_new_line();
    assert_eq!(e.number_of_rows, 2);
    assert_eq!(sv(&e.erow[0].chars), "he");
    assert_eq!(sv(&e.erow[1].chars), "llo");
    assert_eq!(e.cy, 1);
    assert_eq!(e.cx, 0);

    e.cx = 0;
    e.editor_insert_new_line();
    assert_eq!(e.number_of_rows, 3);
    assert_eq!(sv(&e.erow[1].chars), "");
    assert_eq!(sv(&e.erow[2].chars), "llo");
}

#[test]
fn insert_char_appends_row_on_virtual_line() {
    let mut e = editor_with_rows(&[]);
    e.editor_insert_char('a');
    assert_eq!(e.number_of_rows, 1);
    assert_eq!(sv(&e.erow[0].chars), "a");
    assert_eq!(e.cx, 1);
    assert!(e.dirty > 0);
}

#[test]
fn move_cursor_steps_across_line_ends_and_snaps() {
    let mut e = editor_with_rows(&["abcd", "x"]);
    e.cy = 0;
    e.cx = 4;
    e.editor_move_cursor(EditorKey::ArrowDown);
    assert_eq!(e.cy, 1);
    assert_eq!(e.cx, 1);
    e.editor_move_cursor(EditorKey::ArrowLeft);
    assert_eq!(e.cx, 0);
    e.editor_move_cursor(EditorKey::ArrowLeft);
    assert_eq!(e.cy, 0);
    assert_eq!(e.cx, 4);
    e.editor_move_cursor(EditorKey::ArrowRight);
    assert_eq!(e.cx, 4);
}

#[test]
fn scroll_clamps_offsets_to_cursor() {
    let mut e = editor_with_rows(&["0", "1", "2", "3", "4", "5"]);
    // EditorConfig::new(80, 26) leaves 24 screen rows; shrink the window
    e.screen_rows = 2;
    e.screen_cols = 4;
    e.cy = 5;
    e.editor_scroll();
    assert_eq!(e.row_off, 4);
    e.cy = 0;
    e.editor_scroll();
    assert_eq!(e.row_off, 0);
}

#[test]
fn refresh_screen_draws_rows_status_and_message() {
    let mut e = editor_with_rows(&["ab"]);
    e.screen_rows = 2;
    e.screen_cols = 20;
    e.editor_set_status_msg(cv("hi"), 1000);
    let frame: String = e.refresh_screen(1500).iter().collect();
    assert!(frame.starts_with("\x1b[?25l\x1b[H"));
    assert!(frame.contains("ab\x1b[K"));
    assert!(frame.contains("~\x1b[K"));
    assert!(frame.contains("No File"));
    assert!(frame.contains("1 lines"));
    assert!(frame.contains("hi"));
    assert!(frame.ends_with("\x1b[?25h"));
    // message ages out after five seconds
    let frame2: String = e.refresh_screen(7000).iter().collect();
    assert!(!frame2.contains("hi"));
}

#[test]
fn welcome_banner_appears_only_on_empty_documents() {
    let mut e = editor_with_rows(&[]);
    e.screen_rows = 6;
    e.screen_cols = 60;
    let frame: String = e.refresh_screen(0).iter().collect();
    assert!(frame.contains("Kibi Editor -- version 0.0.1"));
    let mut e2 = editor_with_rows(&["x"]);
    e2.screen_rows = 6;
    e2.screen_cols = 60;
    let frame2: String = e2.refresh_screen(0).iter().collect();
    assert!(!frame2.contains("Kibi Editor"));
}

#[test]
fn colored_rows_coalesce_runs_into_one_escape() {
    let mut e = rust_editor_with_rows(&["let mut"]);
    e.screen_rows = 2;
    e.screen_cols = 40;
    let frame: String = e.refresh_screen(0).iter().collect();
    // one green escape for "let", normal for the space, green again for "mut"
    assert!(frame.contains("\x1b[32mlet\x1b[39m \x1b[32mmut\x1b[39m"));
}

#[test]
fn control_characters_render_as_inverted_glyphs() {
    let mut e = editor_with_rows(&["a\u{1}b"]);
    e.screen_rows = 2;
    e.screen_cols = 40;
    e.syntax = Some(rust_syntax());
    e.update_all_syntax();
    let frame: String = e.refresh_screen(0).iter().collect();
    assert!(frame.contains("\x1b[7mA\x1b[m"));
}

#[test]
fn frame_serialization_is_exact() {
    let mut e = editor_with_rows(&["ab"]);
    e.dirty = 0;
    e.screen_rows = 2;
    e.screen_cols = 10;
    let frame: String = e.refresh_screen(0).iter().collect();
    assert_eq!(
        frame,
        "\x1b[?25l\x1b[Hab\x1b[K\r\n~\x1b[K\x1b[7mNo File - \x1b[m\r\n\x1b[K\x1b[1;1H\x1b[?25h"
    );
}

#[test]
fn prompt_collects_erases_commits_and_cancels() {
    let mut buf: Vec<char> = Vec::new();
    assert_eq!(kibi::editor_prompt_step(&mut buf, EditorKey::Other(b'h')), PromptStep::Pending);
    assert_eq!(kibi::editor_prompt_step(&mut buf, EditorKey::Other(b'i')), PromptStep::Pending);
    assert_eq!(sv(&buf), "hi");
    assert_eq!(kibi::editor_prompt_step(&mut buf, EditorKey::Backspace), PromptStep::Pending);
    assert_eq!(sv(&buf), "h");
    assert_eq!(kibi::editor_prompt_step(&mut buf, EditorKey::EnterKey), PromptStep::Committed);
    assert_eq!(kibi::editor_prompt_step(&mut buf, EditorKey::Escape), PromptStep::Cancelled);
    let mut empty: Vec<char> = Vec::new();
    assert_eq!(kibi::editor_prompt_step(&mut empty, EditorKey::EnterKey), PromptStep::Pending);
    assert_eq!(kibi::editor_prompt_step(&mut empty, EditorKey::Backspace), PromptStep::Pending);
    assert_eq!(empty.len(), 0);
}

#[test]
fn saved_report_resets_dirty_and_sets_message() {
    let mut e = editor_with_rows(&[]);
    e.editor_insert_char('x');
    assert!(e.dirty > 0);
    e.editor_saved(12, 77);
    assert_eq!(e.dirty, 0);
    assert_eq!(sv(&e.status_msg), "12 bytes written to disk");
    assert_eq!(e.status_msg_time, 77);
}

#[test]
fn number_formatting_is_decimal() {
    assert_eq!(sv(&kibi::numfmt::usize_to_chars(0)), "0");
    assert_eq!(sv(&kibi::numfmt::usize_to_chars(7)), "7");
    assert_eq!(sv(&kibi::numfmt::usize_to_chars(1234)), "1234");
    assert_eq!(sv(&kibi::numfmt::usize_to_chars(1000000)), "1000000");
}

#[test]
fn append_buffer_collects_fragments() {
    let mut ab = AppendBuffer::new();
    ab.append("ab");
    ab.append_char('c');
    ab.append_number(45);
    assert_eq!(sv(&ab.buffer), "abc45");
}

#[test]
fn highlight_match_overlays_within_bounds_only() {
    let mut row = row_of("abcdef");
    row.hl = Some(vec![EditorHighlight::Normal; 6]);
    row.highlight_match(2, &cv("xyz"));
    let hl = row.hl.as_ref().unwrap();
    assert_eq!(hl[1], EditorHighlight::Normal);
    assert_eq!(hl[2], EditorHighlight::Match);
    assert_eq!(hl[4], EditorHighlight::Match);
    assert_eq!(hl[5], EditorHighlight::Normal);
    let mut row2 = row_of("ab");
    row2.hl = Some(vec![EditorHighlight::Normal; 2]);
    row2.highlight_match(1, &cv("xyzvw"));
    assert_eq!(row2.hl.as_ref().unwrap()[1], EditorHighlight::Normal);
}

#[test]
fn insert_row_clamps_out_of_range_positions() {
    let mut e = editor_with_rows(&["a"]);
    e.editor_insert_row(99, cv("b"));
    assert_eq!(e.number_of_rows, 2);
    assert_eq!(sv(&e.erow[0].chars), "a");
    assert_eq!(sv(&e.erow[1].chars), "b");
    assert_eq!(e.erow[1].idx, 1);
}

#[test]
fn free_row_removes_and_renumbers() {
    let mut e = editor_with_rows(&["a", "b", "c"]);
    e.editor_free_row(1);
    assert_eq!(e.number_of_rows, 2);
    assert_eq!(sv(&e.erow[0].chars), "a");
    assert_eq!(sv(&e.erow[1].chars), "c");
    assert_eq!(e.erow[1].idx, 1);
    let dirty = e.dirty;
    e.editor_free_row(5);
    assert_eq!(e.dirty, dirty);
    assert_eq!(e.number_of_rows, 2);
}

#[test]
fn delete_key_joins_next_row_at_line_end() {
    let mut e = editor_with_rows(&["ab", "cd"]);
    e.cy = 0;
    e.cx = 2;
    assert_eq!(e.process_keypress(EditorKey::Delete, 0), KeyAction::Continue);
    assert_eq!(e.number_of_rows, 1);
    assert_eq!(sv(&e.erow[0].chars), "abcd");
    let mut e2 = editor_with_rows(&["ab"]);
    e2.cy = 0;
    e2.cx = 0;
    assert_eq!(e2.process_keypress(EditorKey::Delete, 0), KeyAction::Continue);
    assert_eq!(sv(&e2.erow[0].chars), "b");
}

#[test]
fn page_and_home_end_keys_move_the_cursor() {
    let mut e = editor_with_rows(&["abc", "def", "ghi"]);
    e.screen_rows = 2;
    e.cy = 1;
    e.cx = 2;
    e.process_keypress(EditorKey::HomeKey, 0);
    assert_eq!(e.cx, 0);
    e.process_keypress(EditorKey::EndKey, 0);
    assert_eq!(e.cx, 3);
    e.row_off = 1;
    e.process_keypress(EditorKey::PageUp, 0);
    assert_eq!(e.cy, 1);
    e.process_keypress(EditorKey::PageDown, 0);
    assert_eq!(e.cy, 2);
}

#[test]
fn save_and_find_requests_surface_as_actions() {
    let mut e = editor_with_rows(&["x"]);
    assert_eq!(e.process_keypress(EditorKey::CtrlS, 0), KeyAction::RequestSave);
    assert_eq!(e.process_keypress(EditorKey::CtrlF, 0), KeyAction::RequestFind);
    assert_eq!(e.process_keypress(EditorKey::Escape, 0), KeyAction::Continue);
}
