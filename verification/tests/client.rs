use clipmgr::config::{Config, DEFAULT_MAX_ENTRIES};
use clipmgr::ipc::{EntrySummary, Request, RequestKind, Response};
use clipmgr::paste::{PasteEngine, PasteMethod};
use clipmgr::syntax::{detect_code_language, detect_with_lowercase};
use clipmgr::ui::{HandleOutcome, InputEvent, Key, TerminalUi, UiEvent, UiMode};

#[test]
fn config_falls_back_to_its_defaults() {
    let c = Config::load(String::from("/data/history.db"), None, None);
    assert_eq!(c.db_path, "/data/history.db");
    assert_eq!(c.pipe_name, "\\\\.\\pipe\\clipmgr");
    assert_eq!(c.max_entries, 10000);
    assert_eq!(DEFAULT_MAX_ENTRIES, 10000);
}

#[test]
fn config_takes_what_is_set() {
    let c = Config::load(String::from("h.db"), Some(String::from("\\\\.\\pipe\\x")), Some(String::from("25")));
    assert_eq!(c.pipe_name, "\\\\.\\pipe\\x");
    assert_eq!(c.max_entries, 25);
    let zero = Config::load(String::from("h.db"), Some(String::new()), Some(String::from("0")));
    assert_eq!(zero.pipe_name, "");
    assert_eq!(zero.max_entries, 0);
}

#[test]
fn config_ignores_a_bound_that_is_no_number() {
    for bad in ["", "many", "-3", "1e3", " 5"] {
        let c = Config::load(String::from("h.db"), None, Some(String::from(bad)));
        assert_eq!(c.max_entries, 10000);
    }
}

#[test]
fn paste_engine_keeps_its_method() {
    assert_eq!(PasteEngine::new(PasteMethod::SendInput).method(), PasteMethod::SendInput);
    assert_eq!(PasteEngine::new(PasteMethod::Stdout).method(), PasteMethod::Stdout);
}

#[test]
fn detects_languages_by_their_marks() {
    assert_eq!(detect_code_language("fn main() {}"), Some("rust"));
    assert_eq!(detect_code_language("pub fn f()"), Some("rust"));
    assert_eq!(detect_code_language("impl X"), Some("rust"));
    assert_eq!(detect_code_language("function f() {}"), Some("javascript"));
    assert_eq!(detect_code_language("const x = 1"), Some("javascript"));
    assert_eq!(detect_code_language("x => { y }"), Some("javascript"));
    assert_eq!(detect_code_language("def f():"), Some("python"));
    assert_eq!(detect_code_language("IF __NAME__ == \"__MAIN__\""), Some("python"));
    assert_eq!(detect_code_language("package main"), Some("go"));
    assert_eq!(detect_code_language("type T struct"), Some("go"));
    assert_eq!(detect_code_language("#include <stdio.h>"), Some("cpp"));
    assert_eq!(detect_code_language("public static void main(String[] a)"), Some("java"));
    assert_eq!(detect_code_language("<?PHP echo"), Some("php"));
    assert_eq!(detect_code_language("SELECT 1"), Some("sql"));
    assert_eq!(detect_code_language("Select a From t"), Some("sql"));
    assert_eq!(detect_code_language("#!/bin/sh\necho"), Some("bash"));
    assert_eq!(detect_code_language("#!/bin/bash"), Some("bash"));
}

#[test]
fn the_lower_case_text_is_searched_for_the_marks_that_ignore_case() {
    assert_eq!(detect_with_lowercase("A", "select x from t"), Some("sql"));
    assert_eq!(detect_with_lowercase("select x from t", "A"), None);
    assert_eq!(detect_with_lowercase("", "<?php"), Some("php"));
    assert_eq!(detect_with_lowercase("", "if __name__ == \"__main__\""), Some("python"));
    assert_eq!(detect_with_lowercase("", "fn main()"), None);
    assert_eq!(detect_with_lowercase("fn main()", ""), Some("rust"));
    assert_eq!(detect_with_lowercase("x", " from select "), Some("sql"));
    assert_eq!(detect_with_lowercase("x", " from  where "), None);
    assert_eq!(detect_with_lowercase("x", "select "), None);
}

#[test]
fn the_first_test_that_holds_decides() {
    assert_eq!(detect_code_language("impl X { function f() {} }"), Some("rust"));
    assert_eq!(detect_code_language("let x = 1\ndef f():"), Some("javascript"));
    assert_eq!(detect_code_language("import os\npackage main"), Some("python"));
    assert_eq!(detect_code_language("#!/bin/sh\nfunc x"), Some("go"));
    assert_eq!(detect_code_language("public class A"), Some("python"));
}

#[test]
fn half_a_mark_is_no_mark() {
    assert_eq!(detect_code_language("a => b"), None);
    assert_eq!(detect_code_language("type T"), None);
    assert_eq!(detect_code_language("select something"), None);
    assert_eq!(detect_code_language("echo #!/bin/sh"), None);
    assert_eq!(detect_code_language("plain words"), None);
    assert_eq!(detect_code_language(""), None);
}

#[test]
fn text_shaped_like_code_is_plaintext() {
    assert_eq!(detect_code_language("a{b}c;d;"), Some("plaintext"));
    assert_eq!(detect_code_language("a{b}c;"), None);
    let long_line = format!("{}{{}};;", "x".repeat(96));
    assert_eq!(long_line.len(), 100);
    assert_eq!(detect_code_language(&long_line), None);
    let two_lines = format!("{}\n", long_line);
    assert_eq!(detect_code_language(&two_lines), None);
    let split = format!("{}\n{{}};;", "x".repeat(150));
    assert_eq!(detect_code_language(&split), Some("plaintext"));
    assert_eq!(detect_code_language("{};;\n\n\n"), Some("plaintext"));
}

fn summary(id: u64, preview: &str) -> EntrySummary {
    EntrySummary {
        id,
        preview: String::from(preview),
        created_at: String::from("1970-01-01T00:00:00+00:00"),
        kind: String::from("text"),
        source_process: None,
        tags: Vec::new(),
    }
}

fn ui_with(n: u64) -> TerminalUi {
    let mut ui = TerminalUi::new();
    ui.ingest_response(Response { entries: (1..=n).map(|i| summary(i * 10, &format!("e{}", i))).collect() });
    ui
}

fn press(ui: &mut TerminalUi, key: Key) -> HandleOutcome {
    ui.handle_event(UiEvent::Input(InputEvent::KeyPress(key)))
}

fn typed(ui: &mut TerminalUi, text: &str) {
    for c in text.chars() {
        press(ui, Key::Char(c));
    }
}

fn nothing() -> HandleOutcome {
    HandleOutcome { should_exit: false, request: None, paste: None }
}

fn send(kind: RequestKind) -> HandleOutcome {
    HandleOutcome { should_exit: false, request: Some(Request { kind }), paste: None }
}

#[test]
fn a_new_client_shows_nothing() {
    let ui = TerminalUi::new();
    assert!(ui.entries().is_empty());
    assert_eq!(ui.selected(), 0);
    assert_eq!(ui.filter(), "");
    assert_eq!(ui.input_buffer(), "");
    assert_eq!(ui.mode(), UiMode::Normal);
    assert_eq!(ui.paste_engine().method(), PasteMethod::SendInput);
}

#[test]
fn the_selection_moves_within_the_list() {
    let mut ui = ui_with(3);
    assert_eq!(press(&mut ui, Key::Char('j')), nothing());
    assert_eq!(ui.selected(), 1);
    press(&mut ui, Key::Down);
    assert_eq!(ui.selected(), 2);
    press(&mut ui, Key::Down);
    assert_eq!(ui.selected(), 2);
    press(&mut ui, Key::Char('k'));
    assert_eq!(ui.selected(), 1);
    press(&mut ui, Key::Up);
    press(&mut ui, Key::Up);
    assert_eq!(ui.selected(), 0);
    press(&mut ui, Key::Char('G'));
    assert_eq!(ui.selected(), 2);
    press(&mut ui, Key::Char('g'));
    assert_eq!(ui.selected(), 0);
}

#[test]
fn the_selection_stays_at_the_top_of_an_empty_list() {
    let mut ui = TerminalUi::new();
    for key in [Key::Down, Key::Char('j'), Key::Char('G'), Key::Up, Key::Char('g')] {
        assert_eq!(press(&mut ui, key), nothing());
        assert_eq!(ui.selected(), 0);
    }
    assert_eq!(press(&mut ui, Key::Enter), nothing());
    assert_eq!(press(&mut ui, Key::Char('l')), nothing());
}

#[test]
fn quitting_ends_the_client() {
    for key in [Key::Char('q'), Key::Esc] {
        let mut ui = ui_with(2);
        assert_eq!(press(&mut ui, key), HandleOutcome { should_exit: true, request: None, paste: None });
    }
}

#[test]
fn enter_pastes_the_selected_entry_and_ends_the_client() {
    for key in [Key::Enter, Key::Char('l')] {
        let mut ui = ui_with(3);
        press(&mut ui, Key::Down);
        let out = press(&mut ui, key);
        assert_eq!(
            out,
            HandleOutcome {
                should_exit: true,
                request: Some(Request { kind: RequestKind::Paste { id: 20 } }),
                paste: Some(String::from("e2")),
            }
        );
    }
}

#[test]
fn any_key_closes_the_help() {
    let mut ui = ui_with(2);
    assert_eq!(press(&mut ui, Key::Char('?')), nothing());
    assert_eq!(ui.mode(), UiMode::Help);
    assert_eq!(press(&mut ui, Key::Char('q')), nothing());
    assert_eq!(ui.mode(), UiMode::Normal);
    press(&mut ui, Key::Char('?'));
    assert_eq!(press(&mut ui, Key::Enter), nothing());
    assert_eq!(ui.mode(), UiMode::Normal);
    assert_eq!(ui.selected(), 0);
}

#[test]
fn searching_asks_anew_with_every_character() {
    let mut ui = ui_with(2);
    assert_eq!(press(&mut ui, Key::Char('/')), nothing());
    assert_eq!(ui.mode(), UiMode::Search);
    assert_eq!(press(&mut ui, Key::Char('a')), send(RequestKind::Search { query: String::from("a") }));
    assert_eq!(press(&mut ui, Key::Char('b')), send(RequestKind::Search { query: String::from("ab") }));
    assert_eq!(ui.filter(), "ab");
    assert_eq!(press(&mut ui, Key::Backspace), nothing());
    assert_eq!(ui.input_buffer(), "a");
    assert_eq!(ui.filter(), "ab");
    assert_eq!(press(&mut ui, Key::Enter), send(RequestKind::Search { query: String::from("a") }));
    assert_eq!(ui.mode(), UiMode::Normal);
    assert_eq!(ui.input_buffer(), "");
    assert_eq!(ui.filter(), "ab");
    press(&mut ui, Key::Char('/'));
    assert_eq!(ui.input_buffer(), "ab");
}

#[test]
fn escape_gives_up_what_was_typed() {
    let mut ui = ui_with(2);
    press(&mut ui, Key::Char('t'));
    typed(&mut ui, "work");
    assert_eq!(ui.input_buffer(), "work");
    assert_eq!(press(&mut ui, Key::Esc), nothing());
    assert_eq!(ui.mode(), UiMode::Normal);
    assert_eq!(ui.input_buffer(), "");
}

#[test]
fn keys_are_text_while_the_command_bar_takes_text() {
    let mut ui = ui_with(2);
    press(&mut ui, Key::Char('t'));
    typed(&mut ui, "qjG?");
    assert_eq!(ui.input_buffer(), "qjG?");
    assert_eq!(ui.selected(), 0);
    assert_eq!(press(&mut ui, Key::Down), nothing());
    assert_eq!(press(&mut ui, Key::Other), nothing());
    assert_eq!(ui.mode(), UiMode::AddTag);
    for _ in 0..6 {
        assert_eq!(press(&mut ui, Key::Backspace), nothing());
    }
    assert_eq!(ui.input_buffer(), "");
    assert_eq!(press(&mut ui, Key::Enter), nothing());
}

#[test]
fn tags_go_to_the_selected_entry() {
    let mut ui = ui_with(3);
    press(&mut ui, Key::Char('G'));
    press(&mut ui, Key::Char('t'));
    assert_eq!(ui.mode(), UiMode::AddTag);
    typed(&mut ui, "work");
    assert_eq!(press(&mut ui, Key::Enter), send(RequestKind::AddTag { id: 30, tag: String::from("work") }));
    press(&mut ui, Key::Char('T'));
    assert_eq!(ui.mode(), UiMode::RemoveTag);
    typed(&mut ui, "work");
    assert_eq!(press(&mut ui, Key::Enter), send(RequestKind::RemoveTag { id: 30, tag: String::from("work") }));
}

#[test]
fn a_tag_without_an_entry_asks_for_nothing() {
    let mut ui = TerminalUi::new();
    press(&mut ui, Key::Char('t'));
    typed(&mut ui, "work");
    assert_eq!(ui.handle_input_mode_submit(), None);
    assert_eq!(press(&mut ui, Key::Enter), nothing());
    press(&mut ui, Key::Char('T'));
    typed(&mut ui, "work");
    assert_eq!(press(&mut ui, Key::Enter), nothing());
}

#[test]
fn export_and_import_offer_a_file_name() {
    let mut ui = TerminalUi::new();
    press(&mut ui, Key::Char('e'));
    assert_eq!(ui.mode(), UiMode::Export);
    assert_eq!(ui.input_buffer(), "clipboard_export.json");
    assert_eq!(
        press(&mut ui, Key::Enter),
        send(RequestKind::Export { path: String::from("clipboard_export.json") })
    );
    press(&mut ui, Key::Char('i'));
    assert_eq!(ui.mode(), UiMode::Import);
    typed(&mut ui, ".bak");
    assert_eq!(
        press(&mut ui, Key::Enter),
        send(RequestKind::Import { path: String::from("clipboard_export.json.bak") })
    );
}

#[test]
fn only_key_presses_count() {
    let mut ui = ui_with(2);
    assert_eq!(ui.handle_event(UiEvent::Input(InputEvent::Other)), nothing());
    assert_eq!(press(&mut ui, Key::Other), nothing());
    assert_eq!(press(&mut ui, Key::Backspace), nothing());
    assert_eq!(press(&mut ui, Key::Char('x')), nothing());
    assert_eq!(ui.mode(), UiMode::Normal);
    assert_eq!(ui.selected(), 0);
}

#[test]
fn a_response_keeps_the_selection_on_the_list() {
    let mut ui = ui_with(5);
    press(&mut ui, Key::Char('G'));
    assert_eq!(ui.selected(), 4);
    ui.ingest_response(Response { entries: vec![summary(1, "a"), summary(2, "b")] });
    assert_eq!(ui.selected(), 1);
    assert_eq!(ui.entries().len(), 2);
    ui.ingest_response(Response { entries: vec![summary(1, "a"), summary(2, "b"), summary(3, "c")] });
    assert_eq!(ui.selected(), 1);
    ui.ingest_response(Response { entries: Vec::new() });
    assert_eq!(ui.selected(), 0);
    assert!(ui.entries().is_empty());
}
