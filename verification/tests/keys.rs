use hprof_tui::app::{App, HeapCounts, InputMode, InspectorFocus, ObjectReport, Tab};
use hprof_tui::events::{handle_key, Effect, KeyCode, KeyEvent};
use std::sync::Arc;

fn key(code: KeyCode) -> KeyEvent {
    KeyEvent { code, ctrl: false }
}

fn ch(c: char) -> KeyEvent {
    key(KeyCode::Char(c))
}

fn ctrl(c: char) -> KeyEvent {
    KeyEvent { code: KeyCode::Char(c), ctrl: true }
}

fn obj(id: u64, class: &str) -> ObjectReport {
    ObjectReport {
        object_id: id,
        class_name: class.to_string(),
        node_type: "Instance".to_string(),
        shallow_size: 8,
        retained_size: 8,
    }
}

fn app() -> App {
    let counts = HeapCounts {
        histogram: 40,
        leak_suspects: 2,
        object_leak_suspects: 1,
        duplicate_strings: 0,
        empty_collections: 0,
        over_allocated: 0,
        boxed_primitives: 0,
    };
    App::new("heap.hprof", true, counts, vec![obj(0x100, "a.A"), obj(0x200, "b.B")], Arc::new(Vec::new()))
}

fn is_nothing(e: &Effect) -> bool {
    matches!(e, Effect::Nothing)
}

#[test]
fn number_keys_jump_to_tabs() {
    let mut a = app();
    let expect = [
        ('1', Tab::Overview),
        ('2', Tab::Histogram),
        ('3', Tab::Retained),
        ('4', Tab::LeakSuspects),
        ('5', Tab::Waste),
        ('6', Tab::DomTree),
        ('7', Tab::Query),
        ('8', Tab::Inspector),
        ('?', Tab::Help),
    ];
    for (c, t) in expect {
        assert!(is_nothing(&handle_key(&mut a, ch(c))));
        assert_eq!(a.active_tab, t);
    }
}

#[test]
fn tab_keys_move_between_tabs() {
    let mut a = app();
    handle_key(&mut a, key(KeyCode::Tab));
    assert_eq!(a.active_tab, Tab::Histogram);
    handle_key(&mut a, ch('l'));
    handle_key(&mut a, key(KeyCode::Right));
    assert_eq!(a.active_tab, Tab::LeakSuspects);
    handle_key(&mut a, key(KeyCode::BackTab));
    handle_key(&mut a, ch('h'));
    handle_key(&mut a, key(KeyCode::Left));
    assert_eq!(a.active_tab, Tab::Overview);
    handle_key(&mut a, key(KeyCode::Left));
    assert_eq!(a.active_tab, Tab::Help);
}

#[test]
fn scroll_keys() {
    let mut a = app();
    handle_key(&mut a, ch('2'));
    handle_key(&mut a, ch('j'));
    handle_key(&mut a, key(KeyCode::Down));
    assert_eq!(a.hist_sel, 2);
    handle_key(&mut a, ch('d'));
    assert_eq!(a.hist_sel, 12);
    handle_key(&mut a, key(KeyCode::PageDown));
    assert_eq!(a.hist_sel, 22);
    handle_key(&mut a, ch('k'));
    handle_key(&mut a, key(KeyCode::Up));
    assert_eq!(a.hist_sel, 20);
    handle_key(&mut a, ch('u'));
    assert_eq!(a.hist_sel, 10);
    handle_key(&mut a, key(KeyCode::PageUp));
    assert_eq!(a.hist_sel, 0);
    handle_key(&mut a, ch('j'));
    handle_key(&mut a, ch('g'));
    assert_eq!((a.hist_sel, a.hist_scroll), (0, 0));
    handle_key(&mut a, ch('j'));
    handle_key(&mut a, key(KeyCode::Home));
    assert_eq!(a.hist_sel, 0);
}

#[test]
fn s_key_depends_on_the_tab() {
    let mut a = app();
    handle_key(&mut a, ch('s'));
    assert!(!a.hist_sort_retained);
    handle_key(&mut a, ch('4'));
    handle_key(&mut a, ch('s'));
    assert!(a.leak_show_objects);
    handle_key(&mut a, ch('5'));
    handle_key(&mut a, ch('s'));
    // every waste view is empty here, so the view stays
    assert_eq!(a.waste_sub, 0);
    assert_eq!(a.status.as_deref(), Some("Waste: Duplicate Strings — 0 groups"));
    // any other key clears the status line
    handle_key(&mut a, key(KeyCode::Other));
    assert!(a.status.is_none());
}

#[test]
fn dom_tree_keys_ask_the_engine() {
    let mut a = app();
    handle_key(&mut a, ch('6'));
    handle_key(&mut a, ch('j'));
    match handle_key(&mut a, key(KeyCode::Enter)) {
        Effect::DrillIn(id) => assert_eq!(id, 0x200),
        _ => panic!("expected a drill-in"),
    }
    a.dom_drill_in(Some(vec![obj(0x201, "c.C")]));
    match handle_key(&mut a, key(KeyCode::Esc)) {
        Effect::DrillOut(id) => assert_eq!(id, 0),
        _ => panic!("expected a drill-out"),
    }
    a.dom_drill_out(Some(vec![obj(0x100, "a.A"), obj(0x200, "b.B")]));
    assert_eq!(a.dom_sel, 1);
    assert!(is_nothing(&handle_key(&mut a, ch('o'))));
    assert_eq!(a.status.as_deref(), Some("Already at root"));
    match handle_key(&mut a, ch('x')) {
        Effect::LoadObject(id) => assert_eq!(id, 0x200),
        _ => panic!("expected an object load"),
    }
    assert_eq!(a.active_tab, Tab::Inspector);
    assert_eq!(a.inspector.input, "0x200");
}

#[test]
fn query_editing() {
    let mut a = app();
    handle_key(&mut a, ch('7'));
    handle_key(&mut a, ch('e'));
    assert_eq!(a.query.mode, InputMode::Editing);
    handle_key(&mut a, ctrl('u'));
    assert_eq!(a.query.input, "");
    for c in "SELEC x".chars() {
        handle_key(&mut a, ch(c));
    }
    handle_key(&mut a, key(KeyCode::Left));
    handle_key(&mut a, key(KeyCode::Left));
    handle_key(&mut a, ch('T'));
    assert_eq!(a.query.input, "SELECT x");
    assert_eq!(a.query.cursor, 6);
    handle_key(&mut a, key(KeyCode::Backspace));
    assert_eq!(a.query.input, "SELEC x");
    handle_key(&mut a, key(KeyCode::Delete));
    assert_eq!(a.query.input, "SELECx");
    handle_key(&mut a, key(KeyCode::Home));
    assert_eq!(a.query.cursor, 0);
    handle_key(&mut a, key(KeyCode::Backspace));
    assert_eq!(a.query.input, "SELECx");
    handle_key(&mut a, key(KeyCode::End));
    assert_eq!(a.query.cursor, 6);
    handle_key(&mut a, key(KeyCode::Right));
    assert_eq!(a.query.cursor, 6);
    handle_key(&mut a, key(KeyCode::Delete));
    assert_eq!(a.query.input, "SELECx");
    match handle_key(&mut a, key(KeyCode::Enter)) {
        Effect::RunQuery(q) => assert_eq!(q, "SELECx"),
        _ => panic!("expected a query"),
    }
    assert_eq!(a.query.mode, InputMode::Normal);
    assert_eq!(a.query.history.len(), 1);
}

#[test]
fn query_editor_history_and_cancel() {
    let mut a = app();
    handle_key(&mut a, ch('7'));
    handle_key(&mut a, key(KeyCode::Enter));
    assert_eq!(a.query.mode, InputMode::Editing);
    handle_key(&mut a, key(KeyCode::Enter));
    handle_key(&mut a, ch('i'));
    handle_key(&mut a, ctrl('u'));
    handle_key(&mut a, ch('x'));
    handle_key(&mut a, key(KeyCode::Up));
    assert_eq!(a.query.input, "SELECT * FROM class_histogram LIMIT 20");
    handle_key(&mut a, key(KeyCode::Down));
    assert_eq!(a.query.history_idx, None);
    handle_key(&mut a, key(KeyCode::Esc));
    assert_eq!(a.query.mode, InputMode::Normal);
    handle_key(&mut a, ch('e'));
    handle_key(&mut a, key(KeyCode::Esc));
    assert_eq!(a.query.mode, InputMode::Normal);
}

#[test]
fn empty_query_runs_nothing() {
    let mut a = app();
    handle_key(&mut a, ch('7'));
    handle_key(&mut a, ch('e'));
    handle_key(&mut a, ctrl('u'));
    handle_key(&mut a, ch(' '));
    assert!(is_nothing(&handle_key(&mut a, key(KeyCode::Enter))));
    assert!(a.query.history.is_empty());
}

#[test]
fn typing_then_backspace_restores_the_line() {
    let mut a = app();
    handle_key(&mut a, ch('7'));
    handle_key(&mut a, ch('e'));
    let before = a.query.input.clone();
    let cursor = a.query.cursor;
    handle_key(&mut a, ch('Z'));
    assert_ne!(a.query.input, before);
    handle_key(&mut a, key(KeyCode::Backspace));
    assert_eq!(a.query.input, before);
    assert_eq!(a.query.cursor, cursor);
}

#[test]
fn wide_characters_move_the_cursor_by_their_bytes() {
    let mut a = app();
    handle_key(&mut a, ch('8'));
    handle_key(&mut a, ch('e'));
    assert_eq!(a.inspector.mode, InputMode::Editing);
    handle_key(&mut a, ch('é'));
    assert_eq!(a.inspector.cursor, 2);
    handle_key(&mut a, ch('1'));
    assert_eq!(a.inspector.input, "é1");
    assert_eq!(a.inspector.cursor, 3);
}

#[test]
fn inspector_editing_and_panels() {
    let mut a = app();
    handle_key(&mut a, ch('8'));
    handle_key(&mut a, key(KeyCode::Enter));
    assert_eq!(a.inspector.mode, InputMode::Editing);
    for c in "0x1f".chars() {
        handle_key(&mut a, ch(c));
    }
    handle_key(&mut a, key(KeyCode::Up));
    match handle_key(&mut a, key(KeyCode::Enter)) {
        Effect::LoadObject(id) => assert_eq!(id, 31),
        _ => panic!("expected an object load"),
    }
    assert_eq!(a.inspector.mode, InputMode::Normal);
    handle_key(&mut a, ch('p'));
    assert_eq!(a.inspector.focus, InspectorFocus::Fields);
    handle_key(&mut a, ch('p'));
    assert_eq!(a.inspector.focus, InspectorFocus::Referrers);
    assert!(is_nothing(&handle_key(&mut a, key(KeyCode::Enter))));
    assert_eq!(a.status.as_deref(), Some("Selected field is a primitive — no object to navigate to"));
    handle_key(&mut a, key(KeyCode::Backspace));
    assert_eq!(a.inspector.focus, InspectorFocus::Input);
    handle_key(&mut a, ch('e'));
    handle_key(&mut a, ctrl('u'));
    handle_key(&mut a, ch('g'));
    assert!(is_nothing(&handle_key(&mut a, key(KeyCode::Enter))));
    assert_eq!(a.inspector.error.as_deref(), Some("'g' is not a valid object ID (decimal or 0x hex)"));
}

#[test]
fn ascii_query_text_stays_ascii() {
    let mut a = app();
    handle_key(&mut a, ch('7'));
    handle_key(&mut a, ch('e'));
    for k in [ch('x'), key(KeyCode::Left), key(KeyCode::Backspace), ch('y'), key(KeyCode::Home), key(KeyCode::Delete)] {
        handle_key(&mut a, k);
        assert!(a.query.input.is_ascii());
        assert!(a.query.cursor <= a.query.input.len());
    }
}

#[test]
fn q_and_ctrl_c_quit_even_while_editing() {
    let mut a = app();
    assert!(matches!(handle_key(&mut a, ch('q')), Effect::Quit));
    handle_key(&mut a, ch('7'));
    handle_key(&mut a, ch('e'));
    let input = a.query.input.clone();
    assert!(matches!(handle_key(&mut a, ch('q')), Effect::Quit));
    assert!(matches!(handle_key(&mut a, ctrl('c')), Effect::Quit));
    assert_eq!(a.query.input, input);
    assert_eq!(a.query.mode, InputMode::Editing);
}
