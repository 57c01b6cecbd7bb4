use vstd::prelude::*;
use crate::app::{
    App, Tab, InputMode, InspectorFocus, InspectorState, QueryState, tab_at, tab_index, next_focus,
    hist_sort_toggled, leak_view_toggled, waste_cycled, history_moved, dom_selection_inspected,
    selection_entered, query_begun, drill_out_parent, history_step,
};
use crate::utf8len::{utf8_len, char_width, on_boundary, char_len_utf8};

verus! {

// ── Keys ──────────────────────────────────────────────────────────────────────

#[derive(Debug, Clone, Copy, PartialEq, Eq, Structural)]
pub enum KeyCode {
    Tab,
    BackTab,
    Left,
    Right,
    Up,
    Down,
    PageUp,
    PageDown,
    Home,
    End,
    Enter,
    Esc,
    Backspace,
    Delete,
    Char(char),
    /// A key the application does not handle.
    Other,
}

/// A key press; `ctrl` tells whether Control was held.
#[derive(Debug, Clone, Copy, PartialEq, Eq, Structural)]
pub struct KeyEvent {
    pub code: KeyCode,
    pub ctrl: bool,
}

/// Work a key press leaves for the analysis engine; its answer goes back to
/// the app through the matching method.
pub enum Effect {
    Nothing,
    /// Look the object up and pass it to `App::inspector_finish_load`.
    LoadObject(u64),
    /// Run the query and pass the result to `App::query_finish`.
    RunQuery(String),
    /// Fetch the object's dominator children for `App::dom_drill_in`.
    DrillIn(u64),
    /// Fetch the object's dominator children for `App::dom_drill_out`.
    DrillOut(u64),
    /// Leave the program.
    Quit,
}

pub open spec fn load_effect(r: Option<u64>) -> Effect {
    match r {
        Some(id) => Effect::LoadObject(id),
        None => Effect::Nothing,
    }
}

// ── Editing a line of text ──────────────────────────────────────────────────

/// Inserts `ch` at byte offset `idx` (std `String::insert`, which panics
/// off a character boundary).
#[verifier::external_body]
fn string_insert(s: &mut String, idx: usize, ch: char)
    requires
        on_boundary(old(s)@, idx as int),
    ensures
        forall|k: int|
            0 <= k <= old(s)@.len() && #[trigger] utf8_len(old(s)@.take(k)) == idx ==> final(s)@ == old(s)@.insert(k, ch),
{
    s.insert(idx, ch);
}

/// Removes the character at byte offset `idx` (std `String::remove`, which
/// panics unless a character starts there).
#[verifier::external_body]
fn string_remove(s: &mut String, idx: usize) -> (c: char)
    requires
        exists|k: int| 0 <= k < old(s)@.len() && #[trigger] utf8_len(old(s)@.take(k)) == idx,
    ensures
        forall|k: int|
            0 <= k < old(s)@.len() && #[trigger] utf8_len(old(s)@.take(k)) == idx ==> c == old(s)@[k] && final(s)@
                == old(s)@.remove(k),
{
    s.remove(idx)
}

/// A character starts at byte offset `b` of `s`.
pub open spec fn char_at(s: Seq<char>, b: int) -> bool {
    exists|k: int| 0 <= k < s.len() && #[trigger] utf8_len(s.take(k)) == b
}

/// The editing key `key` can be applied to `input` with the cursor at byte
/// `cursor` without cutting a character.
pub open spec fn edit_safe(input: Seq<char>, cursor: usize, key: KeyEvent) -> bool {
    &&& utf8_len(input) <= usize::MAX
    &&& match key.code {
        KeyCode::Backspace => cursor > 0 ==> char_at(input, cursor - 1),
        KeyCode::Delete => cursor < utf8_len(input) ==> char_at(input, cursor as int),
        KeyCode::Char(c) => !key.ctrl ==> on_boundary(input, cursor as int) && cursor + char_width(c) <= usize::MAX,
        _ => true,
    }
}

/// Text and cursor after an editing key; keys that do not edit leave both.
pub open spec fn edited(i0: Seq<char>, c0: usize, key: KeyEvent, i1: Seq<char>, c1: usize) -> bool {
    match key.code {
        KeyCode::Char(ch) => if key.ctrl {
            if ch == 'u' {
                i1.len() == 0 && c1 == 0
            } else {
                i1 == i0 && c1 == c0
            }
        } else {
            &&& forall|k: int| 0 <= k <= i0.len() && #[trigger] utf8_len(i0.take(k)) == c0 ==> i1 == i0.insert(k, ch)
            &&& c1 == c0 + char_width(ch)
        },
        KeyCode::Left => i1 == i0 && c1 == if c0 > 0 { (c0 - 1) as usize } else { c0 },
        KeyCode::Right => i1 == i0 && c1 == if c0 < utf8_len(i0) { (c0 + 1) as usize } else { c0 },
        KeyCode::Home => i1 == i0 && c1 == 0,
        KeyCode::End => i1 == i0 && c1 == utf8_len(i0),
        KeyCode::Backspace => if c0 > 0 {
            &&& forall|k: int| 0 <= k < i0.len() && #[trigger] utf8_len(i0.take(k)) == c0 - 1 ==> i1 == i0.remove(k)
            &&& c1 == c0 - 1
        } else {
            i1 == i0 && c1 == c0
        },
        KeyCode::Delete => if c0 < utf8_len(i0) {
            &&& forall|k: int| 0 <= k < i0.len() && #[trigger] utf8_len(i0.take(k)) == c0 ==> i1 == i0.remove(k)
            &&& c1 == c0
        } else {
            i1 == i0 && c1 == c0
        },
        _ => i1 == i0 && c1 == c0,
    }
}

fn edit_line(input: &mut String, cursor: &mut usize, key: KeyEvent)
    requires
        edit_safe(old(input)@, *old(cursor), key),
    ensures
        edited(old(input)@, *old(cursor), key, final(input)@, *final(cursor)),
{
    let len = input.as_str().len();
    match key.code {
        KeyCode::Char(c) => {
            if key.ctrl {
                if c == 'u' {
                    *input = String::new();
                    *cursor = 0;
                }
            } else {
                string_insert(input, *cursor, c);
                *cursor = *cursor + char_len_utf8(c);
            }
        },
        KeyCode::Left => {
            if *cursor > 0 {
                *cursor = *cursor - 1;
            }
        },
        KeyCode::Right => {
            if *cursor < len {
                *cursor = *cursor + 1;
            }
        },
        KeyCode::Home => {
            *cursor = 0;
        },
        KeyCode::End => {
            *cursor = len;
        },
        KeyCode::Backspace => {
            if *cursor > 0 {
                let pos = *cursor - 1;
                string_remove(input, pos);
                *cursor = pos;
            }
        },
        KeyCode::Delete => {
            if *cursor < len {
                string_remove(input, *cursor);
            }
        },
        _ => {},
    }
}

/// The keys that `edit_line` handles.
pub open spec fn is_edit_key(key: KeyEvent) -> bool {
    match key.code {
        KeyCode::Char(c) => !key.ctrl || c == 'u',
        KeyCode::Left | KeyCode::Right | KeyCode::Home | KeyCode::End | KeyCode::Backspace | KeyCode::Delete => true,
        _ => false,
    }
}

// ── The query editor ──────────────────────────────────────────────────────────

pub open spec fn with_query(a: App, q: QueryState) -> App {
    App { query: q, ..a }
}

pub open spec fn query_key_safe(a: App, key: KeyEvent) -> bool {
    let len = a.query.history@.len();
    &&& edit_safe(a.query.input@, a.query.cursor, key)
    &&& key.code == KeyCode::Up && len > 0 ==> match a.query.history_idx {
        Some(i) => (if i > 0 { i - 1 } else { 0 }) < len,
        None => true,
    }
    &&& key.code == KeyCode::Down && len > 0 ==> match a.query.history_idx {
        Some(i) => i < usize::MAX,
        None => true,
    }
}

/// What a key does while the query is being edited.
pub open spec fn query_key(a: App, key: KeyEvent, b: App, eff: Effect) -> bool {
    let normal = with_query(a, QueryState { mode: InputMode::Normal, ..a.query });
    match key.code {
        KeyCode::Esc => b == normal && eff == Effect::Nothing,
        KeyCode::Enter => match eff {
            Effect::RunQuery(q) => query_begun(normal, b, Some(q)),
            Effect::Nothing => query_begun(normal, b, None),
            _ => false,
        },
        KeyCode::Char(c) if key.ctrl && c == 'c' => b == normal && eff == Effect::Nothing,
        KeyCode::Up => history_moved(a, b, true) && eff == Effect::Nothing,
        KeyCode::Down => history_moved(a, b, false) && eff == Effect::Nothing,
        _ => {
            &&& eff == Effect::Nothing
            &&& b == with_query(a, QueryState { input: b.query.input, cursor: b.query.cursor, ..a.query })
            &&& edited(a.query.input@, a.query.cursor, key, b.query.input@, b.query.cursor)
        },
    }
}

pub fn handle_query_input(app: &mut App, key: KeyEvent) -> (eff: Effect)
    requires
        query_key_safe(*old(app), key),
    ensures
        query_key(*old(app), key, *final(app), eff),
{
    match key.code {
        KeyCode::Esc => {
            app.query.mode = InputMode::Normal;
            Effect::Nothing
        },
        KeyCode::Enter => {
            app.query.mode = InputMode::Normal;
            match app.query_begin() {
                Some(q) => Effect::RunQuery(q),
                None => Effect::Nothing,
            }
        },
        KeyCode::Char(c) if key.ctrl && c == 'c' => {
            app.query.mode = InputMode::Normal;
            Effect::Nothing
        },
        KeyCode::Up => {
            app.query_history_nav(true);
            Effect::Nothing
        },
        KeyCode::Down => {
            app.query_history_nav(false);
            Effect::Nothing
        },
        _ => {
            edit_line(&mut app.query.input, &mut app.query.cursor, key);
            Effect::Nothing
        },
    }
}

// ── The object id editor ─────────────────────────────────────────────────────

pub open spec fn with_inspector(a: App, i: InspectorState) -> App {
    App { inspector: i, ..a }
}

/// What a key does while the object id is being edited.
pub open spec fn inspector_key(a: App, key: KeyEvent, b: App, eff: Effect) -> bool {
    let normal = with_inspector(a, InspectorState { mode: InputMode::Normal, ..a.inspector });
    match key.code {
        KeyCode::Esc => b == normal && eff == Effect::Nothing,
        KeyCode::Enter => match eff {
            Effect::LoadObject(id) => crate::app::load_begun(normal, b, Some(id)),
            Effect::Nothing => crate::app::load_begun(normal, b, None),
            _ => false,
        },
        KeyCode::Char(c) if key.ctrl && c == 'c' => b == normal && eff == Effect::Nothing,
        _ => {
            &&& eff == Effect::Nothing
            &&& b == with_inspector(a, InspectorState { input: b.inspector.input, cursor: b.inspector.cursor, ..a.inspector })
            &&& edited(a.inspector.input@, a.inspector.cursor, key, b.inspector.input@, b.inspector.cursor)
        },
    }
}

pub fn handle_inspector_input(app: &mut App, key: KeyEvent) -> (eff: Effect)
    requires
        edit_safe(old(app).inspector.input@, old(app).inspector.cursor, key),
    ensures
        inspector_key(*old(app), key, *final(app), eff),
{
    match key.code {
        KeyCode::Esc => {
            app.inspector.mode = InputMode::Normal;
            Effect::Nothing
        },
        KeyCode::Enter => {
            app.inspector.mode = InputMode::Normal;
            load_effect_of(app.inspector_begin_load())
        },
        KeyCode::Char(c) if key.ctrl && c == 'c' => {
            app.inspector.mode = InputMode::Normal;
            Effect::Nothing
        },
        KeyCode::Up | KeyCode::Down => Effect::Nothing,
        _ => {
            edit_line(&mut app.inspector.input, &mut app.inspector.cursor, key);
            Effect::Nothing
        },
    }
}

fn load_effect_of(r: Option<u64>) -> (eff: Effect)
    ensures
        eff == load_effect(r),
{
    match r {
        Some(id) => Effect::LoadObject(id),
        None => Effect::Nothing,
    }
}


// ── Keys outside the editors ────────────────────────────────────────────────

pub open spec fn with_tab(a: App, t: Tab) -> App {
    App { active_tab: t, ..a }
}

pub open spec fn next_tab_of(a: App) -> App {
    with_tab(a, tab_at((tab_index(a.active_tab) + 1) % 9))
}

pub open spec fn prev_tab_of(a: App) -> App {
    with_tab(a, tab_at((tab_index(a.active_tab) + 8) % 9))
}

/// Enter (or 'i'): drill into the dominator tree, start editing, or follow
/// the inspector's selection.
pub open spec fn enter_key(a: App, b: App, eff: Effect) -> bool {
    match a.active_tab {
        Tab::DomTree => b == a && eff == if a.dom_sel < a.dom_children@.len() {
            Effect::DrillIn(a.dom_children@[a.dom_sel as int].object_id)
        } else {
            Effect::Nothing
        },
        Tab::Query => b == with_query(a, QueryState { mode: InputMode::Editing, ..a.query }) && eff == Effect::Nothing,
        Tab::Inspector => if a.inspector.focus == InspectorFocus::Input {
            b == with_inspector(a, InspectorState { mode: InputMode::Editing, ..a.inspector }) && eff == Effect::Nothing
        } else {
            match eff {
                Effect::LoadObject(id) => selection_entered(a, b, Some(id)),
                Effect::Nothing => selection_entered(a, b, None),
                _ => false,
            }
        },
        _ => b == a && eff == Effect::Nothing,
    }
}

/// Esc, Backspace (or 'o'): go up the dominator tree, or back to the
/// inspector's input.
pub open spec fn back_key(a: App, b: App, eff: Effect) -> bool {
    match a.active_tab {
        Tab::DomTree => if a.dom_stack@.len() == 0 {
            &&& b == (App { status: b.status, ..a })
            &&& b.status matches Some(m) && m@ == "Already at root"@
            &&& eff == Effect::Nothing
        } else {
            b == a && eff == Effect::DrillOut(drill_out_parent(a.dom_stack@))
        },
        Tab::Inspector => b == with_inspector(a, InspectorState { focus: InspectorFocus::Input, ..a.inspector })
            && eff == Effect::Nothing,
        _ => b == a && eff == Effect::Nothing,
    }
}

/// What a character key does outside the editors.
pub open spec fn char_key(a: App, c: char, b: App, eff: Effect) -> bool {
    if c == 'l' {
        b == next_tab_of(a) && eff == Effect::Nothing
    } else if c == 'h' {
        b == prev_tab_of(a) && eff == Effect::Nothing
    } else if c == 'j' {
        b == a.scrolled_down() && eff == Effect::Nothing
    } else if c == 'k' {
        b == a.scrolled_up() && eff == Effect::Nothing
    } else if c == 'd' {
        b == a.scrolled_down_n(10) && eff == Effect::Nothing
    } else if c == 'u' {
        b == a.scrolled_up_n(10) && eff == Effect::Nothing
    } else if c == 'g' {
        b == a.at_top() && eff == Effect::Nothing
    } else if c == 's' {
        eff == Effect::Nothing && match a.active_tab {
            Tab::Waste => waste_cycled(a, b),
            Tab::LeakSuspects => leak_view_toggled(a, b),
            _ => hist_sort_toggled(a, b),
        }
    } else if '1' <= c <= '8' {
        b == with_tab(a, tab_at((c as u32 - 49) as nat)) && eff == Effect::Nothing
    } else if c == '?' {
        b == with_tab(a, Tab::Help) && eff == Effect::Nothing
    } else if c == 'i' {
        enter_key(a, b, eff)
    } else if c == 'o' {
        back_key(a, b, eff)
    } else if c == 'x' {
        if a.active_tab == Tab::DomTree {
            match eff {
                Effect::LoadObject(id) => dom_selection_inspected(a, b, Some(id)),
                Effect::Nothing => dom_selection_inspected(a, b, None),
                _ => false,
            }
        } else {
            b == a && eff == Effect::Nothing
        }
    } else if c == 'p' {
        eff == Effect::Nothing && b == if a.active_tab == Tab::Inspector {
            with_inspector(a, InspectorState { focus: next_focus(a.inspector.focus), ..a.inspector })
        } else {
            a
        }
    } else if c == 'e' {
        eff == Effect::Nothing && b == if a.active_tab == Tab::Query {
            with_query(a, QueryState { mode: InputMode::Editing, ..a.query })
        } else if a.active_tab == Tab::Inspector {
            with_inspector(a, InspectorState { focus: InspectorFocus::Input, mode: InputMode::Editing, ..a.inspector })
        } else {
            a
        }
    } else {
        b == a && eff == Effect::Nothing
    }
}

/// What a key does outside the editors (from a state whose status line was cleared).
pub open spec fn normal_key(a: App, key: KeyEvent, b: App, eff: Effect) -> bool {
    match key.code {
        KeyCode::Tab | KeyCode::Right => b == next_tab_of(a) && eff == Effect::Nothing,
        KeyCode::BackTab | KeyCode::Left => b == prev_tab_of(a) && eff == Effect::Nothing,
        KeyCode::Down => b == a.scrolled_down() && eff == Effect::Nothing,
        KeyCode::Up => b == a.scrolled_up() && eff == Effect::Nothing,
        KeyCode::PageDown => b == a.scrolled_down_n(10) && eff == Effect::Nothing,
        KeyCode::PageUp => b == a.scrolled_up_n(10) && eff == Effect::Nothing,
        KeyCode::Home => b == a.at_top() && eff == Effect::Nothing,
        KeyCode::Enter => enter_key(a, b, eff),
        KeyCode::Esc | KeyCode::Backspace => back_key(a, b, eff),
        KeyCode::Char(c) => char_key(a, c, b, eff),
        _ => b == a && eff == Effect::Nothing,
    }
}

/// The key goes to the query editor.
pub open spec fn editing_query(a: App) -> bool {
    a.active_tab == Tab::Query && a.query.mode == InputMode::Editing
}

/// The key goes to the object id editor.
pub open spec fn editing_id(a: App) -> bool {
    a.active_tab == Tab::Inspector && a.inspector.mode == InputMode::Editing
}

/// `key` can be handled in state `a` without overflow or cutting a character.
/// `q`, and Ctrl-C, quit: before any other key handling, also while text is
/// being edited.
pub open spec fn quit_key(key: KeyEvent) -> bool {
    key.code == KeyCode::Char('q') || (key.ctrl && key.code == KeyCode::Char('c'))
}

pub open spec fn key_safe(a: App, key: KeyEvent) -> bool {
    if quit_key(key) {
        true
    } else if editing_query(a) {
        query_key_safe(a, key)
    } else if editing_id(a) {
        edit_safe(a.inspector.input@, a.inspector.cursor, key)
    } else {
        let a0 = App { status: None, ..a };
        &&& (key.code == KeyCode::Down || key.code == KeyCode::Char('j')) ==> a0.scroll_fits()
        &&& (key.code == KeyCode::PageDown || key.code == KeyCode::Char('d')) ==> a0.page_fits(10)
    }
}

/// What a key press does.
pub open spec fn key_step(a: App, key: KeyEvent, b: App, eff: Effect) -> bool {
    if quit_key(key) {
        b == a && eff == Effect::Quit
    } else if editing_query(a) {
        query_key(a, key, b, eff)
    } else if editing_id(a) {
        inspector_key(a, key, b, eff)
    } else {
        normal_key(App { status: None, ..a }, key, b, eff)
    }
}

/// Handles one key press; the effect says what the engine must do next.
pub fn handle_key(app: &mut App, key: KeyEvent) -> (eff: Effect)
    requires
        key_safe(*old(app), key),
    ensures
        key_step(*old(app), key, *final(app), eff),
{
    let quit = match key.code {
        KeyCode::Char(c) => c == 'q' || (key.ctrl && c == 'c'),
        _ => false,
    };
    if quit {
        return Effect::Quit;
    }
    if app.active_tab == Tab::Query && app.query.mode == InputMode::Editing {
        return handle_query_input(app, key);
    }
    if app.active_tab == Tab::Inspector && app.inspector.mode == InputMode::Editing {
        return handle_inspector_input(app, key);
    }
    app.status = None;
    match key.code {
        KeyCode::Tab | KeyCode::Right => {
            app.next_tab();
            Effect::Nothing
        },
        KeyCode::BackTab | KeyCode::Left => {
            app.prev_tab();
            Effect::Nothing
        },
        KeyCode::Down => {
            app.scroll_down();
            Effect::Nothing
        },
        KeyCode::Up => {
            app.scroll_up();
            Effect::Nothing
        },
        KeyCode::PageDown => {
            app.page_down();
            Effect::Nothing
        },
        KeyCode::PageUp => {
            app.page_up();
            Effect::Nothing
        },
        KeyCode::Home => {
            app.go_top();
            Effect::Nothing
        },
        KeyCode::Enter => enter(app),
        KeyCode::Esc | KeyCode::Backspace => back(app),
        KeyCode::Char(c) => char_pressed(app, c),
        _ => Effect::Nothing,
    }
}

fn enter(app: &mut App) -> (eff: Effect)
    ensures
        enter_key(*old(app), *final(app), eff),
{
    match app.active_tab {
        Tab::DomTree => match app.dom_drill_target() {
            Some(oid) => Effect::DrillIn(oid),
            None => Effect::Nothing,
        },
        Tab::Query => {
            app.query.mode = InputMode::Editing;
            Effect::Nothing
        },
        Tab::Inspector => {
            if app.inspector.focus == InspectorFocus::Input {
                app.inspector.mode = InputMode::Editing;
                Effect::Nothing
            } else {
                load_effect_of(app.inspector_enter_selection())
            }
        },
        _ => Effect::Nothing,
    }
}

fn back(app: &mut App) -> (eff: Effect)
    ensures
        back_key(*old(app), *final(app), eff),
{
    match app.active_tab {
        Tab::DomTree => match app.dom_drill_out_target() {
            Some(parent) => Effect::DrillOut(parent),
            None => {
                app.dom_drill_out(None);
                Effect::Nothing
            },
        },
        Tab::Inspector => {
            app.inspector.focus = InspectorFocus::Input;
            Effect::Nothing
        },
        _ => Effect::Nothing,
    }
}

fn char_pressed(app: &mut App, c: char) -> (eff: Effect)
    requires
        c == 'j' ==> old(app).scroll_fits(),
        c == 'd' ==> old(app).page_fits(10),
    ensures
        char_key(*old(app), c, *final(app), eff),
{
    if c == 'l' {
        app.next_tab();
    } else if c == 'h' {
        app.prev_tab();
    } else if c == 'j' {
        app.scroll_down();
    } else if c == 'k' {
        app.scroll_up();
    } else if c == 'd' {
        app.page_down();
    } else if c == 'u' {
        app.page_up();
    } else if c == 'g' {
        app.go_top();
    } else if c == 's' {
        match app.active_tab {
            Tab::Waste => app.waste_cycle_sub(),
            Tab::LeakSuspects => app.toggle_leak_view(),
            _ => app.toggle_hist_sort(),
        }
    } else if '1' <= c && c <= '8' {
        let i = (c as u32 - 49) as usize;
        app.active_tab = Tab::from_index(i);
    } else if c == '?' {
        app.active_tab = Tab::Help;
    } else if c == 'i' {
        return enter(app);
    } else if c == 'o' {
        return back(app);
    } else if c == 'x' {
        if app.active_tab == Tab::DomTree {
            return load_effect_of(app.inspect_dom_selection());
        }
    } else if c == 'p' {
        if app.active_tab == Tab::Inspector {
            app.inspector_cycle_panel();
        }
    } else if c == 'e' {
        if app.active_tab == Tab::Query {
            app.query.mode = InputMode::Editing;
        }
        if app.active_tab == Tab::Inspector {
            app.inspector.focus = InspectorFocus::Input;
            app.inspector.mode = InputMode::Editing;
        }
    }
    Effect::Nothing
}


// ── Laws ────────────────────────────────────────────────────────────────────

/// The next tab's previous tab is the tab itself, and the other way round.
pub proof fn lemma_next_prev_tab(a: App)
    ensures
        prev_tab_of(next_tab_of(a)) == a,
        next_tab_of(prev_tab_of(a)) == a,
{
    crate::app::lemma_tab_at_index(a.active_tab);
}

/// The tab after `t` in the tab bar, wrapping after the last.
#[verifier::opaque]
pub open spec fn tab_after(t: Tab) -> Tab {
    tab_at((tab_index(t) + 1) % 9)
}

proof fn lemma_tab_after_table()
    ensures
        tab_after(Tab::Overview) == Tab::Histogram,
        tab_after(Tab::Histogram) == Tab::Retained,
        tab_after(Tab::Retained) == Tab::LeakSuspects,
        tab_after(Tab::LeakSuspects) == Tab::Waste,
        tab_after(Tab::Waste) == Tab::DomTree,
        tab_after(Tab::DomTree) == Tab::Query,
        tab_after(Tab::Query) == Tab::Inspector,
        tab_after(Tab::Inspector) == Tab::Help,
        tab_after(Tab::Help) == Tab::Overview,
{
    reveal(tab_after);
}

/// Tab moves through all nine tabs and comes back to the first.
pub proof fn lemma_tab_cycle(t: Tab)
    ensures
        tab_after(tab_after(tab_after(tab_after(tab_after(tab_after(tab_after(tab_after(tab_after(t))))))))) == t,
{
    lemma_tab_after_table();
}

/// Tab (and Right, and 'l') moves to the tab after the current one.
pub proof fn lemma_next_tab_is_tab_after(a: App)
    ensures
        next_tab_of(a).active_tab == tab_after(a.active_tab),
{
    reveal(tab_after);
}

/// Typing an ASCII character and then Backspace gives back the text and the
/// cursor as they were.
pub proof fn lemma_type_then_backspace(
    i0: Seq<char>,
    c0: usize,
    ch: char,
    i1: Seq<char>,
    c1: usize,
    i2: Seq<char>,
    c2: usize,
)
    requires
        on_boundary(i0, c0 as int),
        (ch as u32) < 0x80,
        edited(i0, c0, KeyEvent { code: KeyCode::Char(ch), ctrl: false }, i1, c1),
        edited(i1, c1, KeyEvent { code: KeyCode::Backspace, ctrl: false }, i2, c2),
    ensures
        i2 == i0,
        c2 == c0,
{
    let k = choose|k: int| 0 <= k <= i0.len() && #[trigger] utf8_len(i0.take(k)) == c0;
    assert(i1 == i0.insert(k, ch));
    assert(i1.take(k) =~= i0.take(k));
    assert(utf8_len(i1.take(k)) == c1 - 1);
    assert(i2 == i1.remove(k));
    assert(i2 =~= i0);
}

/// Ctrl-U empties the line and puts the cursor at its start.
pub proof fn lemma_ctrl_u_clears(i0: Seq<char>, c0: usize, i1: Seq<char>, c1: usize)
    requires
        edited(i0, c0, KeyEvent { code: KeyCode::Char('u'), ctrl: true }, i1, c1),
    ensures
        i1.len() == 0,
        c1 == 0,
{
}

/// Every character of `s` is ASCII.
pub open spec fn all_ascii(s: Seq<char>) -> bool {
    forall|i: int| 0 <= i < s.len() ==> (#[trigger] s[i] as u32) < 128
}

/// Editing ASCII text with ASCII keys keeps it ASCII.
pub proof fn lemma_ascii_stays_ascii(i0: Seq<char>, c0: usize, key: KeyEvent, i1: Seq<char>, c1: usize)
    requires
        all_ascii(i0),
        key.code matches KeyCode::Char(ch) ==> (ch as u32) < 128,
        edit_safe(i0, c0, key),
        edited(i0, c0, key, i1, c1),
    ensures
        all_ascii(i1),
{
    match key.code {
        KeyCode::Char(ch) => {
            if !key.ctrl {
                let k = choose|k: int| 0 <= k <= i0.len() && #[trigger] utf8_len(i0.take(k)) == c0;
                assert(i1 == i0.insert(k, ch));
                assert forall|i: int| 0 <= i < i1.len() implies (#[trigger] i1[i] as u32) < 128 by {
                    if i < k {
                        assert(i1[i] == i0[i]);
                    } else if i > k {
                        assert(i1[i] == i0[i - 1]);
                    }
                }
            }
        },
        KeyCode::Backspace => {
            if c0 > 0 {
                let k = choose|k: int| 0 <= k < i0.len() && #[trigger] utf8_len(i0.take(k)) == c0 - 1;
                assert(i1 == i0.remove(k));
                assert forall|i: int| 0 <= i < i1.len() implies (#[trigger] i1[i] as u32) < 128 by {
                    if i < k {
                        assert(i1[i] == i0[i]);
                    } else {
                        assert(i1[i] == i0[i + 1]);
                    }
                }
            }
        },
        KeyCode::Delete => {
            if c0 < utf8_len(i0) {
                let k = choose|k: int| 0 <= k < i0.len() && #[trigger] utf8_len(i0.take(k)) == c0;
                assert(i1 == i0.remove(k));
                assert forall|i: int| 0 <= i < i1.len() implies (#[trigger] i1[i] as u32) < 128 by {
                    if i < k {
                        assert(i1[i] == i0[i]);
                    } else {
                        assert(i1[i] == i0[i + 1]);
                    }
                }
            }
        },
        _ => {},
    }
}

/// The cursor never leaves the text: from a position inside it, every
/// editing key leaves it at a position inside the new text.
pub proof fn lemma_cursor_stays_in_text(i0: Seq<char>, c0: usize, key: KeyEvent, i1: Seq<char>, c1: usize)
    requires
        on_boundary(i0, c0 as int) || key.code == KeyCode::Left || key.code == KeyCode::Right,
        c0 <= utf8_len(i0),
        edit_safe(i0, c0, key),
        edited(i0, c0, key, i1, c1),
    ensures
        c1 <= utf8_len(i1),
{
    match key.code {
        KeyCode::Char(ch) => {
            if !key.ctrl {
                let k = choose|k: int| 0 <= k <= i0.len() && #[trigger] utf8_len(i0.take(k)) == c0;
                assert(i1 == i0.insert(k, ch));
                assert(i1.take(k + 1) =~= i0.take(k).push(ch));
                crate::utf8len::lemma_utf8_len_push(i0.take(k), ch);
                crate::utf8len::lemma_utf8_len_take_mono(i1, k + 1, i1.len() as int);
                assert(i1.take(i1.len() as int) =~= i1);
            } else if ch == 'u' {
                assert(i1 =~= Seq::<char>::empty());
                assert(vstd::utf8::encode_utf8(Seq::<char>::empty()) =~= Seq::<u8>::empty());
            }
        },
        KeyCode::Backspace => {
            if c0 > 0 {
                let k = choose|k: int| 0 <= k < i0.len() && #[trigger] utf8_len(i0.take(k)) == c0 - 1;
                assert(i1 == i0.remove(k));
                assert(i1.take(k) =~= i0.take(k));
                crate::utf8len::lemma_utf8_len_take_mono(i1, k, i1.len() as int);
                assert(i1.take(i1.len() as int) =~= i1);
            }
        },
        KeyCode::Delete => {
            if c0 < utf8_len(i0) {
                let k = choose|k: int| 0 <= k < i0.len() && #[trigger] utf8_len(i0.take(k)) == c0;
                assert(i1 == i0.remove(k));
                assert(i1.take(k) =~= i0.take(k));
                crate::utf8len::lemma_utf8_len_take_mono(i1, k, i1.len() as int);
                assert(i1.take(i1.len() as int) =~= i1);
            }
        },
        _ => {},
    }
}

/// ASCII text takes one byte per character.
proof fn lemma_ascii_utf8_len(s: Seq<char>)
    requires
        all_ascii(s),
    ensures
        utf8_len(s) == s.len(),
    decreases s.len(),
{
    if s.len() == 0 {
        assert(vstd::utf8::encode_utf8(s) =~= Seq::<u8>::empty());
    } else {
        let t = s.drop_last();
        assert(all_ascii(t)) by {
            assert forall|i: int| 0 <= i < t.len() implies (#[trigger] t[i] as u32) < 128 by {
                assert(t[i] == s[i]);
            }
        }
        lemma_ascii_utf8_len(t);
        assert(t.push(s.last()) =~= s);
        crate::utf8len::lemma_utf8_len_push(t, s.last());
        assert((s[s.len() - 1] as u32) < 128);
    }
}

/// In ASCII text every byte offset up to its length starts a character.
proof fn lemma_ascii_boundary(s: Seq<char>, c: int)
    requires
        all_ascii(s),
        0 <= c <= s.len(),
    ensures
        on_boundary(s, c),
        utf8_len(s) == s.len(),
{
    let t = s.take(c);
    assert(all_ascii(t)) by {
        assert forall|i: int| 0 <= i < t.len() implies (#[trigger] t[i] as u32) < 128 by {
            assert(t[i] == s[i]);
        }
    }
    lemma_ascii_utf8_len(t);
    lemma_ascii_utf8_len(s);
}

/// An ASCII key applied to ASCII text with the cursor inside it leaves ASCII
/// text with the cursor inside it.
proof fn lemma_ascii_edit(i0: Seq<char>, c0: usize, key: KeyEvent, i1: Seq<char>, c1: usize)
    requires
        all_ascii(i0),
        c0 <= utf8_len(i0),
        key.code matches KeyCode::Char(ch) ==> (ch as u32) < 128,
        edit_safe(i0, c0, key),
        edited(i0, c0, key, i1, c1),
    ensures
        all_ascii(i1),
        c1 <= utf8_len(i1),
{
    lemma_ascii_utf8_len(i0);
    lemma_ascii_boundary(i0, c0 as int);
    lemma_ascii_stays_ascii(i0, c0, key, i1, c1);
    lemma_cursor_stays_in_text(i0, c0, key, i1, c1);
}

/// The query editor keeps ASCII text ASCII and its cursor inside the text,
/// for ASCII keys and a history of ASCII queries: every key it handles,
/// recalling from the history included.
pub proof fn lemma_query_editor_keeps_ascii(a: App, key: KeyEvent, b: App, eff: Effect)
    requires
        all_ascii(a.query.input@),
        a.query.cursor <= utf8_len(a.query.input@),
        forall|j: int| 0 <= j < a.query.history@.len() ==> all_ascii(#[trigger] a.query.history@[j]@)
            && utf8_len(a.query.history@[j]@) <= usize::MAX,
        key.code matches KeyCode::Char(ch) ==> (ch as u32) < 128,
        query_key_safe(a, key),
        query_key(a, key, b, eff),
    ensures
        all_ascii(b.query.input@),
        b.query.cursor <= utf8_len(b.query.input@),
{
    match key.code {
        KeyCode::Esc | KeyCode::Enter | KeyCode::Up | KeyCode::Down => {},
        KeyCode::Char(c) => {
            if !(key.ctrl && c == 'c') {
                lemma_ascii_edit(a.query.input@, a.query.cursor, key, b.query.input@, b.query.cursor);
            }
        },
        _ => {
            lemma_ascii_edit(a.query.input@, a.query.cursor, key, b.query.input@, b.query.cursor);
        },
    }
}

/// The object id editor keeps ASCII text ASCII and its cursor inside the
/// text, for every ASCII key.
pub proof fn lemma_id_editor_keeps_ascii(a: App, key: KeyEvent, b: App, eff: Effect)
    requires
        all_ascii(a.inspector.input@),
        a.inspector.cursor <= utf8_len(a.inspector.input@),
        key.code matches KeyCode::Char(ch) ==> (ch as u32) < 128,
        edit_safe(a.inspector.input@, a.inspector.cursor, key),
        inspector_key(a, key, b, eff),
    ensures
        all_ascii(b.inspector.input@),
        b.inspector.cursor <= utf8_len(b.inspector.input@),
{
    match key.code {
        KeyCode::Esc | KeyCode::Enter => {},
        KeyCode::Char(c) => {
            if !(key.ctrl && c == 'c') {
                lemma_ascii_edit(a.inspector.input@, a.inspector.cursor, key, b.inspector.input@, b.inspector.cursor);
            }
        },
        _ => {
            lemma_ascii_edit(a.inspector.input@, a.inspector.cursor, key, b.inspector.input@, b.inspector.cursor);
        },
    }
}

/// Right moves the cursor one byte further inside the text and leaves the
/// text as it is; at the end of the text it does nothing.  Left is its
/// inverse: from a position inside the text, Right then Left comes back.
pub proof fn lemma_right_moves_one(i0: Seq<char>, c0: usize, i1: Seq<char>, c1: usize, i2: Seq<char>, c2: usize)
    requires
        utf8_len(i0) <= usize::MAX,
        edited(i0, c0, KeyEvent { code: KeyCode::Right, ctrl: false }, i1, c1),
        edited(i1, c1, KeyEvent { code: KeyCode::Left, ctrl: false }, i2, c2),
    ensures
        i1 == i0,
        c0 < utf8_len(i0) ==> c1 == c0 + 1,
        c0 >= utf8_len(i0) ==> c1 == c0,
        c0 < utf8_len(i0) ==> i2 == i0 && c2 == c0,
{
}

/// Left moves the cursor one byte back and leaves the text as it is; at the
/// start it does nothing.  From inside the text, Left then Right comes back.
pub proof fn lemma_left_moves_one(i0: Seq<char>, c0: usize, i1: Seq<char>, c1: usize, i2: Seq<char>, c2: usize)
    requires
        c0 <= utf8_len(i0),
        edited(i0, c0, KeyEvent { code: KeyCode::Left, ctrl: false }, i1, c1),
        edited(i1, c1, KeyEvent { code: KeyCode::Right, ctrl: false }, i2, c2),
    ensures
        i1 == i0,
        c0 > 0 ==> c1 == c0 - 1,
        c0 == 0 ==> c1 == 0,
        c0 > 0 ==> i2 == i0 && c2 == c0,
{
}

/// With no history entry selected, Down in the query editor changes nothing:
/// there is no newer entry to recall, and the text being typed stays.
pub proof fn lemma_newer_without_selection_keeps_query(a: App, b: App, eff: Effect)
    requires
        a.query.history_idx is None,
        query_key(a, KeyEvent { code: KeyCode::Down, ctrl: false }, b, eff),
    ensures
        b == a,
        eff == Effect::Nothing,
{
}

/// Home puts the cursor at the start of the text and End at its end; neither
/// changes the text, and either one twice is the same as once.
pub proof fn lemma_home_end(i0: Seq<char>, c0: usize, key: KeyEvent, i1: Seq<char>, c1: usize, i2: Seq<char>, c2: usize)
    requires
        key.code == KeyCode::Home || key.code == KeyCode::End,
        edited(i0, c0, key, i1, c1),
        edited(i1, c1, key, i2, c2),
    ensures
        i1 == i0 && i2 == i0,
        key.code == KeyCode::Home ==> c1 == 0,
        key.code == KeyCode::End ==> c1 == utf8_len(i0),
        c2 == c1,
{
}

} // verus!
