use hprof_tui::app::{
    App, ClassHistogramEntry, FieldInfo, HeapCounts, InputMode, InspectorFocus, InspectorState, LoadedObject,
    ObjectReport,
    QueryState, QueryTable, Tab, TAB_COUNT,
};
use std::sync::Arc;

fn counts() -> HeapCounts {
    HeapCounts {
        histogram: 30,
        leak_suspects: 3,
        object_leak_suspects: 0,
        duplicate_strings: 1,
        empty_collections: 0,
        over_allocated: 7,
        boxed_primitives: 2,
    }
}

fn obj(id: u64, class: &str) -> ObjectReport {
    ObjectReport {
        object_id: id,
        class_name: class.to_string(),
        node_type: "Instance".to_string(),
        shallow_size: 16,
        retained_size: 64,
    }
}

fn app() -> App {
    App::new(
        "/tmp/heap.hprof",
        true,
        counts(),
        vec![obj(0x10, "com.a.Root"), obj(0x20, ""), obj(0x30, "x.Y")],
        Arc::new(vec![7u8, 8, 9]),
    )
}

#[test]
fn new_app_defaults() {
    let a = app();
    assert_eq!(a.active_tab, Tab::Overview);
    assert!(a.hist_sort_retained);
    assert_eq!(a.query.input, "SELECT * FROM class_histogram LIMIT 20");
    assert_eq!(a.query.cursor, a.query.input.len());
    assert_eq!(a.query.mode, InputMode::Normal);
    assert_eq!(a.inspector.focus, InspectorFocus::Input);
    assert!(a.status.is_none());
    assert_eq!(a.dom_children.len(), 3);
    let q = QueryState::new();
    assert_eq!(q.cursor, 38);
}

#[test]
fn tabs_titles_and_positions() {
    let titles: Vec<&str> = (0..TAB_COUNT).map(|i| Tab::from_index(i).title()).collect();
    assert_eq!(
        titles,
        vec!["Overview", "Histogram", "Retained", "Leak Suspects", "Waste", "Dom Tree", "HeapQL", "Inspector", "Help"]
    );
    for i in 0..TAB_COUNT {
        assert_eq!(Tab::from_index(i).index(), i);
    }
}

#[test]
fn next_and_previous_tab() {
    let mut a = app();
    a.prev_tab();
    assert_eq!(a.active_tab, Tab::Help);
    a.next_tab();
    assert_eq!(a.active_tab, Tab::Overview);
    for _ in 0..TAB_COUNT {
        a.next_tab();
    }
    assert_eq!(a.active_tab, Tab::Overview);
}

#[test]
fn scrolling_keeps_the_selection_visible() {
    let mut a = app();
    a.active_tab = Tab::Histogram;
    for _ in 0..25 {
        a.scroll_down();
        assert!(a.hist_scroll <= a.hist_sel && a.hist_sel < a.hist_scroll + 22);
    }
    assert_eq!(a.hist_sel, 25);
    assert_eq!(a.hist_scroll, 4);
    for _ in 0..10 {
        a.scroll_down();
    }
    // 30 rows: the selection stops on the last one
    assert_eq!(a.hist_sel, 29);
    a.scroll_up();
    assert_eq!(a.hist_sel, 28);
    a.page_up();
    assert_eq!(a.hist_sel, 18);
    assert_eq!(a.hist_scroll, 8);
    a.go_top();
    assert_eq!((a.hist_sel, a.hist_scroll), (0, 0));
}

#[test]
fn page_down_moves_ten_rows() {
    let mut a = app();
    a.active_tab = Tab::Retained;
    a.page_down();
    assert_eq!(a.ret_sel, 10);
    assert_eq!(a.hist_sel, 0);
}

#[test]
fn scrolling_an_empty_list_does_nothing() {
    let mut a = app();
    a.active_tab = Tab::LeakSuspects;
    a.leak_show_objects = true;
    a.scroll_down();
    assert_eq!(a.obj_leak_sel, 0);
    a.active_tab = Tab::Overview;
    a.scroll_down();
    assert_eq!(a.hist_sel, 0);
}

#[test]
fn toggles_and_status_lines() {
    let mut a = app();
    a.hist_sel = 5;
    a.toggle_hist_sort();
    assert!(!a.hist_sort_retained);
    assert_eq!(a.hist_sel, 0);
    assert_eq!(a.status.as_deref(), Some("Sorted by shallow size"));
    a.toggle_hist_sort();
    assert!(a.hist_sort_retained);
    assert_eq!(a.status.as_deref(), Some("Sorted by retained size"));
    a.toggle_leak_view();
    assert!(a.leak_show_objects);
    assert_eq!(a.status.as_deref(), Some("Showing object-level suspects  [s] toggle back to class view"));
    a.toggle_leak_view();
    assert!(!a.leak_show_objects);
}

#[test]
fn waste_sub_tables_cycle() {
    let mut a = app();
    // the empty "Empty Collections" view is skipped
    a.waste_cycle_sub();
    assert_eq!(a.waste_sub, 2);
    assert_eq!(a.status.as_deref(), Some("Waste: Over-Allocated — 7 groups"));
    a.waste_cycle_sub();
    assert_eq!(a.waste_sub, 3);
    assert_eq!(a.status.as_deref(), Some("Waste: Boxed Primitives — 2 groups"));
    a.waste_cycle_sub();
    assert_eq!(a.waste_sub, 0);
    assert_eq!(a.status.as_deref(), Some("Waste: Duplicate Strings — 1 group"));
    a.waste_sub = 9;
    assert_eq!(a.waste_sub_len(), 0);
}

#[test]
fn waste_cycle_with_all_views_empty_stays() {
    let mut a = app();
    a.counts.duplicate_strings = 0;
    a.counts.over_allocated = 0;
    a.counts.boxed_primitives = 0;
    a.waste_cycle_sub();
    assert_eq!(a.waste_sub, 0);
    assert_eq!(a.status.as_deref(), Some("Waste: Duplicate Strings — 0 groups"));
}

#[test]
fn drill_in_and_out() {
    let mut a = app();
    a.active_tab = Tab::DomTree;
    a.dom_sel = 2;
    assert_eq!(a.dom_drill_target(), Some(0x30));
    a.dom_drill_in(Some(vec![obj(0x31, "a.B"), obj(0x32, "a.C")]));
    assert_eq!(a.dom_children.len(), 2);
    assert_eq!(a.dom_sel, 0);
    assert_eq!(a.dom_stack.len(), 1);
    assert_eq!(a.status.as_deref(), Some("Drilled into 'x.Y' — 2 children"));
    assert_eq!(a.dom_breadcrumb(), "<GC roots> › x.Y");
    assert_eq!(a.dom_drill_out_target(), Some(0));
    a.dom_drill_out(Some(vec![obj(0x10, "com.a.Root"), obj(0x20, ""), obj(0x30, "x.Y")]));
    assert_eq!(a.dom_sel, 2);
    assert_eq!(a.dom_scroll, 0);
    assert_eq!(a.dom_stack.len(), 0);
    assert_eq!(a.dom_children.len(), 3);
    assert_eq!(a.status.as_deref(), Some("Back from 'x.Y'"));
    assert_eq!(a.dom_breadcrumb(), "<GC roots>");
    assert_eq!(a.dom_drill_out_target(), None);
    a.dom_drill_out(None);
    assert_eq!(a.status.as_deref(), Some("Already at root"));
}

#[test]
fn drilling_into_a_leaf() {
    let mut a = app();
    a.dom_sel = 1;
    a.dom_drill_in(None);
    // no class name: the node type is the label
    assert_eq!(a.status.as_deref(), Some("'Instance' is a leaf — no dominator children"));
    assert_eq!(a.dom_stack.len(), 0);
    a.dom_sel = 7;
    assert_eq!(a.dom_drill_target(), None);
}

#[test]
fn drill_out_two_levels() {
    let mut a = app();
    a.dom_drill_in(Some(vec![obj(0x11, "l1.A")]));
    a.dom_drill_in(Some(vec![obj(0x12, "l2.B")]));
    assert_eq!(a.dom_drill_out_target(), Some(0x10));
    assert_eq!(a.dom_breadcrumb(), "<GC roots> › com.a.Root › l1.A");
    a.dom_drill_out(None);
    assert!(a.dom_children.is_empty());
    assert_eq!(a.dom_stack.len(), 1);
}

#[test]
fn inspector_load_steps() {
    let mut a = app();
    a.inspector.input = "  0x2a ".to_string();
    assert_eq!(a.inspector_begin_load(), Some(42));
    assert!(a.inspector.error.is_none());
    a.inspector_finish_load(42, None);
    assert_eq!(a.inspector.error.as_deref(), Some("Object 0x2a not found in heap"));
    let loaded = LoadedObject {
        report: obj(42, "com.x.Thing"),
        fields: vec![FieldInfo {
            name: "next".to_string(),
            field_type: "Object".to_string(),
            primitive_value: None,
            ref_object_id: Some(0x99),
            ref_class_name: None,
        }],
        referrers: vec![obj(7, "a.R")],
        gc_path: vec![obj(1, "Root"), obj(42, "com.x.Thing")],
    };
    a.inspector_finish_load(42, Some(loaded));
    assert_eq!(a.inspector.focus, InspectorFocus::Fields);
    assert_eq!(a.inspector.current.as_ref().map(|c| c.object_id), Some(42));
    assert_eq!(
        a.status.as_deref(),
        Some("Inspecting com.x.Thing 0x2a  —  1 fields · 1 referrers · GC path depth 2")
    );
    assert_eq!(a.inspector_enter_selection(), Some(0x99));
    assert_eq!(a.inspector.input, "0x99");
    assert_eq!(a.inspector.cursor, 4);
}

#[test]
fn inspector_bad_ids() {
    let mut a = app();
    a.inspector.input = "zz9".to_string();
    assert_eq!(a.inspector_begin_load(), None);
    assert_eq!(a.inspector.error.as_deref(), Some("'zz9' is not a valid object ID (decimal or 0x hex)"));
}

#[test]
fn inspector_selection_without_target() {
    let mut a = app();
    a.inspector.focus = InspectorFocus::Referrers;
    a.inspector.referrers = vec![obj(0, "null")];
    assert_eq!(a.inspector_enter_selection(), None);
    assert_eq!(a.status.as_deref(), Some("null reference — nothing to navigate to"));
    a.inspector.focus = InspectorFocus::Fields;
    assert_eq!(a.inspector_enter_selection(), None);
    assert_eq!(a.status.as_deref(), Some("Selected field is a primitive — no object to navigate to"));
}

#[test]
fn inspect_dom_selection_opens_inspector() {
    let mut a = app();
    a.active_tab = Tab::DomTree;
    a.dom_sel = 1;
    assert_eq!(a.inspect_dom_selection(), Some(0x20));
    assert_eq!(a.active_tab, Tab::Inspector);
    assert_eq!(a.inspector.input, "0x20");
    assert_eq!(a.inspector.cursor, 4);
    a.dom_sel = 10;
    a.active_tab = Tab::DomTree;
    assert_eq!(a.inspect_dom_selection(), None);
    assert_eq!(a.active_tab, Tab::DomTree);
}

#[test]
fn inspector_panels_cycle() {
    let mut a = app();
    a.inspector_cycle_panel();
    assert_eq!(a.inspector.focus, InspectorFocus::Fields);
    a.inspector_cycle_panel();
    assert_eq!(a.inspector.focus, InspectorFocus::Referrers);
    a.inspector_cycle_panel();
    assert_eq!(a.inspector.focus, InspectorFocus::GcPath);
    a.inspector_cycle_panel();
    assert_eq!(a.inspector.focus, InspectorFocus::Fields);
}

#[test]
fn query_run_and_history() {
    let mut a = app();
    a.query.input = "  SELECT 1  ".to_string();
    assert_eq!(a.query_begin().as_deref(), Some("SELECT 1"));
    assert_eq!(a.query.history, vec!["SELECT 1".to_string()]);
    assert_eq!(a.query_begin().as_deref(), Some("SELECT 1"));
    assert_eq!(a.query.history.len(), 1);
    a.query_finish(Ok(QueryTable {
        columns: vec!["n".to_string()],
        rows: vec![vec!["1".to_string()], vec!["2".to_string()]],
        stats: "2 rows matched".to_string(),
    }));
    assert_eq!(a.status.as_deref(), Some("HeapQL: 2 rows"));
    assert_eq!(a.query.rows.len(), 2);
    a.query_finish(Err("syntax error".to_string()));
    assert!(a.query.rows.is_empty() && a.query.columns.is_empty());
    assert_eq!(a.query.error.as_deref(), Some("syntax error"));
    assert_eq!(a.status.as_deref(), Some("HeapQL error: syntax error"));
    a.query.input = "   ".to_string();
    assert_eq!(a.query_begin(), None);
}

#[test]
fn query_history_navigation() {
    let mut a = app();
    a.query_history_nav(true);
    assert_eq!(a.query.history_idx, None);
    for q in ["q1", "q2", "q3"] {
        a.query.input = q.to_string();
        a.query_begin();
    }
    a.query_history_nav(true);
    assert_eq!(a.query.input, "q3");
    assert_eq!(a.query.history_idx, Some(2));
    a.query_history_nav(true);
    a.query_history_nav(true);
    a.query_history_nav(true);
    assert_eq!(a.query.input, "q1");
    assert_eq!(a.query.history_idx, Some(0));
    a.query_history_nav(false);
    assert_eq!(a.query.input, "q2");
    assert_eq!(a.query.cursor, 2);
    a.query_history_nav(false);
    a.query_history_nav(false);
    assert_eq!(a.query.history_idx, None);
    assert_eq!(a.query.input, "q3");
}

fn entry(name: &str, shallow: u64, retained: u64) -> ClassHistogramEntry {
    ClassHistogramEntry { class_name: name.to_string(), instance_count: 1, shallow_size: shallow, retained_size: retained }
}

#[test]
fn histogram_orders() {
    let mut a = app();
    let entries = vec![entry("a", 10, 100), entry("b", 30, 90), entry("c", 10, 80), entry("d", 50, 70)];
    let same: Vec<String> = a.sorted_histogram(&entries).into_iter().map(|e| e.class_name).collect();
    assert_eq!(same, vec!["a", "b", "c", "d"]);
    a.toggle_hist_sort();
    let by_shallow: Vec<String> = a.sorted_histogram(&entries).into_iter().map(|e| e.class_name).collect();
    assert_eq!(by_shallow, vec!["d", "b", "a", "c"]);
}

#[test]
fn inspector_state_new_holds_bytes() {
    let s = InspectorState::new(Arc::new(vec![1u8, 2, 3]));
    assert_eq!(*s.hprof_bytes, vec![1u8, 2, 3]);
    assert_eq!(s.focus, InspectorFocus::Input);
    assert_eq!(s.mode, InputMode::Normal);
    assert_eq!(s.input, "");
    assert_eq!(s.cursor, 0);
    assert!(s.current.is_none() && s.error.is_none());
    assert!(s.fields.is_empty() && s.referrers.is_empty() && s.gc_path.is_empty());
    assert_eq!((s.field_sel, s.field_scroll, s.ref_sel, s.ref_scroll, s.gc_sel, s.gc_scroll), (0, 0, 0, 0, 0, 0));
}

#[test]
fn app_new_keeps_dump_bytes_for_inspector() {
    let a = app();
    assert_eq!(*a.inspector.hprof_bytes, vec![7u8, 8, 9]);
}

#[test]
fn entered_selection_loads_like_typed_id() {
    let mut a = app();
    a.inspector.focus = InspectorFocus::Referrers;
    a.inspector.referrers = vec![obj(0x1234, "a.R")];
    assert_eq!(a.inspector_enter_selection(), Some(0x1234));
    let entered = a.inspector_begin_load();
    let mut b = app();
    b.inspector.input = "0x1234".to_string();
    b.inspector.cursor = 6;
    assert_eq!(entered, b.inspector_begin_load());
    assert_eq!(entered, Some(0x1234));
}

#[test]
fn inspected_tree_node_loads_like_typed_id() {
    let mut a = app();
    a.active_tab = Tab::DomTree;
    a.dom_sel = 2;
    assert_eq!(a.inspect_dom_selection(), Some(0x30));
    assert_eq!(a.inspector_begin_load(), Some(0x30));
    let mut b = app();
    b.inspector.input = "0x30".to_string();
    assert_eq!(b.inspector_begin_load(), Some(0x30));
}
