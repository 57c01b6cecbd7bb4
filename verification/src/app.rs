use vstd::prelude::*;
use std::sync::Arc;
use crate::text::{dec_text, hex_text, push_radix, push_str};
use crate::ui::{shorten, shorten_ok, shorten_spec};
use crate::utf8len::utf8_len;
use crate::objid::{trim, trim_string, object_id_spec, parse_object_id, lemma_hex_id_round_trip};

verus! {

broadcast use vstd::seq_lib::group_to_multiset_ensures;

// ── Tabs ──────────────────────────────────────────────────────────────────────

#[derive(Debug, Clone, Copy, PartialEq, Eq, Structural)]
pub enum Tab {
    Overview,
    Histogram,
    Retained,
    LeakSuspects,
    Waste,
    DomTree,
    Query,
    Inspector,
    Help,
}

/// Number of tabs.
pub const TAB_COUNT: usize = 9;

/// Position of a tab in the tab bar.
pub open spec fn tab_index(t: Tab) -> nat {
    match t {
        Tab::Overview => 0,
        Tab::Histogram => 1,
        Tab::Retained => 2,
        Tab::LeakSuspects => 3,
        Tab::Waste => 4,
        Tab::DomTree => 5,
        Tab::Query => 6,
        Tab::Inspector => 7,
        Tab::Help => 8,
    }
}

/// The tab at position `i` of the tab bar (`i` below 9).
pub open spec fn tab_at(i: nat) -> Tab {
    if i == 0 {
        Tab::Overview
    } else if i == 1 {
        Tab::Histogram
    } else if i == 2 {
        Tab::Retained
    } else if i == 3 {
        Tab::LeakSuspects
    } else if i == 4 {
        Tab::Waste
    } else if i == 5 {
        Tab::DomTree
    } else if i == 6 {
        Tab::Query
    } else if i == 7 {
        Tab::Inspector
    } else {
        Tab::Help
    }
}

pub open spec fn tab_title(t: Tab) -> Seq<char> {
    match t {
        Tab::Overview => "Overview"@,
        Tab::Histogram => "Histogram"@,
        Tab::Retained => "Retained"@,
        Tab::LeakSuspects => "Leak Suspects"@,
        Tab::Waste => "Waste"@,
        Tab::DomTree => "Dom Tree"@,
        Tab::Query => "HeapQL"@,
        Tab::Inspector => "Inspector"@,
        Tab::Help => "Help"@,
    }
}

impl Tab {
    /// Title shown in the tab bar.
    pub fn title(self) -> (s: &'static str)
        ensures
            s@ == tab_title(self),
    {
        match self {
            Tab::Overview => "Overview",
            Tab::Histogram => "Histogram",
            Tab::Retained => "Retained",
            Tab::LeakSuspects => "Leak Suspects",
            Tab::Waste => "Waste",
            Tab::DomTree => "Dom Tree",
            Tab::Query => "HeapQL",
            Tab::Inspector => "Inspector",
            Tab::Help => "Help",
        }
    }

    /// Position in the tab bar.
    pub fn index(self) -> (i: usize)
        ensures
            i == tab_index(self),
    {
        match self {
            Tab::Overview => 0,
            Tab::Histogram => 1,
            Tab::Retained => 2,
            Tab::LeakSuspects => 3,
            Tab::Waste => 4,
            Tab::DomTree => 5,
            Tab::Query => 6,
            Tab::Inspector => 7,
            Tab::Help => 8,
        }
    }

    /// The tab at position `i` of the tab bar.
    pub fn from_index(i: usize) -> (t: Tab)
        requires
            i < TAB_COUNT,
        ensures
            t == tab_at(i as nat),
    {
        if i == 0 {
            Tab::Overview
        } else if i == 1 {
            Tab::Histogram
        } else if i == 2 {
            Tab::Retained
        } else if i == 3 {
            Tab::LeakSuspects
        } else if i == 4 {
            Tab::Waste
        } else if i == 5 {
            Tab::DomTree
        } else if i == 6 {
            Tab::Query
        } else if i == 7 {
            Tab::Inspector
        } else {
            Tab::Help
        }
    }
}

pub proof fn lemma_tab_at_index(t: Tab)
    ensures
        tab_index(t) < TAB_COUNT,
        tab_at(tab_index(t)) == t,
{
}

// ── Input mode (shared by Query and Inspector) ────────────────────────────────

#[derive(Debug, Clone, Copy, PartialEq, Eq, Structural)]
pub enum InputMode {
    Normal,
    Editing,
}

// ── Query tab state ───────────────────────────────────────────────────────────

pub struct QueryState {
    pub input: String,
    pub mode: InputMode,
    pub columns: Vec<String>,
    pub rows: Vec<Vec<String>>,
    pub error: Option<String>,
    pub sel: usize,
    pub scroll: usize,
    pub stats: String,
    /// Byte offset of the cursor in `input`.
    pub cursor: usize,
    pub history: Vec<String>,
    pub history_idx: Option<usize>,
}

impl QueryState {
    /// A query tab showing the default query, not editing.
    pub fn new() -> (q: Self)
        ensures
            q.input@ == "SELECT * FROM class_histogram LIMIT 20"@,
            q.mode == InputMode::Normal,
            q.columns@.len() == 0,
            q.rows@.len() == 0,
            q.error is None,
            q.sel == 0,
            q.scroll == 0,
            q.stats@ == Seq::<char>::empty(),
            q.cursor == 38,
            q.history@.len() == 0,
            q.history_idx is None,
    {
        let default = String::from_str("SELECT * FROM class_histogram LIMIT 20");
        let d = default.as_str();
        proof {
            reveal_strlit("SELECT * FROM class_histogram LIMIT 20");
            assert(vstd::string::is_ascii(d));
            vstd::string::is_ascii_spec_bytes(d);
        }
        let len = d.len();
        QueryState {
            input: default,
            mode: InputMode::Normal,
            columns: Vec::new(),
            rows: Vec::new(),
            error: None,
            sel: 0,
            scroll: 0,
            stats: String::new(),
            cursor: len,
            history: Vec::new(),
            history_idx: None,
        }
    }
}


// ── Objects shown by the dominator tree and the inspector ───────────────────

/// One object as the analysis engine reports it.
pub struct ObjectReport {
    pub object_id: u64,
    pub class_name: String,
    pub node_type: String,
    pub shallow_size: u64,
    pub retained_size: u64,
}

/// One field of an inspected instance.
pub struct FieldInfo {
    pub name: String,
    pub field_type: String,
    /// The value of a primitive field, as text.
    pub primitive_value: Option<String>,
    /// The object a reference field points to; `Some(0)` for null.
    pub ref_object_id: Option<u64>,
    /// Class of the referenced object, when known.
    pub ref_class_name: Option<String>,
}

/// One row of the engine's class histogram.
pub struct ClassHistogramEntry {
    pub class_name: String,
    pub instance_count: u64,
    pub shallow_size: u64,
    pub retained_size: u64,
}

// ── Inspector tab state ───────────────────────────────────────────────────────

pub struct InspectorEntry {
    pub object_id: u64,
    pub class_name: String,
    pub node_type: String,
    pub shallow_size: u64,
    pub retained_size: u64,
}

#[derive(Debug, Clone, Copy, PartialEq, Eq, Structural)]
pub enum InspectorFocus {
    Input,
    Fields,
    Referrers,
    GcPath,
}

pub struct InspectorState {
    pub input: String,
    pub mode: InputMode,
    /// Byte offset of the cursor in `input`.
    pub cursor: usize,
    pub current: Option<InspectorEntry>,
    pub fields: Vec<FieldInfo>,
    pub field_sel: usize,
    pub field_scroll: usize,
    pub referrers: Vec<ObjectReport>,
    pub ref_sel: usize,
    pub ref_scroll: usize,
    pub gc_path: Vec<ObjectReport>,
    pub gc_sel: usize,
    pub gc_scroll: usize,
    pub focus: InspectorFocus,
    pub error: Option<String>,
    /// The bytes of the dump being inspected.
    pub hprof_bytes: Arc<Vec<u8>>,
}

impl InspectorState {
    /// An empty inspector with the input focused, over the dump's bytes.
    pub fn new(hprof_bytes: Arc<Vec<u8>>) -> (r: Self)
        ensures
            r.hprof_bytes == hprof_bytes,
            r.input@ == Seq::<char>::empty(),
            r.mode == InputMode::Normal,
            r.cursor == 0,
            r.current is None,
            r.fields@.len() == 0,
            r.field_sel == 0 && r.field_scroll == 0,
            r.referrers@.len() == 0,
            r.ref_sel == 0 && r.ref_scroll == 0,
            r.gc_path@.len() == 0,
            r.gc_sel == 0 && r.gc_scroll == 0,
            r.focus == InspectorFocus::Input,
            r.error is None,
    {
        InspectorState {
            input: String::new(),
            mode: InputMode::Normal,
            cursor: 0,
            current: None,
            fields: Vec::new(),
            field_sel: 0,
            field_scroll: 0,
            referrers: Vec::new(),
            ref_sel: 0,
            ref_scroll: 0,
            gc_path: Vec::new(),
            gc_sel: 0,
            gc_scroll: 0,
            focus: InspectorFocus::Input,
            error: None,
            hprof_bytes,
        }
    }
}

// ── App ───────────────────────────────────────────────────────────────────────

/// Sizes of the engine's result lists that the tabs scroll through.
#[derive(Debug, Clone, Copy, PartialEq, Eq, Structural)]
pub struct HeapCounts {
    pub histogram: usize,
    pub leak_suspects: usize,
    pub object_leak_suspects: usize,
    pub duplicate_strings: usize,
    pub empty_collections: usize,
    pub over_allocated: usize,
    pub boxed_primitives: usize,
}

pub struct App {
    pub path: String,
    pub has_dominators: bool,
    pub counts: HeapCounts,
    pub active_tab: Tab,
    pub hist_sel: usize,
    pub hist_scroll: usize,
    pub hist_sort_retained: bool,
    pub ret_sel: usize,
    pub ret_scroll: usize,
    pub leak_sel: usize,
    pub leak_scroll: usize,
    pub waste_sel: usize,
    pub waste_scroll: usize,
    /// Which waste sub-table is shown: 0 duplicate strings, 1 empty
    /// collections, 2 over-allocated collections, 3 boxed primitives.
    pub waste_sub: usize,
    /// false: class-level suspects; true: individual object suspects.
    pub leak_show_objects: bool,
    pub obj_leak_sel: usize,
    pub obj_leak_scroll: usize,
    pub dom_sel: usize,
    pub dom_scroll: usize,
    pub dom_children: Vec<ObjectReport>,
    /// Drilled-into objects: id, label and the selection to restore.
    pub dom_stack: Vec<(u64, String, usize)>,
    pub query: QueryState,
    pub inspector: InspectorState,
    pub status: Option<String>,
}

// ── Scroll primitives ──────────────────────────────────────────────────────────

/// Rows visible at once in a table.
pub const VISIBLE: usize = 22;

/// Selection and scroll offset after moving the selection down one row in a
/// list of `len` rows.
pub open spec fn sel_dn_spec(p: (usize, usize), len: nat) -> (usize, usize) {
    if p.0 + 1 < len {
        let s = (p.0 + 1) as usize;
        (s, if s >= p.1 + VISIBLE { (p.1 + 1) as usize } else { p.1 })
    } else {
        p
    }
}

/// Selection and scroll offset after moving the selection up one row.
pub open spec fn sel_up_spec(p: (usize, usize)) -> (usize, usize) {
    if p.0 > 0 {
        let s = (p.0 - 1) as usize;
        (s, if s < p.1 { s } else { p.1 })
    } else {
        p
    }
}

/// Moving down from `p` can compare against the window end without overflow.
pub open spec fn sel_dn_fits(p: (usize, usize), len: nat) -> bool {
    &&& p.0 < usize::MAX
    &&& p.0 + 1 < len ==> p.1 + VISIBLE <= usize::MAX
}

fn sel_dn(sel: &mut usize, scroll: &mut usize, len: usize)
    requires
        sel_dn_fits((*old(sel), *old(scroll)), len as nat),
    ensures
        (*final(sel), *final(scroll)) == sel_dn_spec((*old(sel), *old(scroll)), len as nat),
{
    if *sel + 1 < len {
        *sel += 1;
        if *sel >= *scroll + VISIBLE {
            *scroll += 1;
        }
    }
}

fn sel_up(sel: &mut usize, scroll: &mut usize)
    ensures
        (*final(sel), *final(scroll)) == sel_up_spec((*old(sel), *old(scroll))),
{
    if *sel > 0 {
        *sel -= 1;
        if *sel < *scroll {
            *scroll = *sel;
        }
    }
}

/// The scrollable lists of the tabs.
#[derive(Debug, Clone, Copy, PartialEq, Eq, Structural)]
pub enum ListId {
    Histogram,
    Retained,
    LeakSuspects,
    ObjectLeakSuspects,
    Waste,
    DomTree,
    Query,
    Fields,
    Referrers,
    GcPath,
}

impl App {
    /// The list that scroll keys move in the current tab, if any.
    pub open spec fn active_list(self) -> Option<ListId> {
        match self.active_tab {
            Tab::Histogram => Some(ListId::Histogram),
            Tab::Retained => Some(ListId::Retained),
            Tab::LeakSuspects => if self.leak_show_objects {
                Some(ListId::ObjectLeakSuspects)
            } else {
                Some(ListId::LeakSuspects)
            },
            Tab::Waste => Some(ListId::Waste),
            Tab::DomTree => Some(ListId::DomTree),
            Tab::Query => Some(ListId::Query),
            Tab::Inspector => match self.inspector.focus {
                InspectorFocus::Fields => Some(ListId::Fields),
                InspectorFocus::Referrers => Some(ListId::Referrers),
                InspectorFocus::GcPath => Some(ListId::GcPath),
                InspectorFocus::Input => None,
            },
            _ => None,
        }
    }

    /// Selection and scroll offset of a list.
    pub open spec fn list_pos(self, l: ListId) -> (usize, usize) {
        match l {
            ListId::Histogram => (self.hist_sel, self.hist_scroll),
            ListId::Retained => (self.ret_sel, self.ret_scroll),
            ListId::LeakSuspects => (self.leak_sel, self.leak_scroll),
            ListId::ObjectLeakSuspects => (self.obj_leak_sel, self.obj_leak_scroll),
            ListId::Waste => (self.waste_sel, self.waste_scroll),
            ListId::DomTree => (self.dom_sel, self.dom_scroll),
            ListId::Query => (self.query.sel, self.query.scroll),
            ListId::Fields => (self.inspector.field_sel, self.inspector.field_scroll),
            ListId::Referrers => (self.inspector.ref_sel, self.inspector.ref_scroll),
            ListId::GcPath => (self.inspector.gc_sel, self.inspector.gc_scroll),
        }
    }

    /// Number of rows of a list.
    pub open spec fn list_len(self, l: ListId) -> nat {
        match l {
            ListId::Histogram => self.counts.histogram as nat,
            ListId::Retained => self.counts.histogram as nat,
            ListId::LeakSuspects => self.counts.leak_suspects as nat,
            ListId::ObjectLeakSuspects => self.counts.object_leak_suspects as nat,
            ListId::Waste => waste_len(self.counts, self.waste_sub) as nat,
            ListId::DomTree => self.dom_children@.len(),
            ListId::Query => self.query.rows@.len(),
            ListId::Fields => self.inspector.fields@.len(),
            ListId::Referrers => self.inspector.referrers@.len(),
            ListId::GcPath => self.inspector.gc_path@.len(),
        }
    }

    /// The app with the selection and scroll offset of list `l` set to `p`.
    pub open spec fn with_list_pos(self, l: ListId, p: (usize, usize)) -> App {
        match l {
            ListId::Histogram => App { hist_sel: p.0, hist_scroll: p.1, ..self },
            ListId::Retained => App { ret_sel: p.0, ret_scroll: p.1, ..self },
            ListId::LeakSuspects => App { leak_sel: p.0, leak_scroll: p.1, ..self },
            ListId::ObjectLeakSuspects => App { obj_leak_sel: p.0, obj_leak_scroll: p.1, ..self },
            ListId::Waste => App { waste_sel: p.0, waste_scroll: p.1, ..self },
            ListId::DomTree => App { dom_sel: p.0, dom_scroll: p.1, ..self },
            ListId::Query => App { query: QueryState { sel: p.0, scroll: p.1, ..self.query }, ..self },
            ListId::Fields => App {
                inspector: InspectorState { field_sel: p.0, field_scroll: p.1, ..self.inspector },
                ..self
            },
            ListId::Referrers => App {
                inspector: InspectorState { ref_sel: p.0, ref_scroll: p.1, ..self.inspector },
                ..self
            },
            ListId::GcPath => App {
                inspector: InspectorState { gc_sel: p.0, gc_scroll: p.1, ..self.inspector },
                ..self
            },
        }
    }

    /// The app after one press of the down key.
    pub open spec fn scrolled_down(self) -> App {
        match self.active_list() {
            Some(l) => self.with_list_pos(l, sel_dn_spec(self.list_pos(l), self.list_len(l))),
            None => self,
        }
    }

    /// The app after one press of the up key.
    pub open spec fn scrolled_up(self) -> App {
        match self.active_list() {
            Some(l) => self.with_list_pos(l, sel_up_spec(self.list_pos(l))),
            None => self,
        }
    }

    /// The app with the current tab's list at its first row.
    pub open spec fn at_top(self) -> App {
        match self.active_list() {
            Some(l) => self.with_list_pos(l, (0, 0)),
            None => self,
        }
    }

    /// Moving down in the current list cannot overflow.
    pub open spec fn scroll_fits(self) -> bool {
        match self.active_list() {
            Some(l) => sel_dn_fits(self.list_pos(l), self.list_len(l)),
            None => true,
        }
    }
}

/// Rows of waste sub-table `sub`.
pub open spec fn waste_len(c: HeapCounts, sub: usize) -> usize {
    if sub == 0 {
        c.duplicate_strings
    } else if sub == 1 {
        c.empty_collections
    } else if sub == 2 {
        c.over_allocated
    } else if sub == 3 {
        c.boxed_primitives
    } else {
        0
    }
}

impl App {
    /// Rows of the waste sub-table shown.
    pub fn waste_sub_len(&self) -> (n: usize)
        ensures
            n == waste_len(self.counts, self.waste_sub),
    {
        match self.waste_sub {
            0 => self.counts.duplicate_strings,
            1 => self.counts.empty_collections,
            2 => self.counts.over_allocated,
            3 => self.counts.boxed_primitives,
            _ => 0,
        }
    }

    /// Rows of waste sub-table `sub`.
    fn waste_count(&self, sub: usize) -> (n: usize)
        ensures
            n == waste_len(self.counts, sub),
    {
        match sub {
            0 => self.counts.duplicate_strings,
            1 => self.counts.empty_collections,
            2 => self.counts.over_allocated,
            3 => self.counts.boxed_primitives,
            _ => 0,
        }
    }

    fn insp_scroll_dn(&mut self)
        requires
            old(self).active_tab == Tab::Inspector,
            old(self).scroll_fits(),
        ensures
            *final(self) == old(self).scrolled_down(),
    {
        match self.inspector.focus {
            InspectorFocus::Fields => {
                let n = self.inspector.fields.len();
                sel_dn(&mut self.inspector.field_sel, &mut self.inspector.field_scroll, n);
            },
            InspectorFocus::Referrers => {
                let n = self.inspector.referrers.len();
                sel_dn(&mut self.inspector.ref_sel, &mut self.inspector.ref_scroll, n);
            },
            InspectorFocus::GcPath => {
                let n = self.inspector.gc_path.len();
                sel_dn(&mut self.inspector.gc_sel, &mut self.inspector.gc_scroll, n);
            },
            _ => {},
        }
    }

    fn insp_scroll_up(&mut self)
        requires
            old(self).active_tab == Tab::Inspector,
        ensures
            *final(self) == old(self).scrolled_up(),
    {
        match self.inspector.focus {
            InspectorFocus::Fields => sel_up(&mut self.inspector.field_sel, &mut self.inspector.field_scroll),
            InspectorFocus::Referrers => sel_up(&mut self.inspector.ref_sel, &mut self.inspector.ref_scroll),
            InspectorFocus::GcPath => sel_up(&mut self.inspector.gc_sel, &mut self.inspector.gc_scroll),
            _ => {},
        }
    }

    /// Moves the selection of the current tab's list down one row.
    pub fn scroll_down(&mut self)
        requires
            old(self).scroll_fits(),
        ensures
            *final(self) == old(self).scrolled_down(),
    {
        match self.active_tab {
            Tab::Histogram => {
                let n = self.counts.histogram;
                sel_dn(&mut self.hist_sel, &mut self.hist_scroll, n);
            },
            Tab::Retained => {
                let n = self.counts.histogram;
                sel_dn(&mut self.ret_sel, &mut self.ret_scroll, n);
            },
            Tab::LeakSuspects => {
                if self.leak_show_objects {
                    let n = self.counts.object_leak_suspects;
                    sel_dn(&mut self.obj_leak_sel, &mut self.obj_leak_scroll, n);
                } else {
                    let n = self.counts.leak_suspects;
                    sel_dn(&mut self.leak_sel, &mut self.leak_scroll, n);
                }
            },
            Tab::Waste => {
                let n = self.waste_sub_len();
                sel_dn(&mut self.waste_sel, &mut self.waste_scroll, n);
            },
            Tab::DomTree => {
                let n = self.dom_children.len();
                sel_dn(&mut self.dom_sel, &mut self.dom_scroll, n);
            },
            Tab::Query => {
                let n = self.query.rows.len();
                sel_dn(&mut self.query.sel, &mut self.query.scroll, n);
            },
            Tab::Inspector => self.insp_scroll_dn(),
            _ => {},
        }
    }

    /// Moves the selection of the current tab's list up one row.
    pub fn scroll_up(&mut self)
        ensures
            *final(self) == old(self).scrolled_up(),
    {
        match self.active_tab {
            Tab::Histogram => sel_up(&mut self.hist_sel, &mut self.hist_scroll),
            Tab::Retained => sel_up(&mut self.ret_sel, &mut self.ret_scroll),
            Tab::LeakSuspects => {
                if self.leak_show_objects {
                    sel_up(&mut self.obj_leak_sel, &mut self.obj_leak_scroll)
                } else {
                    sel_up(&mut self.leak_sel, &mut self.leak_scroll)
                }
            },
            Tab::Waste => sel_up(&mut self.waste_sel, &mut self.waste_scroll),
            Tab::DomTree => sel_up(&mut self.dom_sel, &mut self.dom_scroll),
            Tab::Query => sel_up(&mut self.query.sel, &mut self.query.scroll),
            Tab::Inspector => self.insp_scroll_up(),
            _ => {},
        }
    }
}


/// The inspector panel that follows `f` when cycling with 'p'.
pub open spec fn next_focus(f: InspectorFocus) -> InspectorFocus {
    match f {
        InspectorFocus::Input => InspectorFocus::Fields,
        InspectorFocus::Fields => InspectorFocus::Referrers,
        InspectorFocus::Referrers => InspectorFocus::GcPath,
        InspectorFocus::GcPath => InspectorFocus::Fields,
    }
}

/// Label of waste sub-table `sub` (below 4).
pub open spec fn waste_label(sub: usize) -> Seq<char> {
    if sub == 0 {
        "Duplicate Strings"@
    } else if sub == 1 {
        "Empty Collections"@
    } else if sub == 2 {
        "Over-Allocated"@
    } else {
        "Boxed Primitives"@
    }
}

/// Status line after switching to waste sub-table `sub` with `n` rows.
pub open spec fn waste_status(sub: usize, n: nat) -> Seq<char> {
    "Waste: "@ + waste_label(sub) + " — "@ + dec_text(n) + " group"@ + if n == 1 { ""@ } else { "s"@ }
}

impl App {
    /// The app after `k` presses of the down key.
    pub open spec fn scrolled_down_n(self, k: nat) -> App
        decreases k,
    {
        if k == 0 {
            self
        } else {
            self.scrolled_down_n((k - 1) as nat).scrolled_down()
        }
    }

    /// None of the first `k` presses of the down key overflows.
    pub open spec fn page_fits(self, k: nat) -> bool {
        forall|j: nat| j < k ==> (#[trigger] self.scrolled_down_n(j)).scroll_fits()
    }

    /// The app after one press of the up key, `k` times.
    pub open spec fn scrolled_up_n(self, k: nat) -> App
        decreases k,
    {
        if k == 0 {
            self
        } else {
            self.scrolled_up_n((k - 1) as nat).scrolled_up()
        }
    }

    pub fn next_tab(&mut self)
        ensures
            *final(self) == (App { active_tab: tab_at((tab_index(old(self).active_tab) + 1) % 9), ..*old(self) }),
    {
        let i = self.active_tab.index();
        self.active_tab = Tab::from_index((i + 1) % TAB_COUNT);
    }

    pub fn prev_tab(&mut self)
        ensures
            *final(self) == (App { active_tab: tab_at((tab_index(old(self).active_tab) + 8) % 9), ..*old(self) }),
    {
        let i = self.active_tab.index();
        self.active_tab = Tab::from_index((i + TAB_COUNT - 1) % TAB_COUNT);
    }

    /// Moves the selection down ten rows.
    pub fn page_down(&mut self)
        requires
            old(self).page_fits(10),
        ensures
            *final(self) == old(self).scrolled_down_n(10),
    {
        let ghost start = *self;
        let mut i: usize = 0;
        while i < 10
            invariant
                i <= 10,
                start.page_fits(10),
                *self == start.scrolled_down_n(i as nat),
            decreases 10 - i,
        {
            assert(start.scrolled_down_n(i as nat).scroll_fits());
            self.scroll_down();
            i = i + 1;
        }
    }

    /// Moves the selection up ten rows.
    pub fn page_up(&mut self)
        ensures
            *final(self) == old(self).scrolled_up_n(10),
    {
        let ghost start = *self;
        let mut i: usize = 0;
        while i < 10
            invariant
                i <= 10,
                *self == start.scrolled_up_n(i as nat),
            decreases 10 - i,
        {
            self.scroll_up();
            i = i + 1;
        }
    }

    /// Selects the first row of the current tab's list.
    pub fn go_top(&mut self)
        ensures
            *final(self) == old(self).at_top(),
    {
        match self.active_tab {
            Tab::Histogram => {
                self.hist_sel = 0;
                self.hist_scroll = 0;
            },
            Tab::Retained => {
                self.ret_sel = 0;
                self.ret_scroll = 0;
            },
            Tab::LeakSuspects => {
                if self.leak_show_objects {
                    self.obj_leak_sel = 0;
                    self.obj_leak_scroll = 0;
                } else {
                    self.leak_sel = 0;
                    self.leak_scroll = 0;
                }
            },
            Tab::Waste => {
                self.waste_sel = 0;
                self.waste_scroll = 0;
            },
            Tab::DomTree => {
                self.dom_sel = 0;
                self.dom_scroll = 0;
            },
            Tab::Query => {
                self.query.sel = 0;
                self.query.scroll = 0;
            },
            Tab::Inspector => match self.inspector.focus {
                InspectorFocus::Fields => {
                    self.inspector.field_sel = 0;
                    self.inspector.field_scroll = 0;
                },
                InspectorFocus::Referrers => {
                    self.inspector.ref_sel = 0;
                    self.inspector.ref_scroll = 0;
                },
                InspectorFocus::GcPath => {
                    self.inspector.gc_sel = 0;
                    self.inspector.gc_scroll = 0;
                },
                _ => {},
            },
            _ => {},
        }
    }

    /// Moves the inspector's focus to the next panel.
    pub fn inspector_cycle_panel(&mut self)
        ensures
            *final(self) == (App {
                inspector: InspectorState { focus: next_focus(old(self).inspector.focus), ..old(self).inspector },
                ..*old(self)
            }),
    {
        self.inspector.focus = match self.inspector.focus {
            InspectorFocus::Input => InspectorFocus::Fields,
            InspectorFocus::Fields => InspectorFocus::Referrers,
            InspectorFocus::Referrers => InspectorFocus::GcPath,
            InspectorFocus::GcPath => InspectorFocus::Fields,
        };
    }

    /// Switches the histogram between retained and shallow order.
    pub fn toggle_hist_sort(&mut self)
        ensures
            hist_sort_toggled(*old(self), *final(self)),

    {
        self.hist_sort_retained = !self.hist_sort_retained;
        self.hist_sel = 0;
        self.hist_scroll = 0;
        self.status = Some(
            if self.hist_sort_retained {
                String::from_str("Sorted by retained size")
            } else {
                String::from_str("Sorted by shallow size")
            },
        );
    }

    /// Switches the leak suspects between class and object level.
    pub fn toggle_leak_view(&mut self)
        ensures
            leak_view_toggled(*old(self), *final(self)),

    {
        self.leak_show_objects = !self.leak_show_objects;
        self.obj_leak_sel = 0;
        self.obj_leak_scroll = 0;
        self.status = Some(
            if self.leak_show_objects {
                String::from_str("Showing object-level suspects  [s] toggle back to class view")
            } else {
                String::from_str("Showing class-level suspects  [s] toggle to object view")
            },
        );
    }

    /// Shows the next waste sub-table, wrapping after the last.
    pub fn waste_cycle_sub(&mut self)
        ensures
            waste_cycled(*old(self), *final(self)),
    {
        let start = self.waste_sub;
        let mut next = start;
        let mut i: usize = 1;
        while i <= 4
            invariant
                1 <= i <= 5,
                start == self.waste_sub,
                next == waste_search(self.counts, start, (i - 1) as nat),
            decreases 5 - i,
        {
            let cand = (start % 4 + i) % 4;
            assert(cand == (start + i) % 4);
            if next == start && self.waste_count(cand) > 0 {
                next = cand;
            }
            proof {
                assert(waste_search(self.counts, start, i as nat) == if waste_search(self.counts, start, (i - 1) as nat) != start {
                    waste_search(self.counts, start, (i - 1) as nat)
                } else if waste_len(self.counts, ((start + i) % 4) as usize) > 0 {
                    ((start + i) % 4) as usize
                } else {
                    start
                });
            }
            i = i + 1;
        }
        self.waste_sub = next;
        self.waste_sel = 0;
        self.waste_scroll = 0;
        let n = self.waste_sub_len();
        let mut m = String::from_str("Waste: ");
        let label = if self.waste_sub == 0 {
            "Duplicate Strings"
        } else if self.waste_sub == 1 {
            "Empty Collections"
        } else if self.waste_sub == 2 {
            "Over-Allocated"
        } else {
            "Boxed Primitives"
        };
        push_str(&mut m, label);
        push_str(&mut m, " — ");
        push_radix(&mut m, n as u64, 10);
        push_str(&mut m, " group");
        push_str(&mut m, if n == 1 { "" } else { "s" });
        proof {
            assert(m@ =~= waste_status(self.waste_sub, n as nat));
        }
        self.status = Some(m);
    }
}


/// The breadcrumb of a drill-down stack: the roots, then each label.
pub open spec fn crumbs(stack: Seq<(u64, String, usize)>) -> Seq<char>
    decreases stack.len(),
{
    if stack.len() == 0 {
        "<GC roots>"@
    } else {
        crumbs(stack.drop_last()) + " › "@ + shorten_spec(stack.last().1@, 28)
    }
}

/// Every label of the stack can be shortened to `max` bytes.
pub open spec fn labels_shortenable(stack: Seq<(u64, String, usize)>, max: nat) -> bool {
    forall|i: int| 0 <= i < stack.len() ==> shorten_ok(#[trigger] stack[i].1@, max)
}

/// Position in the query history after moving to an older (`older`) or newer entry.
pub open spec fn history_step(idx: Option<usize>, len: nat, older: bool) -> Option<usize> {
    match idx {
        None => if older { Some((len - 1) as usize) } else { None },
        Some(i) => if older {
            Some(if i > 0 { (i - 1) as usize } else { 0 })
        } else if i + 1 < len {
            Some((i + 1) as usize)
        } else {
            None
        },
    }
}

impl App {
    /// The drill-down path shown above the dominator tree.
    pub fn dom_breadcrumb(&self) -> (s: String)
        requires
            labels_shortenable(self.dom_stack@, 28),
        ensures
            s@ == crumbs(self.dom_stack@),
    {
        let mut s = String::from_str("<GC roots>");
        let mut i: usize = 0;
        proof {
            assert(self.dom_stack@.take(0) =~= Seq::<(u64, String, usize)>::empty());
        }
        while i < self.dom_stack.len()
            invariant
                i <= self.dom_stack@.len(),
                labels_shortenable(self.dom_stack@, 28),
                s@ == crumbs(self.dom_stack@.take(i as int)),
            decreases self.dom_stack@.len() - i,
        {
            push_str(&mut s, " › ");
            let short = shorten(self.dom_stack[i].1.as_str(), 28);
            push_str(&mut s, short.as_str());
            proof {
                let t = self.dom_stack@.take(i + 1);
                assert(t.drop_last() =~= self.dom_stack@.take(i as int));
                assert(t.last() == self.dom_stack@[i as int]);
            }
            i = i + 1;
        }
        proof {
            assert(self.dom_stack@.take(i as int) =~= self.dom_stack@);
        }
        s
    }

    /// Recalls an older (`older`) or newer query from the history into the input.
    pub fn query_history_nav(&mut self, older: bool)
        requires
            older && old(self).query.history@.len() > 0 ==> match old(self).query.history_idx {
                Some(i) => (if i > 0 { i - 1 } else { 0 }) < old(self).query.history@.len(),
                None => true,
            },
            !older && old(self).query.history@.len() > 0 ==> match old(self).query.history_idx {
                Some(i) => i < usize::MAX,
                None => true,
            },
        ensures
            history_moved(*old(self), *final(self), older),

    {
        let len = self.query.history.len();
        if len == 0 {
            return;
        }
        let new_idx = match self.query.history_idx {
            None => if older { Some(len - 1) } else { None },
            Some(i) => {
                if older {
                    Some(if i > 0 { i - 1 } else { 0 })
                } else if i + 1 < len {
                    Some(i + 1)
                } else {
                    None
                }
            },
        };
        self.query.history_idx = new_idx;
        if let Some(i) = new_idx {
            self.query.input = self.query.history[i].clone();
            self.query.cursor = self.query.input.as_str().len();
        }
    }
}


/// The label of a dominator-tree node: its class name, or its node type
/// when it has none.
pub open spec fn node_label(o: ObjectReport) -> String {
    if o.class_name@.len() == 0 {
        o.node_type
    } else {
        o.class_name
    }
}

pub open spec fn leaf_status(label: Seq<char>) -> Seq<char> {
    "'"@ + shorten_spec(label, 40) + "' is a leaf — no dominator children"@
}

pub open spec fn drilled_status(label: Seq<char>, n: nat) -> Seq<char> {
    "Drilled into '"@ + shorten_spec(label, 40) + "' — "@ + dec_text(n) + " children"@
}

pub open spec fn back_status(label: Seq<char>) -> Seq<char> {
    "Back from '"@ + shorten_spec(label, 40) + "'"@
}

/// The object whose dominator children drilling out of `stack` shows: the
/// one below the top, or the roots (id 0).
pub open spec fn drill_out_parent(stack: Seq<(u64, String, usize)>) -> u64 {
    if stack.len() >= 2 {
        stack[stack.len() - 2].0
    } else {
        0
    }
}

impl App {
    /// The label of the selected dominator-tree node can be shortened.
    pub open spec fn dom_selection_ok(self) -> bool {
        self.dom_sel < self.dom_children@.len() ==> shorten_ok(node_label(self.dom_children@[self.dom_sel as int])@, 40)
    }

    /// The object whose children drilling in needs, if a node is selected.
    pub fn dom_drill_target(&self) -> (r: Option<u64>)
        ensures
            r == if self.dom_sel < self.dom_children@.len() {
                Some(self.dom_children@[self.dom_sel as int].object_id)
            } else {
                None
            },
    {
        if self.dom_sel < self.dom_children.len() {
            Some(self.dom_children[self.dom_sel].object_id)
        } else {
            None
        }
    }

    /// Drills into the selected node, given its dominator children (`None`
    /// for a leaf).
    pub fn dom_drill_in(&mut self, children: Option<Vec<ObjectReport>>)
        requires
            old(self).dom_selection_ok(),
        ensures
            drilled_in(*old(self), *final(self), children),

    {
        if self.dom_sel >= self.dom_children.len() {
            return;
        }
        let child = &self.dom_children[self.dom_sel];
        let oid = child.object_id;
        let label = if child.class_name.as_str().is_empty() {
            child.node_type.clone()
        } else {
            child.class_name.clone()
        };
        let short = shorten(label.as_str(), 40);
        match children {
            None => {
                let mut m = String::from_str("'");
                push_str(&mut m, short.as_str());
                push_str(&mut m, "' is a leaf — no dominator children");
                self.status = Some(m);
            },
            Some(ch) => {
                let sel = self.dom_sel;
                self.dom_stack.push((oid, label, sel));
                self.dom_children = ch;
                self.dom_sel = 0;
                self.dom_scroll = 0;
                let mut m = String::from_str("Drilled into '");
                push_str(&mut m, short.as_str());
                push_str(&mut m, "' — ");
                push_radix(&mut m, self.dom_children.len() as u64, 10);
                push_str(&mut m, " children");
                self.status = Some(m);
            },
        }
    }

    /// The object whose children drilling out needs, unless already at the roots.
    pub fn dom_drill_out_target(&self) -> (r: Option<u64>)
        ensures
            r == if self.dom_stack@.len() == 0 {
                None::<u64>
            } else {
                Some(drill_out_parent(self.dom_stack@))
            },
    {
        let n = self.dom_stack.len();
        if n == 0 {
            None
        } else if n >= 2 {
            Some(self.dom_stack[n - 2].0)
        } else {
            Some(0)
        }
    }

    /// Goes back to the parent level, given the dominator children of the
    /// parent (`None` when it has none).
    pub fn dom_drill_out(&mut self, parent_children: Option<Vec<ObjectReport>>)
        requires
            old(self).dom_stack@.len() > 0 ==> shorten_ok(old(self).dom_stack@.last().1@, 40),
        ensures
            drilled_out(*old(self), *final(self), parent_children),

    {
        if self.dom_stack.len() == 0 {
            self.status = Some(String::from_str("Already at root"));
            return;
        }
        match self.dom_stack.pop() {
            None => {},
            Some((_, label, saved_sel)) => {
                self.dom_children = match parent_children {
                    Some(v) => v,
                    None => Vec::new(),
                };
                self.dom_sel = saved_sel;
                self.dom_scroll = saved_sel.saturating_sub(VISIBLE / 2);
                let short = shorten(label.as_str(), 40);
                let mut m = String::from_str("Back from '");
                push_str(&mut m, short.as_str());
                push_str(&mut m, "'");
                self.status = Some(m);
            },
        }
    }
}


/// What the engine reports about a loaded object.
pub struct LoadedObject {
    pub report: ObjectReport,
    pub fields: Vec<FieldInfo>,
    pub referrers: Vec<ObjectReport>,
    pub gc_path: Vec<ObjectReport>,
}

/// Result of a HeapQL query.
pub struct QueryTable {
    pub columns: Vec<String>,
    pub rows: Vec<Vec<String>>,
    /// Summary of the run (matched and scanned rows, time taken).
    pub stats: String,
}

pub open spec fn bad_id_message(raw: Seq<char>) -> Seq<char> {
    "'"@ + raw + "' is not a valid object ID (decimal or 0x hex)"@
}

pub open spec fn not_found_message(oid: u64) -> Seq<char> {
    "Object 0x"@ + hex_text(oid as nat) + " not found in heap"@
}

pub open spec fn inspecting_status(class: Seq<char>, oid: u64, nf: nat, nr: nat, ng: nat) -> Seq<char> {
    "Inspecting "@ + class + " 0x"@ + hex_text(oid as nat) + "  —  "@ + dec_text(nf) + " fields · "@ + dec_text(nr)
        + " referrers · GC path depth "@ + dec_text(ng)
}

/// "0x" and the lower-case hex digits of `id`.
pub open spec fn hex_id(id: u64) -> Seq<char> {
    "0x"@ + hex_text(id as nat)
}

fn hex_id_string(id: u64) -> (s: String)
    ensures
        s@ == hex_id(id),
{
    let mut s = String::from_str("0x");
    push_radix(&mut s, id, 16);
    s
}

impl App {
    /// First step of loading the object typed in the inspector: reads the id
    /// (decimal, or hex after "0x"), and reports a malformed one.
    pub fn inspector_begin_load(&mut self) -> (r: Option<u64>)
        ensures
            load_begun(*old(self), *final(self), r),

    {
        self.inspector.error = None;
        let raw = trim_string(self.inspector.input.as_str());
        let id = parse_object_id(raw.as_str());
        if id.is_none() {
            let mut m = String::from_str("'");
            push_str(&mut m, raw.as_str());
            push_str(&mut m, "' is not a valid object ID (decimal or 0x hex)");
            self.inspector.error = Some(m);
        }
        id
    }

    /// Second step of loading an object: shows what the engine found for
    /// `oid` (`None` if it is not in the heap).
    pub fn inspector_finish_load(&mut self, oid: u64, found: Option<LoadedObject>)
        ensures
            match found {
                None => {
                    &&& *final(self) == (App {
                        inspector: InspectorState { error: final(self).inspector.error, ..old(self).inspector },
                        ..*old(self)
                    })
                    &&& final(self).inspector.error matches Some(e) && e@ == not_found_message(oid)
                },
                Some(o) => {
                    &&& *final(self) == (App {
                        inspector: InspectorState {
                            current: final(self).inspector.current,
                            fields: o.fields,
                            field_sel: 0,
                            field_scroll: 0,
                            referrers: o.referrers,
                            ref_sel: 0,
                            ref_scroll: 0,
                            gc_path: o.gc_path,
                            gc_sel: 0,
                            gc_scroll: 0,
                            focus: InspectorFocus::Fields,
                            ..old(self).inspector
                        },
                        status: final(self).status,
                        ..*old(self)
                    })
                    &&& final(self).inspector.current == Some(
                        InspectorEntry {
                            object_id: o.report.object_id,
                            class_name: o.report.class_name,
                            node_type: o.report.node_type,
                            shallow_size: o.report.shallow_size,
                            retained_size: o.report.retained_size,
                        },
                    )
                    &&& final(self).status matches Some(m) && m@ == inspecting_status(
                        o.report.class_name@,
                        oid,
                        o.fields@.len(),
                        o.referrers@.len(),
                        o.gc_path@.len(),
                    )
                },
            },
    {
        match found {
            None => {
                let mut m = String::from_str("Object 0x");
                push_radix(&mut m, oid, 16);
                push_str(&mut m, " not found in heap");
                self.inspector.error = Some(m);
            },
            Some(o) => {
                let mut m = String::from_str("Inspecting ");
                push_str(&mut m, o.report.class_name.as_str());
                push_str(&mut m, " 0x");
                push_radix(&mut m, oid, 16);
                push_str(&mut m, "  —  ");
                push_radix(&mut m, o.fields.len() as u64, 10);
                push_str(&mut m, " fields · ");
                push_radix(&mut m, o.referrers.len() as u64, 10);
                push_str(&mut m, " referrers · GC path depth ");
                push_radix(&mut m, o.gc_path.len() as u64, 10);
                let r = o.report;
                self.inspector.current = Some(
                    InspectorEntry {
                        object_id: r.object_id,
                        class_name: r.class_name,
                        node_type: r.node_type,
                        shallow_size: r.shallow_size,
                        retained_size: r.retained_size,
                    },
                );
                self.inspector.fields = o.fields;
                self.inspector.referrers = o.referrers;
                self.inspector.gc_path = o.gc_path;
                self.inspector.field_sel = 0;
                self.inspector.field_scroll = 0;
                self.inspector.ref_sel = 0;
                self.inspector.ref_scroll = 0;
                self.inspector.gc_sel = 0;
                self.inspector.gc_scroll = 0;
                self.inspector.focus = InspectorFocus::Fields;
                self.status = Some(m);
            },
        }
    }

    /// Opens the selected dominator-tree node in the inspector; returns the
    /// id to load, or `None` when nothing is selected.
    pub fn inspect_dom_selection(&mut self) -> (r: Option<u64>)
        ensures
            dom_selection_inspected(*old(self), *final(self), r),

    {
        if self.dom_sel >= self.dom_children.len() {
            return None;
        }
        let oid = self.dom_children[self.dom_sel].object_id;
        self.inspector.input = hex_id_string(oid);
        self.inspector.cursor = self.inspector.input.as_str().len();
        self.inspector.mode = InputMode::Normal;
        self.active_tab = Tab::Inspector;
        proof {
            lemma_hex_id_is_trimmed(oid);
            lemma_hex_id_round_trip(oid);
        }
        self.inspector_begin_load()
    }

    /// Enter on a field, referrer or GC-path row: loads the object it points
    /// to; returns the id to load.
    pub fn inspector_enter_selection(&mut self) -> (r: Option<u64>)
        ensures
            selection_entered(*old(self), *final(self), r),

    {
        let oid = match self.inspector.focus {
            InspectorFocus::Fields => {
                if self.inspector.field_sel < self.inspector.fields.len() {
                    self.inspector.fields[self.inspector.field_sel].ref_object_id
                } else {
                    None
                }
            },
            InspectorFocus::Referrers => {
                if self.inspector.ref_sel < self.inspector.referrers.len() {
                    Some(self.inspector.referrers[self.inspector.ref_sel].object_id)
                } else {
                    None
                }
            },
            InspectorFocus::GcPath => {
                if self.inspector.gc_sel < self.inspector.gc_path.len() {
                    Some(self.inspector.gc_path[self.inspector.gc_sel].object_id)
                } else {
                    None
                }
            },
            _ => None,
        };
        if let Some(id) = oid {
            if id > 0 {
                self.inspector.input = hex_id_string(id);
                self.inspector.cursor = self.inspector.input.as_str().len();
                proof {
                    lemma_hex_id_is_trimmed(id);
                    lemma_hex_id_round_trip(id);
                }
                self.inspector_begin_load()
            } else {
                self.status = Some(String::from_str("null reference — nothing to navigate to"));
                None
            }
        } else {
            self.status = Some(String::from_str("Selected field is a primitive — no object to navigate to"));
            None
        }
    }
}

/// The object id under the inspector's selection: the target of the selected
/// reference field, or the selected referrer or GC-path object.
pub open spec fn selected_target(a: App) -> Option<u64> {
    let i = a.inspector;
    match i.focus {
        InspectorFocus::Fields => if i.field_sel < i.fields@.len() {
            i.fields@[i.field_sel as int].ref_object_id
        } else {
            None
        },
        InspectorFocus::Referrers => if i.ref_sel < i.referrers@.len() {
            Some(i.referrers@[i.ref_sel as int].object_id)
        } else {
            None
        },
        InspectorFocus::GcPath => if i.gc_sel < i.gc_path@.len() {
            Some(i.gc_path@[i.gc_sel as int].object_id)
        } else {
            None
        },
        InspectorFocus::Input => None,
    }
}

proof fn lemma_hex_id_is_trimmed(id: u64)
    ensures
        trim(hex_id(id)) == hex_id(id),
{
    reveal_strlit("0x");
    let s = hex_id(id);
    assert(s[0] == '0');
    assert(crate::objid::trim_start(s) == s);
    lemma_hex_last_digit(id as nat);
    assert(s.last() == hex_text(id as nat).last());
    assert(crate::objid::trim_end(s) == s);
}

proof fn lemma_hex_last_digit(n: nat)
    ensures
        hex_text(n).len() > 0,
        !crate::objid::is_ws(hex_text(n).last()),
    decreases n,
{
    let d = n % 16;
    assert(hex_text(n).last() == crate::text::digit_char(d));
    let c = crate::text::digit_char(d);
    if d < 10 {
        assert(c as u32 == 48 + d);
    } else {
        assert(c as u32 == 87 + d);
    }
}


/// The history after running query `q`: `q` is appended unless it repeats
/// the last entry.
pub open spec fn history_after(h: Seq<String>, q: Seq<char>) -> Seq<Seq<char>> {
    let v = h.map_values(|s: String| s@);
    if v.len() > 0 && v.last() == q {
        v
    } else {
        v.push(q)
    }
}

pub open spec fn rows_status(n: nat) -> Seq<char> {
    "HeapQL: "@ + dec_text(n) + " rows"@
}

pub open spec fn query_error_status(e: Seq<char>) -> Seq<char> {
    "HeapQL error: "@ + e
}

impl App {
    /// First step of running the query typed in the HeapQL tab: returns the
    /// trimmed query to run, or `None` (changing nothing) when it is empty.
    pub fn query_begin(&mut self) -> (r: Option<String>)
        ensures
            query_begun(*old(self), *final(self), r),

    {
        let q = trim_string(self.query.input.as_str());
        if q.as_str().is_empty() {
            return None;
        }
        let n = self.query.history.len();
        let repeat = n > 0 && self.query.history[n - 1] == q;
        let ghost h0 = self.query.history@;
        if !repeat {
            self.query.history.push(q.clone());
        }
        proof {
            let v0 = h0.map_values(|s: String| s@);
            if repeat {
                assert(v0.last() == q@);
            } else {
                assert(self.query.history@.map_values(|s: String| s@) =~= v0.push(q@));
            }
        }
        self.query.history_idx = None;
        self.query.sel = 0;
        self.query.scroll = 0;
        self.query.error = None;
        Some(q)
    }

    /// Second step of running a query: shows the engine's table, or its error.
    pub fn query_finish(&mut self, result: Result<QueryTable, String>)
        ensures
            match result {
                Ok(t) => {
                    &&& *final(self) == (App {
                        query: QueryState { columns: t.columns, rows: t.rows, stats: t.stats, ..old(self).query },
                        status: final(self).status,
                        ..*old(self)
                    })
                    &&& final(self).status matches Some(m) && m@ == rows_status(t.rows@.len())
                },
                Err(e) => {
                    &&& final(self).query.columns@.len() == 0
                    &&& final(self).query.rows@.len() == 0
                    &&& *final(self) == (App {
                        query: QueryState {
                            columns: final(self).query.columns,
                            rows: final(self).query.rows,
                            error: Some(e),
                            ..old(self).query
                        },
                        status: final(self).status,
                        ..*old(self)
                    })
                    &&& final(self).status matches Some(m) && m@ == query_error_status(e@)
                },
            },
    {
        match result {
            Ok(t) => {
                let mut m = String::from_str("HeapQL: ");
                push_radix(&mut m, t.rows.len() as u64, 10);
                push_str(&mut m, " rows");
                self.query.columns = t.columns;
                self.query.rows = t.rows;
                self.query.stats = t.stats;
                self.status = Some(m);
            },
            Err(e) => {
                let mut m = String::from_str("HeapQL error: ");
                push_str(&mut m, e.as_str());
                self.query.columns = Vec::new();
                self.query.rows = Vec::new();
                self.query.error = Some(e);
                self.status = Some(m);
            },
        }
    }

    /// A fresh app on the Overview tab for the dump at `path`, whose bytes
    /// the inspector keeps; the dominator tree starts at the children of the
    /// roots.
    pub fn new(
        path: &str,
        has_dominators: bool,
        counts: HeapCounts,
        root_children: Vec<ObjectReport>,
        hprof_bytes: Arc<Vec<u8>>,
    ) -> (a: App)
        ensures
            a.path@ == path@,
            a.has_dominators == has_dominators,
            a.counts == counts,
            a.active_tab == Tab::Overview,
            a.hist_sel == 0 && a.hist_scroll == 0 && a.hist_sort_retained,
            a.ret_sel == 0 && a.ret_scroll == 0,
            a.leak_sel == 0 && a.leak_scroll == 0,
            a.waste_sel == 0 && a.waste_scroll == 0 && a.waste_sub == 0,
            !a.leak_show_objects && a.obj_leak_sel == 0 && a.obj_leak_scroll == 0,
            a.dom_sel == 0 && a.dom_scroll == 0,
            a.dom_children == root_children,
            a.dom_stack@.len() == 0,
            a.query.input@ == "SELECT * FROM class_histogram LIMIT 20"@,
            a.query.mode == InputMode::Normal,
            a.query.cursor == 38,
            a.query.history@.len() == 0 && a.query.history_idx is None,
            a.query.rows@.len() == 0 && a.query.columns@.len() == 0 && a.query.error is None,
            a.query.sel == 0 && a.query.scroll == 0 && a.query.stats@ == Seq::<char>::empty(),
            a.inspector.input@.len() == 0 && a.inspector.cursor == 0,
            a.inspector.focus == InspectorFocus::Input && a.inspector.mode == InputMode::Normal,
            a.inspector.current is None && a.inspector.error is None,
            a.inspector.fields@.len() == 0 && a.inspector.field_sel == 0 && a.inspector.field_scroll == 0,
            a.inspector.referrers@.len() == 0 && a.inspector.ref_sel == 0 && a.inspector.ref_scroll == 0,
            a.inspector.gc_path@.len() == 0 && a.inspector.gc_sel == 0 && a.inspector.gc_scroll == 0,
            a.inspector.hprof_bytes == hprof_bytes,
            a.status is None,
    {
        App {
            path: String::from_str(path),
            has_dominators,
            counts,
            active_tab: Tab::Overview,
            hist_sel: 0,
            hist_scroll: 0,
            hist_sort_retained: true,
            ret_sel: 0,
            ret_scroll: 0,
            leak_sel: 0,
            leak_scroll: 0,
            waste_sel: 0,
            waste_scroll: 0,
            waste_sub: 0,
            leak_show_objects: false,
            obj_leak_sel: 0,
            obj_leak_scroll: 0,
            dom_sel: 0,
            dom_scroll: 0,
            dom_children: root_children,
            dom_stack: Vec::new(),
            query: QueryState::new(),
            inspector: InspectorState::new(hprof_bytes),
            status: None,
        }
    }
}

/// `r` lists `entries` ordered by `order` (a permutation of positions),
/// largest shallow size first, equal sizes in the order they came in.
pub open spec fn shallow_sorted(r: Seq<ClassHistogramEntry>, entries: Seq<ClassHistogramEntry>, order: Seq<int>) -> bool {
    &&& r.len() == entries.len()
    &&& order.len() == entries.len()
    &&& forall|k: int| 0 <= k < order.len() ==> 0 <= #[trigger] order[k] < entries.len()
    &&& forall|a: int, b: int| 0 <= a < b < order.len() ==> #[trigger] order[a] != #[trigger] order[b]
    &&& forall|k: int| 0 <= k < r.len() ==> #[trigger] r[k] == entries[order[k]]
    &&& forall|a: int, b: int|
        0 <= a < b < r.len() ==> (#[trigger] r[a]).shallow_size > (#[trigger] r[b]).shallow_size || (
        r[a].shallow_size == r[b].shallow_size && order[a] < order[b])
}

fn copy_entry(e: &ClassHistogramEntry) -> (c: ClassHistogramEntry)
    ensures
        c == *e,
{
    ClassHistogramEntry {
        class_name: e.class_name.clone(),
        instance_count: e.instance_count,
        shallow_size: e.shallow_size,
        retained_size: e.retained_size,
    }
}

impl App {
    /// The engine's histogram (ordered by retained size) as shown: reordered
    /// by shallow size when that order is selected.
    pub fn sorted_histogram(&self, entries: &Vec<ClassHistogramEntry>) -> (r: Vec<ClassHistogramEntry>)
        ensures
            self.hist_sort_retained ==> r@ == entries@,
            !self.hist_sort_retained ==> exists|order: Seq<int>| shallow_sorted(r@, entries@, order),
    {
        if self.hist_sort_retained {
            let mut r: Vec<ClassHistogramEntry> = Vec::new();
            let mut i: usize = 0;
            while i < entries.len()
                invariant
                    i <= entries@.len(),
                    r@ == entries@.take(i as int),
                decreases entries@.len() - i,
            {
                r.push(copy_entry(&entries[i]));
                i = i + 1;
                assert(r@ =~= entries@.take(i as int));
            }
            assert(entries@.take(i as int) =~= entries@);
            return r;
        }
        let mut pairs: Vec<(u64, usize)> = Vec::new();
        let mut i: usize = 0;
        while i < entries.len()
            invariant
                i <= entries@.len(),
                pairs@.len() == i,
                forall|q: int| 0 <= q < i ==> #[trigger] pairs@[q] == (entries@[q].shallow_size, q as usize),
            decreases entries@.len() - i,
        {
            pairs.push((entries[i].shallow_size, i));
            i = i + 1;
        }
        let sorted = crate::sort::sort_pairs_desc(&pairs);
        proof {
            assert forall|q: int| 0 <= q < sorted@.len() implies pairs@.contains(#[trigger] sorted@[q]) by {
                assert(sorted@.to_multiset().count(sorted@[q]) > 0);
            }
        }
        let mut r: Vec<ClassHistogramEntry> = Vec::new();
        let ghost mut order: Seq<int> = Seq::empty();
        let mut q: usize = 0;
        while q < sorted.len()
            invariant
                pairs@.len() == entries@.len(),
                forall|q: int| 0 <= q < pairs@.len() ==> #[trigger] pairs@[q] == (entries@[q].shallow_size, q as usize),
                forall|qq: int| 0 <= qq < sorted@.len() ==> pairs@.contains(#[trigger] sorted@[qq]),
                q <= sorted@.len(),
                r@.len() == q,
                order.len() == q,
                forall|k: int| 0 <= k < q ==> #[trigger] order[k] == sorted@[k].1 as int,
                forall|k: int| 0 <= k < q ==> 0 <= #[trigger] order[k] < entries@.len(),
                forall|k: int| 0 <= k < q ==> #[trigger] r@[k] == entries@[order[k]],
            decreases sorted@.len() - q,
        {
            let si = sorted[q].1;
            proof {
                let w = choose|w: int| 0 <= w < pairs@.len() && pairs@[w] == sorted@[q as int];
                assert(pairs@[w] == (entries@[w].shallow_size, w as usize));
            }
            r.push(copy_entry(&entries[si]));
            proof {
                order = order.push(si as int);
            }
            q = q + 1;
        }
        proof {
            assert forall|a: int, b: int| 0 <= a < b < order.len() implies #[trigger] order[a] != #[trigger] order[b] by {
                assert(crate::sort::pair_before(sorted@[a], sorted@[b]));
                let wa = choose|w: int| 0 <= w < pairs@.len() && pairs@[w] == sorted@[a];
                let wb = choose|w: int| 0 <= w < pairs@.len() && pairs@[w] == sorted@[b];
                assert(pairs@[wa] == (entries@[wa].shallow_size, wa as usize));
                assert(pairs@[wb] == (entries@[wb].shallow_size, wb as usize));
            }
            assert forall|a: int, b: int| 0 <= a < b < r@.len() implies (#[trigger] r@[a]).shallow_size > (
            #[trigger] r@[b]).shallow_size || (r@[a].shallow_size == r@[b].shallow_size && order[a] < order[b]) by {
                assert(crate::sort::pair_before(sorted@[a], sorted@[b]));
                let wa = choose|w: int| 0 <= w < pairs@.len() && pairs@[w] == sorted@[a];
                let wb = choose|w: int| 0 <= w < pairs@.len() && pairs@[w] == sorted@[b];
                assert(pairs@[wa] == (entries@[wa].shallow_size, wa as usize));
                assert(pairs@[wb] == (entries@[wb].shallow_size, wb as usize));
            }
            assert(shallow_sorted(r@, entries@, order));
        }
        r
    }
}


// ── What the key-driven steps do ────────────────────────────────────────────

pub open spec fn hist_sort_toggled(a: App, b: App) -> bool {
    &&& b == (App {
        hist_sort_retained: !a.hist_sort_retained,
        hist_sel: 0,
        hist_scroll: 0,
        status: b.status,
        ..a
    })
    &&& b.status matches Some(m) && m@ == if b.hist_sort_retained {
        "Sorted by retained size"@
    } else {
        "Sorted by shallow size"@
    }
}

pub open spec fn leak_view_toggled(a: App, b: App) -> bool {
    &&& b == (App {
        leak_show_objects: !a.leak_show_objects,
        obj_leak_sel: 0,
        obj_leak_scroll: 0,
        status: b.status,
        ..a
    })
    &&& b.status matches Some(m) && m@ == if b.leak_show_objects {
        "Showing object-level suspects  [s] toggle back to class view"@
    } else {
        "Showing class-level suspects  [s] toggle to object view"@
    }
}

/// The first of the next `k` waste sub-views after `sub` (wrapping) whose
/// list is non-empty; `sub` when there is none.
pub open spec fn waste_search(c: HeapCounts, sub: usize, k: nat) -> usize
    decreases k,
{
    if k == 0 {
        sub
    } else {
        let prev = waste_search(c, sub, (k - 1) as nat);
        if prev != sub {
            prev
        } else if waste_len(c, ((sub + k) % 4) as usize) > 0 {
            ((sub + k) % 4) as usize
        } else {
            sub
        }
    }
}

/// The next non-empty waste sub-view after `sub`, wrapping around; `sub` when
/// all four are empty.
pub open spec fn next_waste_sub(c: HeapCounts, sub: usize) -> usize {
    waste_search(c, sub, 4)
}

pub open spec fn waste_cycled(a: App, b: App) -> bool {
    &&& b == (App {
        waste_sub: next_waste_sub(a.counts, a.waste_sub),
        waste_sel: 0,
        waste_scroll: 0,
        status: b.status,
        ..a
    })
    &&& b.status matches Some(m) && m@ == waste_status(
        b.waste_sub,
        waste_len(b.counts, b.waste_sub) as nat,
    )
}

pub open spec fn history_moved(a: App, b: App, older: bool) -> bool {
    &&& a.query.history@.len() == 0 ==> b == a
    &&& a.query.history@.len() > 0 ==> {
        let idx = history_step(a.query.history_idx, a.query.history@.len(), older);
        &&& b.query.history_idx == idx
        &&& match idx {
            Some(i) => {
                &&& b.query.input@ == a.query.history@[i as int]@
                &&& b.query.cursor == utf8_len(b.query.input@) as usize
                &&& b == (App {
                    query: QueryState {
                        history_idx: idx,
                        input: b.query.input,
                        cursor: b.query.cursor,
                        ..a.query
                    },
                    ..a
                })
            },
            None => b == (App { query: QueryState { history_idx: None, ..a.query }, ..a }),
        }
    }
}

pub open spec fn load_begun(a: App, b: App, r: Option<u64>) -> bool {
    &&& r == object_id_spec(trim(a.inspector.input@))
    &&& r is Some ==> b == (App { inspector: InspectorState { error: None, ..a.inspector }, ..a })
    &&& r is None ==> {
        &&& b == (App {
            inspector: InspectorState { error: b.inspector.error, ..a.inspector },
            ..a
        })
        &&& b.inspector.error matches Some(e) && e@ == bad_id_message(trim(a.inspector.input@))
    }
}

pub open spec fn dom_selection_inspected(a: App, b: App, r: Option<u64>) -> bool {
    &&& a.dom_sel >= a.dom_children@.len() ==> r is None && b == a
    &&& a.dom_sel < a.dom_children@.len() ==> {
        let oid = a.dom_children@[a.dom_sel as int].object_id;
        &&& r == Some(oid)
        &&& b.inspector.input@ == hex_id(oid)
        &&& b == (App {
            active_tab: Tab::Inspector,
            inspector: InspectorState {
                input: b.inspector.input,
                cursor: utf8_len(hex_id(oid)) as usize,
                mode: InputMode::Normal,
                error: None,
                ..a.inspector
            },
            ..a
        })
    }
}

pub open spec fn selection_entered(a: App, b: App, r: Option<u64>) -> bool {
    &&& match selected_target(a) {
        Some(id) => if id > 0 {
            &&& r == Some(id)
            &&& b.inspector.input@ == hex_id(id)
            &&& b == (App {
                inspector: InspectorState {
                    input: b.inspector.input,
                    cursor: utf8_len(hex_id(id)) as usize,
                    error: None,
                    ..a.inspector
                },
                ..a
            })
        } else {
            &&& r is None
            &&& b == (App { status: b.status, ..a })
            &&& b.status matches Some(m) && m@ == "null reference — nothing to navigate to"@
        },
        None => {
            &&& r is None
            &&& b == (App { status: b.status, ..a })
            &&& b.status matches Some(m) && m@ == "Selected field is a primitive — no object to navigate to"@
        },
    }
}

pub open spec fn query_begun(a: App, b: App, r: Option<String>) -> bool {
    &&& trim(a.query.input@).len() == 0 ==> r is None && b == a
    &&& trim(a.query.input@).len() > 0 ==> {
        &&& r matches Some(q) && q@ == trim(a.query.input@)
        &&& b.query.history@.map_values(|s: String| s@) == history_after(
            a.query.history@,
            trim(a.query.input@),
        )
        &&& b == (App {
            query: QueryState {
                history: b.query.history,
                history_idx: None,
                sel: 0,
                scroll: 0,
                error: None,
                ..a.query
            },
            ..a
        })
    }
}


pub open spec fn drilled_in(a: App, b: App, children: Option<Vec<ObjectReport>>) -> bool {
    &&& a.dom_sel >= a.dom_children@.len() ==> b == a
    &&& a.dom_sel < a.dom_children@.len() ==> {
        let c = a.dom_children@[a.dom_sel as int];
        match children {
            None => {
                &&& b == (App { status: b.status, ..a })
                &&& b.status matches Some(m) && m@ == leaf_status(node_label(c)@)
            },
            Some(ch) => {
                &&& b == (App {
                    dom_stack: b.dom_stack,
                    dom_children: ch,
                    dom_sel: 0,
                    dom_scroll: 0,
                    status: b.status,
                    ..a
                })
                &&& b.dom_stack@ == a.dom_stack@.push((c.object_id, node_label(c), a.dom_sel))
                &&& b.status matches Some(m) && m@ == drilled_status(node_label(c)@, ch@.len())
            },
        }
    }
}

pub open spec fn drilled_out(a: App, b: App, parent_children: Option<Vec<ObjectReport>>) -> bool {
    &&& a.dom_stack@.len() == 0 ==> {
        &&& b == (App { status: b.status, ..a })
        &&& b.status matches Some(m) && m@ == "Already at root"@
    }
    &&& a.dom_stack@.len() > 0 ==> {
        let top = a.dom_stack@.last();
        &&& b == (App {
            dom_stack: b.dom_stack,
            dom_children: b.dom_children,
            dom_sel: top.2,
            dom_scroll: if top.2 >= 11 { (top.2 - 11) as usize } else { 0 },
            status: b.status,
            ..a
        })
        &&& b.dom_stack@ == a.dom_stack@.drop_last()
        &&& b.dom_children@ == match parent_children {
            Some(v) => v@,
            None => Seq::<ObjectReport>::empty(),
        }
        &&& b.status matches Some(m) && m@ == back_status(top.1@)
    }
}


// ── Laws ────────────────────────────────────────────────────────────────────

/// A selection inside the visible window of a list stays inside the window,
/// and inside the list, when it moves one row down or up.
pub proof fn lemma_selection_stays_visible(p: (usize, usize), len: nat)
    requires
        p.1 <= p.0 < p.1 + VISIBLE,
        p.0 < len || p.0 == 0,
        sel_dn_fits(p, len),
    ensures
        ({
            let d = sel_dn_spec(p, len);
            &&& d.1 <= d.0 < d.1 + VISIBLE
            &&& d.0 < len || d.0 == 0
        }),
        ({
            let u = sel_up_spec(p);
            &&& u.1 <= u.0 < u.1 + VISIBLE
            &&& u.0 < len || u.0 == 0
        }),
{
}

/// Moving the selection down one row and back up returns to the same row.
pub proof fn lemma_down_then_up(p: (usize, usize), len: nat)
    requires
        p.0 + 1 < len,
        sel_dn_fits(p, len),
    ensures
        sel_up_spec(sel_dn_spec(p, len)).0 == p.0,
{
}

/// Toggling the histogram order twice restores the order (at the first row).
pub proof fn lemma_hist_sort_toggle_twice(a: App, b: App, c: App)
    requires
        hist_sort_toggled(a, b),
        hist_sort_toggled(b, c),
    ensures
        c.hist_sort_retained == a.hist_sort_retained,
        c.hist_sel == 0 && c.hist_scroll == 0,
{
}

/// Toggling the leak-suspect view twice restores the view (at the first row).
pub proof fn lemma_leak_view_toggle_twice(a: App, b: App, c: App)
    requires
        leak_view_toggled(a, b),
        leak_view_toggled(b, c),
    ensures
        c.leak_show_objects == a.leak_show_objects,
        c.obj_leak_sel == 0 && c.obj_leak_scroll == 0,
{
}

/// Cycling the inspector panels never lands on the input, and three steps
/// come back to the same panel.
pub proof fn lemma_panel_cycle(f: InspectorFocus)
    ensures
        next_focus(f) != InspectorFocus::Input,
        f != InspectorFocus::Input ==> next_focus(next_focus(next_focus(f))) == f,
{
}

/// Four presses of 's' on the Waste tab come back to the same sub-table.
pub proof fn lemma_waste_cycle_period(c: HeapCounts, sub: usize)
    requires
        sub < 4,
        c.duplicate_strings > 0,
        c.empty_collections > 0,
        c.over_allocated > 0,
        c.boxed_primitives > 0,
    ensures
        next_waste_sub(c, next_waste_sub(c, next_waste_sub(c, next_waste_sub(c, sub)))) == sub,
{
    lemma_waste_next_all(c, sub);
    lemma_waste_next_all(c, ((sub + 1) % 4) as usize);
    lemma_waste_next_all(c, ((sub + 2) % 4) as usize);
    lemma_waste_next_all(c, ((sub + 3) % 4) as usize);
}

proof fn lemma_waste_next_all(c: HeapCounts, sub: usize)
    requires
        sub < 4,
        c.duplicate_strings > 0,
        c.empty_collections > 0,
        c.over_allocated > 0,
        c.boxed_primitives > 0,
    ensures
        next_waste_sub(c, sub) == (sub + 1) % 4,
{
    reveal_with_fuel(waste_search, 5);
}

/// Cycling lands on a non-empty waste sub-view whenever there is one.
pub proof fn lemma_waste_cycle_non_empty(c: HeapCounts, sub: usize)
    requires
        sub < 4,
        c.duplicate_strings > 0 || c.empty_collections > 0 || c.over_allocated > 0 || c.boxed_primitives > 0,
    ensures
        waste_len(c, next_waste_sub(c, sub)) > 0,
{
    reveal_with_fuel(waste_search, 5);
}

/// In the query history, moving to an older entry and then to a newer one
/// comes back to the same entry.
pub proof fn lemma_history_older_newer(i: usize, len: nat)
    requires
        0 < i < len,
    ensures
        history_step(history_step(Some(i), len, true), len, false) == Some(i),
{
}

/// Recalling from the history when no entry is selected gives the newest query.
pub proof fn lemma_history_recall_newest(a: App, b: App)
    requires
        a.query.history_idx is None,
        0 < a.query.history@.len() <= usize::MAX,
        history_moved(a, b, true),
    ensures
        b.query.input@ == a.query.history@.last()@,
{
}

/// Moving through a non-empty query history from a selected entry goes one
/// entry older (staying on the oldest) or one entry newer, and shows that
/// entry with the cursor at its end; moving newer from the newest entry
/// leaves the history and keeps the text being typed; moving newer with no
/// entry selected changes nothing, and moving older then shows the newest.
pub proof fn lemma_history_moves_one(a: App, b: App, older: bool)
    requires
        0 < a.query.history@.len() <= usize::MAX,
        a.query.history_idx matches Some(i) ==> i < a.query.history@.len(),
        history_moved(a, b, older),
    ensures
        a.query.history_idx is Some && older && a.query.history_idx->0 > 0 ==> b.query.history_idx == Some(
            (a.query.history_idx->0 - 1) as usize,
        ) && b.query.input@ == a.query.history@[a.query.history_idx->0 - 1]@,
        a.query.history_idx == Some(0usize) && older ==> b.query.history_idx == Some(0usize)
            && b.query.input@ == a.query.history@[0]@,
        a.query.history_idx is Some && !older && a.query.history_idx->0 + 1 < a.query.history@.len()
            ==> b.query.history_idx == Some((a.query.history_idx->0 + 1) as usize) && b.query.input@
            == a.query.history@[a.query.history_idx->0 + 1]@,
        a.query.history_idx is Some && !older && a.query.history_idx->0 + 1 == a.query.history@.len()
            ==> b.query.history_idx is None && b.query.input == a.query.input && b.query.cursor == a.query.cursor,
        a.query.history_idx is None && !older ==> b == a,
        a.query.history_idx is None && older ==> b.query.history_idx == Some((a.query.history@.len() - 1) as usize)
            && b.query.input@ == a.query.history@.last()@,
        b.query.history_idx is Some ==> b.query.cursor == utf8_len(b.query.input@) as usize,
        b.query.history@ == a.query.history@,
{
}

/// Drilling into a node and back out restores the level: the same
/// selection and drill-down path, with the children that the engine reports
/// for the level's parent, which is the object the app asks for.
pub proof fn lemma_drill_in_then_out(a: App, b: App, c: App, ch: Vec<ObjectReport>, back: Option<Vec<ObjectReport>>)
    requires
        a.dom_sel < a.dom_children@.len(),
        drilled_in(a, b, Some(ch)),
        drilled_out(b, c, back),
    ensures
        c.dom_sel == a.dom_sel,
        c.dom_stack@ == a.dom_stack@,
        drill_out_parent(b.dom_stack@) == if a.dom_stack@.len() > 0 {
            a.dom_stack@.last().0
        } else {
            0
        },
        c.dom_children@ == match back {
            Some(v) => v@,
            None => Seq::<ObjectReport>::empty(),
        },
{
    assert(b.dom_stack@.drop_last() =~= a.dom_stack@);
    if a.dom_stack@.len() > 0 {
        assert(b.dom_stack@[b.dom_stack@.len() - 2] == a.dom_stack@.last());
    }
}

/// Opening a node of the dominator tree in the inspector loads exactly that
/// node: the id written into the input reads back as the node's id.
pub proof fn lemma_inspect_loads_selected(a: App, b: App, r: Option<u64>)
    requires
        a.dom_sel < a.dom_children@.len(),
        dom_selection_inspected(a, b, r),
    ensures
        r == Some(a.dom_children@[a.dom_sel as int].object_id),
        object_id_spec(trim(b.inspector.input@)) == r,
{
    let oid = a.dom_children@[a.dom_sel as int].object_id;
    lemma_hex_id_is_trimmed(oid);
    lemma_hex_id_round_trip(oid);
}

/// Enter on a panel follows the row that is selected in that panel: the
/// selected referrer or GC-path row, or the object the selected field
/// refers to; a null reference loads nothing.
pub proof fn lemma_enter_follows_selected_row(a: App, b: App, r: Option<u64>)
    requires
        selection_entered(a, b, r),
    ensures
        a.inspector.focus == InspectorFocus::GcPath && a.inspector.gc_sel < a.inspector.gc_path@.len()
            && a.inspector.gc_path@[a.inspector.gc_sel as int].object_id > 0 ==> r == Some(
            a.inspector.gc_path@[a.inspector.gc_sel as int].object_id,
        ),
        a.inspector.focus == InspectorFocus::Referrers && a.inspector.ref_sel < a.inspector.referrers@.len()
            && a.inspector.referrers@[a.inspector.ref_sel as int].object_id > 0 ==> r == Some(
            a.inspector.referrers@[a.inspector.ref_sel as int].object_id,
        ),
        a.inspector.focus == InspectorFocus::Fields && a.inspector.field_sel < a.inspector.fields@.len()
            && a.inspector.fields@[a.inspector.field_sel as int].ref_object_id is Some
            && a.inspector.fields@[a.inspector.field_sel as int].ref_object_id->0 > 0 ==> r
            == a.inspector.fields@[a.inspector.field_sel as int].ref_object_id,
        r matches Some(id) ==> id > 0 && b.inspector.input@ == hex_id(id),
        a.inspector.focus == InspectorFocus::Input ==> r is None,
{
}

/// Entering a field, referrer or GC-path row that points to an object writes
/// that object's id into the input, so the load that follows reads back
/// exactly that object, as if its hex id had been typed.
pub proof fn lemma_enter_selection_loads_selected(a: App, b: App, r: Option<u64>)
    requires
        selected_target(a) matches Some(id) && id > 0,
        selection_entered(a, b, r),
    ensures
        r == selected_target(a),
        object_id_spec(trim(b.inspector.input@)) == r,
{
    let id = selected_target(a)->0;
    lemma_hex_id_is_trimmed(id);
    lemma_hex_id_round_trip(id);
}

} // verus!
