//! State and decisions of the GUI: geometry, the tab bar, the process list
//! and the handling of input events. Drawing is left to the caller.

use crate::protocol::SortField;
use crate::text::{decimal, push_all, push_decimal, string_from_chars};
use vstd::prelude::*;

verus! {

/// Header bar height.
pub const HEADER_HEIGHT: u32 = 56;

/// Tab bar height.
pub const TAB_BAR_HEIGHT: u32 = 32;

/// Graph height.
pub const GRAPH_HEIGHT: u32 = 150;

/// Horizontal content padding.
pub const CONTENT_PADDING: u32 = 16;

/// Vertical gap between sections.
pub const SECTION_GAP: u32 = 12;

/// Default window dimensions.
pub const DEFAULT_WIDTH: u32 = 800;

pub const DEFAULT_HEIGHT: u32 = 600;

/// Row height for process list.
pub const ROW_HEIGHT: u32 = 22;

/// Header row height of the process list.
pub const LIST_HEADER_HEIGHT: u32 = 24;

/// A point in window coordinates.
#[derive(Debug, Clone, Copy, PartialEq, Eq, Structural)]
pub struct Point {
    pub x: i32,
    pub y: i32,
}

impl Point {
    /// The point `(x, y)`.
    pub fn new(x: i32, y: i32) -> (p: Self)
        ensures
            p.x == x,
            p.y == y,
    {
        Point { x, y }
    }
}

/// A rectangle: its top-left corner and its size.
#[derive(Debug, Clone, Copy, PartialEq, Eq, Structural)]
pub struct Rect {
    pub x: i32,
    pub y: i32,
    pub width: u32,
    pub height: u32,
}

/// Whether the point lies in the rectangle (left and top edges included,
/// right and bottom edges excluded).
pub open spec fn rect_contains(r: Rect, p: Point) -> bool {
    r.x <= p.x < r.x + r.width && r.y <= p.y < r.y + r.height
}

impl Rect {
    /// The rectangle at `(x, y)` of the given size.
    pub fn new(x: i32, y: i32, width: u32, height: u32) -> (r: Self)
        ensures
            r == (Rect { x, y, width, height }),
    {
        Rect { x, y, width, height }
    }

    /// Whether the point lies in the rectangle.
    pub fn contains_point(&self, p: Point) -> (r: bool)
        ensures
            r == rect_contains(*self, p),
    {
        let px = p.x as i64;
        let py = p.y as i64;
        let x = self.x as i64;
        let y = self.y as i64;
        x <= px && px < x + self.width as i64 && y <= py && py < y + self.height as i64
    }
}

/// Available tabs.
#[derive(Debug, Clone, Copy, PartialEq, Eq, Structural)]
pub enum Tab {
    Cpu,
    Memory,
}

impl Default for Tab {
    /// The CPU tab.
    fn default() -> (r: Self)
        ensures
            r == Tab::Cpu,
    {
        Tab::Cpu
    }
}

/// The tabs, in order.
pub open spec fn all_tabs() -> Seq<Tab> {
    seq![Tab::Cpu, Tab::Memory]
}

impl Tab {
    /// Get all tabs in order.
    pub fn all() -> (r: &'static [Tab])
        ensures
            r@ == all_tabs(),
    {
        let r: &'static [Tab] = &[Tab::Cpu, Tab::Memory];
        proof {
            assert(r@ =~= all_tabs());
        }
        r
    }

    /// Get tab label.
    pub fn label(&self) -> (r: &'static str)
        ensures
            *self == Tab::Cpu ==> r@ == seq!['C', 'P', 'U'],
            *self == Tab::Memory ==> r@ == seq!['M', 'e', 'm', 'o', 'r', 'y'],
    {
        match self {
            Tab::Cpu => {
                proof {
                    reveal_strlit("CPU");
                }
                let r = "CPU";
                proof {
                    assert(r@ =~= seq!['C', 'P', 'U']);
                }
                r
            },
            Tab::Memory => {
                proof {
                    reveal_strlit("Memory");
                }
                let r = "Memory";
                proof {
                    assert(r@ =~= seq!['M', 'e', 'm', 'o', 'r', 'y']);
                }
                r
            },
        }
    }
}

/// The tab that the Tab key switches to from `t`.
pub open spec fn other_tab(t: Tab) -> Tab {
    if t == Tab::Cpu { Tab::Memory } else { Tab::Cpu }
}

/// Pressing Tab twice comes back to the same tab.
pub proof fn law_tab_key_twice(t: Tab)
    ensures
        other_tab(other_tab(t)) == t,
        other_tab(t) != t,
{
}

/// The sort order of the process list on a tab.
pub open spec fn sort_for(tab: Tab) -> SortField {
    match tab {
        Tab::Cpu => SortField::Cpu,
        Tab::Memory => SortField::Memory,
    }
}

/// The sort order of the process list on a tab.
pub fn sort_field_for(tab: Tab) -> (r: SortField)
    ensures
        r == sort_for(tab),
{
    match tab {
        Tab::Cpu => SortField::Cpu,
        Tab::Memory => SortField::Memory,
    }
}

/// Bounds the tab bar can be laid out in: tall enough for the padding, and
/// far enough from the largest coordinate for the tabs to fit.
pub open spec fn tab_bar_fits(b: Rect) -> bool {
    b.height >= 8 && b.x + 8 + 104 <= i32::MAX && b.y + 4 <= i32::MAX
}

/// The rectangle of each tab: 100 pixels wide, 4 pixels apart, inset by 8
/// pixels on the left, 4 at the top and 4 at the bottom.
pub open spec fn tab_rects(b: Rect) -> Seq<Rect> {
    seq![
        Rect { x: (b.x + 8) as i32, y: (b.y + 4) as i32, width: 100, height: (b.height - 8) as u32 },
        Rect { x: (b.x + 8 + 104) as i32, y: (b.y + 4) as i32, width: 100, height: (b.height - 8) as u32 },
    ]
}

/// The first tab rectangle holding the point.
pub open spec fn tab_at(rects: Seq<Rect>, p: Point) -> Option<int> {
    if rects.len() > 0 && rect_contains(rects[0], p) {
        Some(0)
    } else if rects.len() > 1 && rect_contains(rects[1], p) {
        Some(1)
    } else {
        None
    }
}

/// Tab bar component.
#[derive(Debug)]
pub struct TabBar {
    bounds: Rect,
    active: Tab,
    tab_bounds: Vec<Rect>,
    hovered: Option<usize>,
}

impl TabBar {
    /// The bar's bounds.
    pub closed spec fn bounds_spec(&self) -> Rect {
        self.bounds
    }

    /// The active tab.
    pub closed spec fn active_spec(&self) -> Tab {
        self.active
    }

    /// The rectangle of each tab.
    pub closed spec fn tab_bounds_spec(&self) -> Seq<Rect> {
        self.tab_bounds@
    }

    /// The index of the tab under the pointer, if any.
    pub closed spec fn hovered_spec(&self) -> Option<usize> {
        self.hovered
    }

    /// Calculate bounds for each tab.
    pub fn calculate_tab_bounds(bounds: Rect) -> (r: Vec<Rect>)
        requires
            tab_bar_fits(bounds),
        ensures
            r@ == tab_rects(bounds),
    {
        let tab_width = 100u32;
        let tab_height = bounds.height - 8;
        let mut result: Vec<Rect> = Vec::new();
        let mut i: usize = 0;
        while i < 2
            invariant
                i <= 2,
                tab_bar_fits(bounds),
                tab_width == 100,
                tab_height == bounds.height - 8,
                result@ == tab_rects(bounds).take(i as int),
            decreases 2 - i,
        {
            let x = bounds.x + 8 + (i as i32 * (tab_width as i32 + 4));
            let y = bounds.y + 4;
            result.push(Rect::new(x, y, tab_width, tab_height));
            i = i + 1;
            proof {
                assert(result@ =~= tab_rects(bounds).take(i as int));
            }
        }
        proof {
            assert(tab_rects(bounds).take(2) =~= tab_rects(bounds));
        }
        result
    }

    /// Create a new tab bar.
    pub fn new(bounds: Rect) -> (r: Self)
        requires
            tab_bar_fits(bounds),
        ensures
            r.bounds_spec() == bounds,
            r.active_spec() == Tab::Cpu,
            r.tab_bounds_spec() == tab_rects(bounds),
            r.hovered_spec() is None,
    {
        let tab_bounds = Self::calculate_tab_bounds(bounds);
        TabBar { bounds, active: Tab::Cpu, tab_bounds, hovered: None }
    }

    /// Update bounds (on resize).
    pub fn set_bounds(&mut self, bounds: Rect)
        requires
            tab_bar_fits(bounds),
        ensures
            final(self).bounds_spec() == bounds,
            final(self).tab_bounds_spec() == tab_rects(bounds),
            final(self).active_spec() == old(self).active_spec(),
            final(self).hovered_spec() == old(self).hovered_spec(),
    {
        self.bounds = bounds;
        self.tab_bounds = Self::calculate_tab_bounds(bounds);
    }

    /// Get the active tab.
    pub fn active(&self) -> (r: Tab)
        ensures
            r == self.active_spec(),
    {
        self.active
    }

    /// Set the active tab.
    pub fn set_active(&mut self, tab: Tab)
        ensures
            final(self).active_spec() == tab,
            final(self).bounds_spec() == old(self).bounds_spec(),
            final(self).tab_bounds_spec() == old(self).tab_bounds_spec(),
            final(self).hovered_spec() == old(self).hovered_spec(),
    {
        self.active = tab;
    }

    /// The first tab rectangle holding the point, if any.
    fn tab_index_at(&self, pos: Point) -> (r: Option<usize>)
        ensures
            r == (match tab_at(self.tab_bounds@, pos) {
                Some(i) => Some(i as usize),
                None => None::<usize>,
            }),
            r matches Some(i) ==> i < self.tab_bounds@.len() && i < 2,
    {
        let n = self.tab_bounds.len();
        if n > 0 && self.tab_bounds[0].contains_point(pos) {
            Some(0)
        } else if n > 1 && self.tab_bounds[1].contains_point(pos) {
            Some(1)
        } else {
            None
        }
    }

    /// Handle click event, returns which tab was clicked (if any).
    pub fn on_click(&self, pos: Point) -> (r: Option<Tab>)
        ensures
            r == (if !rect_contains(self.bounds_spec(), pos) {
                None::<Tab>
            } else {
                match tab_at(self.tab_bounds_spec(), pos) {
                    Some(i) => Some(all_tabs()[i]),
                    None => None::<Tab>,
                }
            }),
    {
        if !self.bounds.contains_point(pos) {
            return None;
        }
        let tabs = Tab::all();
        match self.tab_index_at(pos) {
            Some(i) => Some(tabs[i]),
            None => None,
        }
    }

    /// Handle mouse move, returns true if hover state changed.
    pub fn on_mouse_move(&mut self, pos: Point) -> (changed: bool)
        ensures
            final(self).hovered_spec() == (if !rect_contains(old(self).bounds_spec(), pos) {
                None::<usize>
            } else {
                match tab_at(old(self).tab_bounds_spec(), pos) {
                    Some(i) => Some(i as usize),
                    None => None::<usize>,
                }
            }),
            changed == (final(self).hovered_spec() != old(self).hovered_spec()),
            final(self).bounds_spec() == old(self).bounds_spec(),
            final(self).tab_bounds_spec() == old(self).tab_bounds_spec(),
            final(self).active_spec() == old(self).active_spec(),
    {
        let old_hovered = self.hovered;
        let new_hovered = if !self.bounds.contains_point(pos) {
            None
        } else {
            self.tab_index_at(pos)
        };
        self.hovered = new_hovered;
        match (old_hovered, new_hovered) {
            (None, None) => false,
            (Some(a), Some(b)) => a != b,
            _ => true,
        }
    }

    /// The rectangle of each tab.
    pub fn tab_bounds(&self) -> (r: &Vec<Rect>)
        ensures
            r@ == self.tab_bounds_spec(),
    {
        &self.tab_bounds
    }

    /// The index of the tab under the pointer, if any.
    pub fn hovered(&self) -> (r: Option<usize>)
        ensures
            r == self.hovered_spec(),
    {
        self.hovered
    }

    /// The bar's bounds.
    pub fn bounds(&self) -> (r: Rect)
        ensures
            r == self.bounds_spec(),
    {
        self.bounds
    }

    /// Get tab bar height.
    pub fn height(&self) -> (r: u32)
        ensures
            r == self.bounds_spec().height,
    {
        self.bounds.height
    }
}

/// Rows of the process list that fit in bounds of the given height, below
/// the header row.
pub open spec fn rows_fitting(height: u32) -> nat {
    (if height >= LIST_HEADER_HEIGHT { height - LIST_HEADER_HEIGHT } else { 0int }) as nat / ROW_HEIGHT as nat
}

/// The largest scroll offset: as many rows as do not fit.
pub open spec fn max_scroll_of(len: nat, visible: nat) -> nat {
    if len >= visible { (len - visible) as nat } else { 0 }
}

/// Process list component. It holds the PIDs of the listed processes in
/// display order; the caller keeps what it draws for each.
#[derive(Debug)]
pub struct ProcessList {
    bounds: Rect,
    pids: Vec<i32>,
    scroll_offset: usize,
    selected: Option<usize>,
    sort_field: SortField,
    visible_rows: usize,
}

impl ProcessList {
    /// The list's bounds.
    pub closed spec fn bounds_spec(&self) -> Rect {
        self.bounds
    }

    /// The PIDs of the listed processes, in display order.
    pub closed spec fn pids_spec(&self) -> Seq<i32> {
        self.pids@
    }

    /// Index of the first row shown.
    pub closed spec fn scroll_spec(&self) -> nat {
        self.scroll_offset as nat
    }

    /// Index of the selected row, if any.
    pub closed spec fn selected_spec(&self) -> Option<usize> {
        self.selected
    }

    /// The column the list is sorted by.
    pub closed spec fn sort_spec(&self) -> SortField {
        self.sort_field
    }

    /// Number of rows that fit.
    pub closed spec fn visible_spec(&self) -> nat {
        self.visible_rows as nat
    }

    /// Create a new process list.
    pub fn new(bounds: Rect) -> (r: Self)
        ensures
            r.bounds_spec() == bounds,
            r.pids_spec() == Seq::<i32>::empty(),
            r.scroll_spec() == 0,
            r.selected_spec() is None,
            r.sort_spec() == SortField::Cpu,
            r.visible_spec() == rows_fitting(bounds.height),
    {
        let visible_rows = (bounds.height.saturating_sub(LIST_HEADER_HEIGHT) / ROW_HEIGHT) as usize;
        ProcessList { bounds, pids: Vec::new(), scroll_offset: 0, selected: None, sort_field: SortField::Cpu, visible_rows }
    }

    /// Update bounds (on resize).
    pub fn set_bounds(&mut self, bounds: Rect)
        ensures
            final(self).bounds_spec() == bounds,
            final(self).visible_spec() == rows_fitting(bounds.height),
            final(self).pids_spec() == old(self).pids_spec(),
            final(self).scroll_spec() == old(self).scroll_spec(),
            final(self).selected_spec() == old(self).selected_spec(),
            final(self).sort_spec() == old(self).sort_spec(),
    {
        self.bounds = bounds;
        self.visible_rows = (bounds.height.saturating_sub(LIST_HEADER_HEIGHT) / ROW_HEIGHT) as usize;
    }

    /// Maximum scroll offset.
    pub fn max_scroll(&self) -> (r: usize)
        ensures
            r == max_scroll_of(self.pids_spec().len(), self.visible_spec()),
    {
        self.pids.len().saturating_sub(self.visible_rows)
    }

    /// Set the processes to display, by PID in display order; the scroll
    /// offset is pulled back to the largest one the new list allows.
    pub fn set_processes(&mut self, pids: Vec<i32>)
        ensures
            final(self).pids_spec() == pids@,
            final(self).scroll_spec() == (if old(self).scroll_spec() > max_scroll_of(pids@.len(), old(self).visible_spec()) {
                max_scroll_of(pids@.len(), old(self).visible_spec())
            } else {
                old(self).scroll_spec()
            }),
            final(self).bounds_spec() == old(self).bounds_spec(),
            final(self).visible_spec() == old(self).visible_spec(),
            final(self).selected_spec() == old(self).selected_spec(),
            final(self).sort_spec() == old(self).sort_spec(),
    {
        self.pids = pids;
        if self.scroll_offset > self.max_scroll() {
            self.scroll_offset = self.max_scroll();
        }
    }

    /// Set sort field.
    pub fn set_sort(&mut self, sort: SortField)
        ensures
            final(self).sort_spec() == sort,
            final(self).bounds_spec() == old(self).bounds_spec(),
            final(self).pids_spec() == old(self).pids_spec(),
            final(self).scroll_spec() == old(self).scroll_spec(),
            final(self).selected_spec() == old(self).selected_spec(),
            final(self).visible_spec() == old(self).visible_spec(),
    {
        self.sort_field = sort;
    }

    /// Get current sort field.
    pub fn sort_field(&self) -> (r: SortField)
        ensures
            r == self.sort_spec(),
    {
        self.sort_field
    }

    /// Handle scroll (delta is number of rows to scroll, positive = down):
    /// down stops at the largest offset, up stops at the top.
    pub fn on_scroll(&mut self, delta: i32)
        requires
            delta != i32::MIN,
        ensures
            final(self).scroll_spec() == (if delta > 0 {
                let m = max_scroll_of(old(self).pids_spec().len(), old(self).visible_spec());
                if old(self).scroll_spec() + delta < m { (old(self).scroll_spec() + delta) as nat } else { m }
            } else if old(self).scroll_spec() >= -delta {
                (old(self).scroll_spec() + delta) as nat
            } else {
                0
            }),
            final(self).bounds_spec() == old(self).bounds_spec(),
            final(self).pids_spec() == old(self).pids_spec(),
            final(self).selected_spec() == old(self).selected_spec(),
            final(self).sort_spec() == old(self).sort_spec(),
            final(self).visible_spec() == old(self).visible_spec(),
    {
        if delta > 0 {
            let m = self.max_scroll();
            let d = delta as usize;
            if self.scroll_offset < m && d < m - self.scroll_offset {
                self.scroll_offset = self.scroll_offset + d;
            } else {
                self.scroll_offset = m;
            }
        } else {
            let up = (-delta) as usize;
            self.scroll_offset = self.scroll_offset.saturating_sub(up);
        }
    }

    /// Handle click, returns selected process PID if any: a click on a row
    /// below the header selects the process shown there.
    pub fn on_click(&mut self, pos: Point) -> (r: Option<i32>)
        requires
            rect_contains(old(self).bounds_spec(), pos) ==> pos.y - old(self).bounds_spec().y <= i32::MAX,
        ensures
            ({
                let b = old(self).bounds_spec();
                let local_y = pos.y - b.y;
                let idx = old(self).scroll_spec() + (local_y - LIST_HEADER_HEIGHT) / (ROW_HEIGHT as int);
                if rect_contains(b, pos) && local_y >= LIST_HEADER_HEIGHT && idx < old(self).pids_spec().len() {
                    &&& r == Some(old(self).pids_spec()[idx])
                    &&& final(self).selected_spec() == Some(idx as usize)
                } else {
                    &&& r is None
                    &&& final(self).selected_spec() == old(self).selected_spec()
                }
            }),
            final(self).bounds_spec() == old(self).bounds_spec(),
            final(self).pids_spec() == old(self).pids_spec(),
            final(self).scroll_spec() == old(self).scroll_spec(),
            final(self).sort_spec() == old(self).sort_spec(),
            final(self).visible_spec() == old(self).visible_spec(),
    {
        if !self.bounds.contains_point(pos) {
            return None;
        }
        let local_y = pos.y - self.bounds.y;
        if local_y < LIST_HEADER_HEIGHT as i32 {
            return None;
        }
        let row = ((local_y - LIST_HEADER_HEIGHT as i32) / ROW_HEIGHT as i32) as usize;
        let n = self.pids.len();
        if self.scroll_offset < n && row < n - self.scroll_offset {
            let process_idx = self.scroll_offset + row;
            self.selected = Some(process_idx);
            return Some(self.pids[process_idx]);
        }
        None
    }

    /// Get selected process PID.
    pub fn selected_pid(&self) -> (r: Option<i32>)
        ensures
            r == (match self.selected_spec() {
                Some(i) => if i < self.pids_spec().len() { Some(self.pids_spec()[i as int]) } else { None::<i32> },
                None => None::<i32>,
            }),
    {
        match self.selected {
            Some(idx) => if idx < self.pids.len() { Some(self.pids[idx]) } else { None },
            None => None,
        }
    }

    /// Clear selection.
    pub fn clear_selection(&mut self)
        ensures
            final(self).selected_spec() is None,
            final(self).bounds_spec() == old(self).bounds_spec(),
            final(self).pids_spec() == old(self).pids_spec(),
            final(self).scroll_spec() == old(self).scroll_spec(),
            final(self).sort_spec() == old(self).sort_spec(),
            final(self).visible_spec() == old(self).visible_spec(),
    {
        self.selected = None;
    }

    /// Get row height.
    pub fn row_height(&self) -> (r: u32)
        ensures
            r == ROW_HEIGHT,
    {
        ROW_HEIGHT
    }

    /// Index of the first row shown.
    pub fn scroll_offset(&self) -> (r: usize)
        ensures
            r == self.scroll_spec(),
    {
        self.scroll_offset
    }

    /// Index of the selected row, if any.
    pub fn selected(&self) -> (r: Option<usize>)
        ensures
            r == self.selected_spec(),
    {
        self.selected
    }

    /// Number of rows that fit.
    pub fn visible_rows(&self) -> (r: usize)
        ensures
            r == self.visible_spec(),
    {
        self.visible_rows
    }

    /// The list's bounds.
    pub fn bounds(&self) -> (r: Rect)
        ensures
            r == self.bounds_spec(),
    {
        self.bounds
    }

    /// The position label drawn when the list holds more rows than fit
    /// (see `scroll_label_text`); none when every row fits.
    pub fn scroll_label(&self) -> (r: Option<String>)
        requires
            self.scroll_spec() + self.visible_spec() < usize::MAX,
        ensures
            r is Some <==> self.pids_spec().len() > self.visible_spec(),
            r matches Some(s) ==> s@ == scroll_label_text(self.scroll_spec(), self.visible_spec(), self.pids_spec().len()),
    {
        let n = self.pids.len();
        if n <= self.visible_rows {
            return None;
        }
        let end = self.scroll_offset + self.visible_rows;
        let last = if end < n { end } else { n };
        let mut out: Vec<char> = Vec::new();
        push_decimal(&mut out, (self.scroll_offset + 1) as u64);
        out.push('-');
        push_decimal(&mut out, last as u64);
        let of = vec![' ', 'o', 'f', ' '];
        push_all(&mut out, &of);
        push_decimal(&mut out, n as u64);
        proof {
            assert(out@ =~= scroll_label_text(self.scroll_spec(), self.visible_spec(), self.pids_spec().len()));
        }
        Some(string_from_chars(&out))
    }
}

/// The label `first-last of total`: the 1-based numbers of the first and of
/// the last row shown, and the number of rows.
pub open spec fn scroll_label_text(scroll: nat, visible: nat, len: nat) -> Seq<char> {
    decimal(scroll + 1) + seq!['-'] + decimal(if scroll + visible < len { scroll + visible } else { len })
        + seq![' ', 'o', 'f', ' '] + decimal(len)
}

/// Where the process list starts: below the header, the tab bar, a gap, the
/// graph label, the graph and another gap.
pub const LIST_TOP: u32 = 282;

/// The bounds of the process list in a window of the given size.
pub open spec fn list_rect(width: u32, height: u32) -> Rect {
    Rect {
        x: CONTENT_PADDING as i32,
        y: LIST_TOP as i32,
        width: (if width >= 2 * CONTENT_PADDING { width - 2 * CONTENT_PADDING } else { 0int }) as u32,
        height: (if height >= LIST_TOP { height - LIST_TOP } else { 0int }) as u32,
    }
}

/// The bounds of the tab bar in a window of the given width.
pub open spec fn tab_bar_rect(width: u32) -> Rect {
    Rect { x: 0, y: HEADER_HEIGHT as i32, width, height: TAB_BAR_HEIGHT }
}

/// The bounds of the process list in a window of the given size.
pub fn process_list_bounds(width: u32, height: u32) -> (r: Rect)
    ensures
        r == list_rect(width, height),
{
    proof {
        assert(HEADER_HEIGHT + TAB_BAR_HEIGHT + SECTION_GAP + 20 + GRAPH_HEIGHT + SECTION_GAP == LIST_TOP);
    }
    let content_start = HEADER_HEIGHT + TAB_BAR_HEIGHT + SECTION_GAP + 20 + GRAPH_HEIGHT + SECTION_GAP;
    let list_height = height.saturating_sub(content_start);
    let list_width = width.saturating_sub(CONTENT_PADDING * 2);
    Rect::new(CONTENT_PADDING as i32, content_start as i32, list_width, list_height)
}

/// Monitors the window can be centred on without overflowing a coordinate.
pub open spec fn monitor_fits(m: Rect) -> bool {
    &&& m.width <= i32::MAX
    &&& m.height <= i32::MAX
    &&& m.x + (m.width - (if m.width < DEFAULT_WIDTH { m.width } else { DEFAULT_WIDTH })) / 2 <= i32::MAX
    &&& m.y + (m.height - (if m.height < DEFAULT_HEIGHT { m.height } else { DEFAULT_HEIGHT })) / 2 <= i32::MAX
}

/// The window's place on a monitor: the default size (or the monitor's,
/// where smaller), centred.
pub fn window_placement(monitor: Rect) -> (r: Rect)
    requires
        monitor_fits(monitor),
    ensures
        r.width == (if monitor.width < DEFAULT_WIDTH { monitor.width } else { DEFAULT_WIDTH }),
        r.height == (if monitor.height < DEFAULT_HEIGHT { monitor.height } else { DEFAULT_HEIGHT }),
        r.x == monitor.x + (monitor.width - r.width) / 2,
        r.y == monitor.y + (monitor.height - r.height) / 2,
{
    let width = if monitor.width < DEFAULT_WIDTH { monitor.width } else { DEFAULT_WIDTH };
    let height = if monitor.height < DEFAULT_HEIGHT { monitor.height } else { DEFAULT_HEIGHT };
    let x = monitor.x + (monitor.width as i32 - width as i32) / 2;
    let y = monitor.y + (monitor.height as i32 - height as i32) / 2;
    Rect::new(x, y, width, height)
}

/// A key press, as far as the GUI tells keys apart.
#[derive(Debug, Clone, Copy, PartialEq, Eq, Structural)]
pub enum KeyPress {
    Escape,
    Tab,
    Char(char),
    Other,
}

/// What the event loop should do after an event: redraw the window, and/or
/// fetch fresh data from the daemon now.
#[derive(Debug, Clone, Copy, PartialEq, Eq, Structural)]
pub struct UiEffect {
    pub redraw: bool,
    pub refresh: bool,
}

/// The GUI's state apart from what it draws: window size, tab bar, process
/// list, and whether it should quit.
#[derive(Debug)]
pub struct AppState {
    tab_bar: TabBar,
    process_list: ProcessList,
    width: u32,
    height: u32,
    should_quit: bool,
}

impl AppState {
    /// The tab bar and the process list are where the window's size puts
    /// them.
    pub closed spec fn wf(&self) -> bool {
        &&& self.tab_bar.bounds_spec() == tab_bar_rect(self.width)
        &&& self.tab_bar.tab_bounds_spec() == tab_rects(tab_bar_rect(self.width))
        &&& self.process_list.bounds_spec().y == LIST_TOP
    }

    /// The tab bar.
    pub closed spec fn tabs_spec(&self) -> TabBar {
        self.tab_bar
    }

    /// The process list.
    pub closed spec fn list_spec(&self) -> ProcessList {
        self.process_list
    }

    /// The window size.
    pub closed spec fn size_spec(&self) -> (u32, u32) {
        (self.width, self.height)
    }

    /// Whether the GUI should quit.
    pub closed spec fn quit_spec(&self) -> bool {
        self.should_quit
    }

    /// The state of a new window of the given size.
    pub fn new(width: u32, height: u32) -> (r: Self)
        ensures
            r.wf(),
            r.size_spec() == (width, height),
            r.tabs_spec().bounds_spec() == tab_bar_rect(width),
            r.tabs_spec().active_spec() == Tab::Cpu,
            r.tabs_spec().hovered_spec() is None,
            r.list_spec().bounds_spec() == list_rect(width, height),
            r.list_spec().pids_spec() == Seq::<i32>::empty(),
            r.list_spec().sort_spec() == SortField::Cpu,
            r.list_spec().scroll_spec() == 0,
            r.list_spec().selected_spec() is None,
            !r.quit_spec(),
    {
        let tab_bar = TabBar::new(Rect::new(0, HEADER_HEIGHT as i32, width, TAB_BAR_HEIGHT));
        let process_list = ProcessList::new(process_list_bounds(width, height));
        AppState { tab_bar, process_list, width, height, should_quit: false }
    }

    /// Handle window resize: on a new size, the tab bar is laid out again
    /// and the process list is rebuilt for the new size, keeping its
    /// processes (its selection, scroll and sort start afresh).
    pub fn handle_resize(&mut self, width: u32, height: u32) -> (changed: bool)
        requires
            old(self).wf(),
        ensures
            final(self).wf(),
            changed == (old(self).size_spec() != (width, height)),
            !changed ==> *final(self) == *old(self),
            changed ==> {
                &&& final(self).size_spec() == (width, height)
                &&& final(self).tabs_spec().bounds_spec() == tab_bar_rect(width)
                &&& final(self).tabs_spec().active_spec() == old(self).tabs_spec().active_spec()
                &&& final(self).tabs_spec().hovered_spec() == old(self).tabs_spec().hovered_spec()
                &&& final(self).list_spec().bounds_spec() == list_rect(width, height)
                &&& final(self).list_spec().pids_spec() == old(self).list_spec().pids_spec()
                &&& final(self).list_spec().sort_spec() == SortField::Cpu
                &&& final(self).list_spec().selected_spec() is None
                &&& final(self).list_spec().scroll_spec() == 0
            },
            final(self).quit_spec() == old(self).quit_spec(),
    {
        if width == self.width && height == self.height {
            return false;
        }
        let bounds = Rect::new(0, HEADER_HEIGHT as i32, width, TAB_BAR_HEIGHT);
        let tab_bar = TabBar {
            bounds,
            active: self.tab_bar.active,
            tab_bounds: TabBar::calculate_tab_bounds(bounds),
            hovered: self.tab_bar.hovered,
        };
        let pids = self.process_list.pids.clone();
        let mut process_list = ProcessList::new(process_list_bounds(width, height));
        process_list.set_processes(pids);
        let should_quit = self.should_quit;
        *self = AppState { tab_bar, process_list, width, height, should_quit };
        true
    }
}

impl AppState {
    /// Handle mouse click: a click on another tab switches to it, sorts the
    /// process list for it and asks for fresh data; otherwise a click on a
    /// process row selects it. Either one asks for a redraw.
    pub fn handle_click(&mut self, pos: Point) -> (r: UiEffect)
        requires
            old(self).wf(),
        ensures
            final(self).wf(),
            final(self).size_spec() == old(self).size_spec(),
            final(self).quit_spec() == old(self).quit_spec(),
            ({
                let clicked = if rect_contains(old(self).tabs_spec().bounds_spec(), pos) {
                    match tab_at(old(self).tabs_spec().tab_bounds_spec(), pos) {
                        Some(i) => Some(all_tabs()[i]),
                        None => None::<Tab>,
                    }
                } else {
                    None::<Tab>
                };
                if clicked is Some && clicked->0 != old(self).tabs_spec().active_spec() {
                    &&& r == UiEffect { redraw: true, refresh: true }
                    &&& final(self).tabs_spec().active_spec() == clicked->0
                    &&& final(self).list_spec().sort_spec() == sort_for(clicked->0)
                    &&& final(self).list_spec().selected_spec() == old(self).list_spec().selected_spec()
                } else {
                    let b = old(self).list_spec().bounds_spec();
                    let local_y = pos.y - b.y;
                    let idx = old(self).list_spec().scroll_spec() + (local_y - LIST_HEADER_HEIGHT) / (ROW_HEIGHT as int);
                    let hit = rect_contains(b, pos) && local_y >= LIST_HEADER_HEIGHT && idx < old(self).list_spec().pids_spec().len();
                    &&& r == UiEffect { redraw: hit, refresh: false }
                    &&& final(self).tabs_spec().active_spec() == old(self).tabs_spec().active_spec()
                    &&& final(self).list_spec().sort_spec() == old(self).list_spec().sort_spec()
                    &&& final(self).list_spec().selected_spec() == (if hit { Some(idx as usize) } else { old(self).list_spec().selected_spec() })
                }
            }),
            final(self).list_spec().pids_spec() == old(self).list_spec().pids_spec(),
            final(self).list_spec().scroll_spec() == old(self).list_spec().scroll_spec(),
    {
        if let Some(tab) = self.tab_bar.on_click(pos) {
            if tab != self.tab_bar.active() {
                self.tab_bar.set_active(tab);
                self.process_list.set_sort(sort_field_for(tab));
                return UiEffect { redraw: true, refresh: true };
            }
        }
        let hit = self.process_list.on_click(pos).is_some();
        UiEffect { redraw: hit, refresh: false }
    }

    /// Handle scroll: the process list moves by `delta` rows (positive =
    /// down); the window is redrawn.
    pub fn handle_scroll(&mut self, delta: i32) -> (r: bool)
        requires
            old(self).wf(),
            delta != i32::MIN,
        ensures
            r,
            final(self).wf(),
            final(self).size_spec() == old(self).size_spec(),
            final(self).quit_spec() == old(self).quit_spec(),
            final(self).tabs_spec() == old(self).tabs_spec(),
            final(self).list_spec().scroll_spec() == (if delta > 0 {
                let m = max_scroll_of(old(self).list_spec().pids_spec().len(), old(self).list_spec().visible_spec());
                if old(self).list_spec().scroll_spec() + delta < m { (old(self).list_spec().scroll_spec() + delta) as nat } else { m }
            } else if old(self).list_spec().scroll_spec() >= -delta {
                (old(self).list_spec().scroll_spec() + delta) as nat
            } else {
                0
            }),
            final(self).list_spec().pids_spec() == old(self).list_spec().pids_spec(),
            final(self).list_spec().selected_spec() == old(self).list_spec().selected_spec(),
            final(self).list_spec().sort_spec() == old(self).list_spec().sort_spec(),
    {
        self.process_list.on_scroll(delta);
        true
    }

    /// Handle mouse movement over the tab bar: the tab under the pointer
    /// becomes the hovered one (none when the pointer is off the tabs); a
    /// redraw is needed when the hovered tab changed.
    pub fn handle_mouse_move(&mut self, pos: Point) -> (r: bool)
        requires
            old(self).wf(),
        ensures
            final(self).wf(),
            final(self).tabs_spec().hovered_spec() == (if !rect_contains(old(self).tabs_spec().bounds_spec(), pos) {
                None::<usize>
            } else {
                match tab_at(old(self).tabs_spec().tab_bounds_spec(), pos) {
                    Some(i) => Some(i as usize),
                    None => None::<usize>,
                }
            }),
            final(self).tabs_spec().bounds_spec() == old(self).tabs_spec().bounds_spec(),
            final(self).tabs_spec().tab_bounds_spec() == old(self).tabs_spec().tab_bounds_spec(),
            r == (final(self).tabs_spec().hovered_spec() != old(self).tabs_spec().hovered_spec()),
            final(self).tabs_spec().active_spec() == old(self).tabs_spec().active_spec(),
            final(self).list_spec() == old(self).list_spec(),
            final(self).size_spec() == old(self).size_spec(),
            final(self).quit_spec() == old(self).quit_spec(),
    {
        self.tab_bar.on_mouse_move(pos)
    }

    /// Handle a key press: Escape or `q` quits; `r` asks for fresh data;
    /// `1` and `2` switch to the CPU and the memory tab, and Tab to the other
    /// tab, each sorting the process list for it, asking for fresh data and
    /// a redraw. Other keys do nothing.
    pub fn handle_key(&mut self, key: KeyPress) -> (r: UiEffect)
        requires
            old(self).wf(),
        ensures
            final(self).wf(),
            final(self).size_spec() == old(self).size_spec(),
            final(self).list_spec().pids_spec() == old(self).list_spec().pids_spec(),
            final(self).list_spec().scroll_spec() == old(self).list_spec().scroll_spec(),
            final(self).list_spec().selected_spec() == old(self).list_spec().selected_spec(),
            ({
                let switch_to = match key {
                    KeyPress::Char(c) => if c == '1' { Some(Tab::Cpu) } else if c == '2' { Some(Tab::Memory) } else { None::<Tab> },
                    KeyPress::Tab => Some(other_tab(old(self).tabs_spec().active_spec())),
                    _ => None::<Tab>,
                };
                let quits = key == KeyPress::Escape || key == KeyPress::Char('q');
                &&& final(self).quit_spec() == (old(self).quit_spec() || quits)
                &&& match switch_to {
                    Some(t) => {
                        &&& r == UiEffect { redraw: true, refresh: true }
                        &&& final(self).tabs_spec().active_spec() == t
                        &&& final(self).list_spec().sort_spec() == sort_for(t)
                    },
                    None => {
                        &&& r == UiEffect { redraw: false, refresh: key == KeyPress::Char('r') }
                        &&& final(self).tabs_spec().active_spec() == old(self).tabs_spec().active_spec()
                        &&& final(self).list_spec().sort_spec() == old(self).list_spec().sort_spec()
                    },
                }
            }),
    {
        let switch_to = match key {
            KeyPress::Escape => {
                self.should_quit = true;
                None
            },
            KeyPress::Char(c) => {
                if c == 'q' {
                    self.should_quit = true;
                    None
                } else if c == 'r' {
                    return UiEffect { redraw: false, refresh: true };
                } else if c == '1' {
                    Some(Tab::Cpu)
                } else if c == '2' {
                    Some(Tab::Memory)
                } else {
                    None
                }
            },
            KeyPress::Tab => Some(match self.tab_bar.active() {
                Tab::Cpu => Tab::Memory,
                Tab::Memory => Tab::Cpu,
            }),
            KeyPress::Other => None,
        };
        match switch_to {
            Some(tab) => {
                self.tab_bar.set_active(tab);
                self.process_list.set_sort(sort_field_for(tab));
                UiEffect { redraw: true, refresh: true }
            },
            None => UiEffect { redraw: false, refresh: false },
        }
    }

    /// Show a new process list (by PID, in display order) sorted by `sort`.
    pub fn set_processes(&mut self, pids: Vec<i32>, sort: SortField)
        requires
            old(self).wf(),
        ensures
            final(self).wf(),
            final(self).list_spec().pids_spec() == pids@,
            final(self).list_spec().sort_spec() == sort,
            final(self).list_spec().scroll_spec() == (if old(self).list_spec().scroll_spec() > max_scroll_of(pids@.len(), old(self).list_spec().visible_spec()) {
                max_scroll_of(pids@.len(), old(self).list_spec().visible_spec())
            } else {
                old(self).list_spec().scroll_spec()
            }),
            final(self).list_spec().selected_spec() == old(self).list_spec().selected_spec(),
            final(self).tabs_spec() == old(self).tabs_spec(),
            final(self).size_spec() == old(self).size_spec(),
            final(self).quit_spec() == old(self).quit_spec(),
    {
        self.process_list.set_processes(pids);
        self.process_list.set_sort(sort);
    }

    /// The tab bar.
    pub fn tab_bar(&self) -> (r: &TabBar)
        ensures
            *r == self.tabs_spec(),
    {
        &self.tab_bar
    }

    /// The process list.
    pub fn process_list(&self) -> (r: &ProcessList)
        ensures
            *r == self.list_spec(),
    {
        &self.process_list
    }

    /// The window size.
    pub fn size(&self) -> (r: (u32, u32))
        ensures
            r == self.size_spec(),
    {
        (self.width, self.height)
    }

    /// Whether the GUI should quit.
    pub fn should_quit(&self) -> (r: bool)
        ensures
            r == self.quit_spec(),
    {
        self.should_quit
    }

    /// Ask the GUI to quit (the window was closed).
    pub fn request_quit(&mut self)
        requires
            old(self).wf(),
        ensures
            final(self).wf(),
            final(self).quit_spec(),
            final(self).tabs_spec() == old(self).tabs_spec(),
            final(self).list_spec() == old(self).list_spec(),
            final(self).size_spec() == old(self).size_spec(),
    {
        self.should_quit = true;
    }
}

} // verus!
