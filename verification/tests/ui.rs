use gartop::config::DaemonConfig;
use gartop::format::format_uptime;
use gartop::gui::{
    process_list_bounds, window_placement, AppState, KeyPress, Point, ProcessList, Rect, Tab, TabBar,
};
use gartop::protocol::{sort_field_from_name, Command, Response, SortField};
use gartop::subscriptions::Subscriptions;
use gartop::text::shortened;

#[test]
fn uptime_formats() {
    assert_eq!(format_uptime(0), "0s");
    assert_eq!(format_uptime(59), "59s");
    assert_eq!(format_uptime(61), "1m 1s");
    assert_eq!(format_uptime(3599), "59m 59s");
    assert_eq!(format_uptime(3600), "1h 0m");
    assert_eq!(format_uptime(7325), "2h 2m");
    assert_eq!(format_uptime(86400), "1d 0h");
    assert_eq!(format_uptime(90061), "1d 1h");
}

#[test]
fn sort_names() {
    assert_eq!(sort_field_from_name("memory"), SortField::Memory);
    assert_eq!(sort_field_from_name("mem"), SortField::Memory);
    assert_eq!(sort_field_from_name("pid"), SortField::Pid);
    assert_eq!(sort_field_from_name("name"), SortField::Name);
    assert_eq!(sort_field_from_name("cpu"), SortField::Cpu);
    assert_eq!(sort_field_from_name("bogus"), SortField::Cpu);
    assert_eq!(SortField::default(), SortField::Cpu);
}

#[test]
fn responses() {
    let ok = Response::ok();
    assert!(ok.success && ok.data.is_none() && ok.error.is_none());
    let err = Response::err("No data yet".to_string());
    assert!(!err.success);
    assert_eq!(err.error.as_deref(), Some("No data yet"));
    let d = Response::ok_with_data(Some(serde_json::Value::Bool(true)));
    assert_eq!(d.data, Some(serde_json::Value::Bool(true)));
    let c = Command::GetCpuHistory { count: Some(3) };
    assert!(matches!(c, Command::GetCpuHistory { count: Some(3) }));
}

#[test]
fn subscriptions_set() {
    let mut s = Subscriptions::new();
    assert!(!s.has_subscriptions());
    s.subscribe(&["cpu".to_string(), "memory".to_string(), "cpu".to_string()]);
    assert!(s.has_subscriptions());
    assert!(s.is_subscribed("cpu"));
    assert!(!s.is_subscribed("disk"));
    s.unsubscribe(&["cpu".to_string()]);
    assert!(!s.is_subscribed("cpu"));
    assert!(s.is_subscribed("memory"));
    s.subscribe(&["*".to_string()]);
    assert!(s.is_subscribed("disk"));
    s.unsubscribe(&["memory".to_string(), "*".to_string()]);
    assert!(!s.has_subscriptions());
}

#[test]
fn daemon_config_default() {
    let c = DaemonConfig::default();
    assert_eq!((c.sample_interval_ms, c.history_size, c.max_processes), (1000, 300, 100));
}

#[test]
fn tabs_and_tab_bar() {
    assert_eq!(Tab::all(), &[Tab::Cpu, Tab::Memory]);
    assert_eq!(Tab::Cpu.label(), "CPU");
    assert_eq!(Tab::Memory.label(), "Memory");
    let mut bar = TabBar::new(Rect::new(0, 56, 800, 32));
    assert_eq!(bar.tab_bounds(), &vec![Rect::new(8, 60, 100, 24), Rect::new(112, 60, 100, 24)]);
    assert_eq!(bar.on_click(Point::new(10, 61)), Some(Tab::Cpu));
    assert_eq!(bar.on_click(Point::new(120, 70)), Some(Tab::Memory));
    assert_eq!(bar.on_click(Point::new(110, 70)), None);
    assert_eq!(bar.on_click(Point::new(10, 10)), None);
    assert!(bar.on_mouse_move(Point::new(10, 61)));
    assert!(!bar.on_mouse_move(Point::new(11, 61)));
    assert_eq!(bar.hovered(), Some(0));
    assert!(bar.on_mouse_move(Point::new(500, 500)));
    assert_eq!(bar.hovered(), None);
    assert_eq!(bar.height(), 32);
}

#[test]
fn process_list_scroll_and_click() {
    let mut list = ProcessList::new(Rect::new(16, 282, 768, 24 + 22 * 3));
    assert_eq!(list.visible_rows(), 3);
    list.set_processes((1..=10).collect());
    assert_eq!(list.max_scroll(), 7);
    list.on_scroll(5);
    assert_eq!(list.scroll_offset(), 5);
    list.on_scroll(5);
    assert_eq!(list.scroll_offset(), 7);
    list.on_scroll(-10);
    assert_eq!(list.scroll_offset(), 0);
    list.on_scroll(2);
    assert_eq!(list.on_click(Point::new(20, 282 + 24 + 22 + 1)), Some(4));
    assert_eq!(list.selected_pid(), Some(4));
    assert_eq!(list.on_click(Point::new(20, 283)), None);
    assert_eq!(list.selected_pid(), Some(4));
    list.set_processes(vec![9, 8]);
    assert_eq!(list.scroll_offset(), 0);
    assert_eq!(list.selected_pid(), None);
    list.clear_selection();
    assert_eq!(list.selected(), None);
    assert_eq!(list.row_height(), 22);
}

#[test]
fn app_state_events() {
    let mut app = AppState::new(800, 600);
    assert_eq!(app.process_list().bounds(), process_list_bounds(800, 600));
    assert_eq!(process_list_bounds(800, 600), Rect::new(16, 282, 768, 318));
    let e = app.handle_click(Point::new(120, 70));
    assert!(e.redraw && e.refresh);
    assert_eq!(app.tab_bar().active(), Tab::Memory);
    assert_eq!(app.process_list().sort_field(), SortField::Memory);
    let e = app.handle_key(KeyPress::Tab);
    assert!(e.redraw && e.refresh);
    assert_eq!(app.tab_bar().active(), Tab::Cpu);
    let e = app.handle_key(KeyPress::Char('r'));
    assert!(!e.redraw && e.refresh);
    let e = app.handle_key(KeyPress::Char('2'));
    assert_eq!(app.tab_bar().active(), Tab::Memory);
    assert!(e.redraw);
    assert!(!app.should_quit());
    app.handle_key(KeyPress::Char('q'));
    assert!(app.should_quit());
    assert!(app.handle_resize(1024, 768));
    assert!(!app.handle_resize(1024, 768));
    assert_eq!(app.size(), (1024, 768));
    assert_eq!(app.tab_bar().active(), Tab::Memory);
    assert_eq!(window_placement(Rect::new(0, 0, 1920, 1080)), Rect::new(560, 240, 800, 600));
    assert_eq!(window_placement(Rect::new(100, 0, 640, 480)), Rect::new(100, 0, 640, 480));
}

#[test]
fn process_list_scroll_label() {
    // A list 24 + 3 * 22 pixels high shows 3 rows.
    let mut list = ProcessList::new(Rect::new(0, 0, 400, 90));
    assert_eq!(list.visible_rows(), 3);
    list.set_processes(vec![1, 2, 3]);
    assert_eq!(list.scroll_label(), None);
    list.set_processes((1..=10).collect());
    assert_eq!(list.scroll_label().as_deref(), Some("1-3 of 10"));
    list.on_scroll(5);
    assert_eq!(list.scroll_label().as_deref(), Some("6-8 of 10"));
    list.on_scroll(100);
    assert_eq!(list.scroll_label().as_deref(), Some("8-10 of 10"));
}

#[test]
fn shortened_labels() {
    assert_eq!(shortened("bash", 18, 15), "bash");
    assert_eq!(shortened("exactly_eighteen_c", 18, 15), "exactly_eighteen_c");
    assert_eq!(shortened("a_very_long_process_name", 18, 15), "a_very_long_pro...");
    assert_eq!(shortened("systemd-resolved-x", 10, 7), "systemd...");
    // Multi-byte characters are counted in bytes: "ééééééé" is 14 bytes.
    assert_eq!(shortened("ééééééé", 10, 6), "ééé...");
}

#[test]
fn app_state_hover() {
    let mut app = AppState::new(800, 600);
    assert!(app.handle_mouse_move(Point::new(20, 70)));
    assert_eq!(app.tab_bar().hovered(), Some(0));
    assert!(!app.handle_mouse_move(Point::new(30, 72)));
    assert!(app.handle_mouse_move(Point::new(120, 70)));
    assert_eq!(app.tab_bar().hovered(), Some(1));
    assert!(app.handle_mouse_move(Point::new(500, 10)));
    assert_eq!(app.tab_bar().hovered(), None);
    assert_eq!(app.tab_bar().active(), Tab::Cpu);
}
