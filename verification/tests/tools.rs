use gstqrtimestamp::tools::{set_open, InnerTools, OpenSet};

#[test]
fn from_tools_starts_with_every_window_closed() {
    let panel = InnerTools::from_tools(vec![vec!["cursor", "input"], vec!["table"]]);
    assert_eq!(panel.tools, vec![vec!["cursor", "input"], vec!["table"]]);
    assert!(panel.open.names().is_empty());
    assert!(!panel.open.contains("cursor"));
    let empty: InnerTools<u8> = InnerTools::from_tools(Vec::new());
    assert!(empty.tools.is_empty());
    assert!(empty.open.names().is_empty());
}

#[test]
fn set_open_adds_a_name_once() {
    let mut open = OpenSet::new();
    set_open(&mut open, "table", true);
    assert!(open.contains("table"));
    assert_eq!(open.names().len(), 1);
    set_open(&mut open, "table", true);
    assert_eq!(open.names(), &vec!["table".to_string()]);
    set_open(&mut open, "input", true);
    assert!(open.contains("table"));
    assert!(open.contains("input"));
    assert!(!open.contains("inpu"));
    assert_eq!(open.names().len(), 2);
}

#[test]
fn set_open_removes_a_name() {
    let mut open = OpenSet::new();
    set_open(&mut open, "a", true);
    set_open(&mut open, "b", true);
    set_open(&mut open, "c", true);
    set_open(&mut open, "b", false);
    assert!(open.contains("a"));
    assert!(!open.contains("b"));
    assert!(open.contains("c"));
    assert_eq!(open.names().len(), 2);
    set_open(&mut open, "b", false);
    set_open(&mut open, "never there", false);
    assert_eq!(open.names().len(), 2);
    set_open(&mut open, "a", false);
    set_open(&mut open, "c", false);
    assert!(open.names().is_empty());
}

#[test]
fn panel_tracks_open_windows() {
    let mut panel = InnerTools::from_tools(vec![vec![1u8, 2], vec![3]]);
    set_open(&mut panel.open, "one", true);
    panel.open.insert("two");
    panel.open.remove("one");
    assert!(!panel.open.contains("one"));
    assert!(panel.open.contains("two"));
    assert_eq!(panel.tools.len(), 2);
}
