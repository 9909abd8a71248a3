use ferris_draw::drawer::Point;
use ferris_draw::panes::{ManagerBehavior, ManagerPane};
use ferris_draw::scripts::ScriptCollection;

#[test]
fn collection_keeps_insertion_order() {
    let mut scripts = ScriptCollection::new();
    assert_eq!(scripts.len(), 0);
    assert_eq!(scripts.insert(String::from("s1"), String::from("forward(1)")), None);
    assert_eq!(scripts.insert(String::from("s2"), String::from("turn(90)")), None);
    assert_eq!(scripts.len(), 2);
    let p0 = scripts.get_index(0).unwrap();
    assert_eq!(p0.0, "s1");
    assert_eq!(p0.1, "forward(1)");
    let p1 = scripts.get_index(1).unwrap();
    assert_eq!(p1.0, "s2");
    assert!(scripts.get_index(2).is_none());
}

#[test]
fn reinserting_keeps_the_place_and_returns_the_old_text() {
    let mut scripts = ScriptCollection::new();
    scripts.insert(String::from("s1"), String::from("forward(1)"));
    scripts.insert(String::from("s2"), String::from("turn(90)"));
    let old = scripts.insert(String::from("s1"), String::from("reset()"));
    assert_eq!(old, Some(String::from("forward(1)")));
    assert_eq!(scripts.len(), 2);
    let p0 = scripts.get_index(0).unwrap();
    assert_eq!(p0.0, "s1");
    assert_eq!(p0.1, "reset()");
}

#[test]
fn removing_closes_the_gap() {
    let mut scripts = ScriptCollection::new();
    scripts.insert(String::from("s1"), String::from("a()"));
    scripts.insert(String::from("s2"), String::from("b()"));
    scripts.insert(String::from("s3"), String::from("c()"));
    assert_eq!(scripts.remove(&String::from("s2")), Some(String::from("b()")));
    assert_eq!(scripts.remove(&String::from("s2")), None);
    assert_eq!(scripts.len(), 2);
    assert_eq!(scripts.get_index(0).unwrap().0, "s1");
    assert_eq!(scripts.get_index(1).unwrap().0, "s3");
    assert!(scripts.get(&String::from("s2")).is_none());
    assert_eq!(scripts.get(&String::from("s3")).unwrap(), "c()");
}

#[test]
fn default_pane_is_the_item_manager() {
    let pane = ManagerPane::default();
    assert!(matches!(pane, ManagerPane::ItemManager));
    assert_eq!(pane.script_count(), 0);
}

#[test]
fn scripts_pane_counts_its_scripts() {
    let mut scripts = ScriptCollection::new();
    scripts.insert(String::from("s1"), String::from("forward(1)"));
    scripts.insert(String::from("s2"), String::from("turn(90)"));
    let pane = ManagerPane::Scripts(scripts);
    assert_eq!(pane.script_count(), 2);
}

#[test]
fn tab_titles_carry_the_script_count() {
    assert_eq!(ManagerPane::ItemManager.tab_title(), "Items");
    let mut scripts = ScriptCollection::new();
    let empty = ManagerPane::Scripts(scripts);
    assert_eq!(empty.tab_title(), "Scripts: 0");
    scripts = match empty {
        ManagerPane::Scripts(s) => s,
        ManagerPane::ItemManager => unreachable!(),
    };
    for i in 0..12 {
        scripts.insert(format!("script{i}"), String::new());
    }
    let pane = ManagerPane::Scripts(scripts);
    assert_eq!(pane.tab_title(), "Scripts: 12");
}

#[test]
fn behavior_runs_scripts_against_its_registry() {
    let mut behavior = ManagerBehavior::new();
    assert!(behavior.run_script("forward(100)").is_ok());
    let id = String::from("ferris");
    let d = behavior.registry.get(&id).unwrap();
    assert_eq!(d.pos, Point { x: 100_000, y: 0 });
}

#[test]
fn behavior_runs_named_scripts() {
    let mut behavior = ManagerBehavior::new();
    let mut scripts = ScriptCollection::new();
    scripts.insert(String::from("go"), String::from("forward(10); turn(90)"));
    let out = behavior.run_named(&scripts, &String::from("go"));
    assert_eq!(out, Some(Ok(())));
    let id = String::from("ferris");
    let d = behavior.registry.get(&id).unwrap();
    assert_eq!(d.pos, Point { x: 10_000, y: 0 });
    assert_eq!(d.heading, 90);
    assert_eq!(behavior.run_named(&scripts, &String::from("missing")), None);
    assert_eq!(behavior.registry.len(), 1);
}
