use ferris_draw::drawer::{Command, Drawer, Point};
use ferris_draw::drawers::Drawers;

#[test]
fn get_or_create_is_stable() {
    let mut reg = Drawers::new();
    let a = String::from("a");
    let b = String::from("b");
    let ha = reg.get_or_create(&a);
    let hb = reg.get_or_create(&b);
    assert_eq!(ha, 0);
    assert_eq!(hb, 1);
    assert_eq!(reg.get_or_create(&a), 0);
    assert_eq!(reg.len(), 2);
}

#[test]
fn update_creates_and_applies() {
    let mut reg = Drawers::new();
    let x = String::from("x");
    reg.update(&x, Command::Forward(10));
    assert_eq!(reg.len(), 1);
    let d = reg.get(&x).unwrap();
    assert_eq!(d.pos, Point { x: 10_000, y: 0 });
    assert_eq!(d.path, vec![Point { x: 10_000, y: 0 }]);
}

#[test]
fn interleaved_updates_leave_each_drawer_its_own_run() {
    let mut reg = Drawers::new();
    let a = String::from("a");
    let b = String::from("b");
    reg.update(&a, Command::Forward(10));
    reg.update(&b, Command::Forward(20));
    reg.update(&a, Command::Turn(90));
    reg.update(&b, Command::PenUp);
    reg.update(&a, Command::Forward(10));
    let da = reg.get(&a).unwrap();
    assert_eq!(da.pos, Point { x: 10_000, y: 10_000 });
    assert_eq!(da.heading, 90);
    assert_eq!(da.path.len(), 2);
    let db = reg.get(&b).unwrap();
    assert_eq!(db.pos, Point { x: 20_000, y: 0 });
    assert!(!db.pen_down);
}

#[test]
fn remove_shifts_order() {
    let mut reg = Drawers::new();
    let a = String::from("a");
    let b = String::from("b");
    let c = String::from("c");
    reg.get_or_create(&a);
    reg.get_or_create(&b);
    reg.get_or_create(&c);
    assert!(reg.remove(&b));
    assert!(!reg.remove(&b));
    assert_eq!(reg.len(), 2);
    let snap = reg.snapshot();
    assert_eq!(snap[0].0, "a");
    assert_eq!(snap[1].0, "c");
    assert!(reg.get(&b).is_none());
}

#[test]
fn snapshot_copies_are_independent() {
    let mut reg = Drawers::new();
    let a = String::from("a");
    reg.update(&a, Command::Forward(5));
    let snap = reg.snapshot();
    reg.update(&a, Command::Forward(5));
    assert_eq!(snap[0].1.pos, Point { x: 5_000, y: 0 });
    assert_eq!(reg.get(&a).unwrap().pos, Point { x: 10_000, y: 0 });
}

#[test]
fn drawer_operations_compose() {
    let mut d = Drawer::new();
    assert!(d.pen_down);
    d.pen_up();
    d.forward(3);
    assert!(d.path.is_empty());
    d.pen_down();
    d.turn(180);
    assert_eq!(d.heading, 180);
    d.forward(1);
    assert_eq!(d.pos, Point { x: 2_000, y: 0 });
    assert_eq!(d.path, vec![Point { x: 2_000, y: 0 }]);
    d.apply(Command::Reset);
    assert_eq!(d.pos, Point { x: 0, y: 0 });
    assert!(d.path.is_empty());
    assert_eq!(d.heading, 0);
}

#[test]
fn drawer_snapshot_is_a_copy() {
    let mut d = Drawer::new();
    d.forward(2);
    let copy = d.snapshot();
    d.forward(2);
    assert_eq!(copy.pos, Point { x: 2_000, y: 0 });
    assert_eq!(copy.path.len(), 1);
    assert_eq!(d.path.len(), 2);
}
