use ferris_draw::bridge::{run, run_for, RuntimeFault, ScriptError};
use ferris_draw::drawer::{Color, Point};
use ferris_draw::drawers::Drawers;

#[test]
fn forward_turn_example() {
    let mut reg = Drawers::new();
    let r = run(&mut reg, "forward(100); turn(90); forward(50)");
    assert!(r.is_ok());
    let id = String::from("ferris");
    let d = reg.get(&id).unwrap();
    assert_eq!(d.pos, Point { x: 100_000, y: 50_000 });
    assert_eq!(d.heading, 90);
}

#[test]
fn pen_up_then_down_records_one_point() {
    let mut reg = Drawers::new();
    let r = run(&mut reg, "pen_up(); forward(10); pen_down(); forward(10)");
    assert!(r.is_ok());
    let id = String::from("ferris");
    let d = reg.get(&id).unwrap();
    assert_eq!(d.path, vec![Point { x: 20_000, y: 0 }]);
    assert_eq!(d.pos, Point { x: 20_000, y: 0 });
}

#[test]
fn pen_down_appends_one_point_per_forward() {
    let mut reg = Drawers::new();
    let r = run(&mut reg, "forward(1); forward(2); forward(3)");
    assert!(r.is_ok());
    let id = String::from("ferris");
    let d = reg.get(&id).unwrap();
    assert_eq!(
        d.path,
        vec![
            Point { x: 1_000, y: 0 },
            Point { x: 3_000, y: 0 },
            Point { x: 6_000, y: 0 },
        ]
    );
}

#[test]
fn malformed_argument_keeps_prior_state() {
    let mut reg = Drawers::new();
    assert!(run(&mut reg, "forward(10)").is_ok());
    let r = run(&mut reg, "forward(\"abc\")");
    assert_eq!(r, Err(ScriptError::Argument { stmt: 0 }));
    let id = String::from("ferris");
    let d = reg.get(&id).unwrap();
    assert_eq!(d.pos, Point { x: 10_000, y: 0 });
    assert_eq!(d.path.len(), 1);
}

#[test]
fn malformed_argument_mid_script_keeps_prefix() {
    let mut reg = Drawers::new();
    let r = run(&mut reg, "forward(10); turn(\"x\"); forward(10)");
    assert_eq!(r, Err(ScriptError::Argument { stmt: 1 }));
    let id = String::from("ferris");
    let d = reg.get(&id).unwrap();
    assert_eq!(d.pos, Point { x: 10_000, y: 0 });
    assert_eq!(d.heading, 0);
}

#[test]
fn wrong_argument_count_is_refused() {
    let mut reg = Drawers::new();
    let r = run(&mut reg, "pen_color(1, 2)");
    assert_eq!(r, Err(ScriptError::Argument { stmt: 0 }));
    let r = run(&mut reg, "pen_up(3)");
    assert_eq!(r, Err(ScriptError::Argument { stmt: 0 }));
    assert_eq!(reg.len(), 0);
}

#[test]
fn syntax_error_rejects_whole_script() {
    let mut reg = Drawers::new();
    let r = run(&mut reg, "forward(10); forward(");
    assert_eq!(
        r,
        Err(ScriptError::Runtime(RuntimeFault::Syntax { pos: 21 }))
    );
    assert_eq!(reg.len(), 0);
}

#[test]
fn unknown_function_is_a_runtime_fault() {
    let mut reg = Drawers::new();
    let r = run(&mut reg, "fly(1)");
    assert_eq!(
        r,
        Err(ScriptError::Runtime(RuntimeFault::UnknownFunction { stmt: 0 }))
    );
    assert_eq!(reg.len(), 0);
}

#[test]
fn unknown_function_keeps_prior_effects() {
    let mut reg = Drawers::new();
    let r = run(&mut reg, "forward(10); fly(1)");
    assert_eq!(
        r,
        Err(ScriptError::Runtime(RuntimeFault::UnknownFunction { stmt: 1 }))
    );
    let id = String::from("ferris");
    let d = reg.get(&id).unwrap();
    assert_eq!(d.pos, Point { x: 10_000, y: 0 });
}

#[test]
fn turn_wraps_into_degree_range() {
    let mut reg = Drawers::new();
    assert!(run(&mut reg, "turn(-90)").is_ok());
    let id = String::from("ferris");
    assert_eq!(reg.get(&id).unwrap().heading, 270);

    let mut reg2 = Drawers::new();
    assert!(run(&mut reg2, "turn(450)").is_ok());
    assert_eq!(reg2.get(&id).unwrap().heading, 90);

    let mut reg3 = Drawers::new();
    assert!(run(&mut reg3, "turn(-360)").is_ok());
    assert_eq!(reg3.get(&id).unwrap().heading, 0);
}

#[test]
fn pen_color_is_stored() {
    let mut reg = Drawers::new();
    assert!(run(&mut reg, "pen_color(12, 34, 56)").is_ok());
    let id = String::from("ferris");
    let d = reg.get(&id).unwrap();
    assert_eq!(d.color, Color { r: 12, g: 34, b: 56 });
    assert_eq!(d.pos, Point { x: 0, y: 0 });
    assert!(d.path.is_empty());
}

#[test]
fn reset_restores_initial_state() {
    let mut reg = Drawers::new();
    let r = run(&mut reg, "forward(10); turn(45); pen_up(); pen_color(1,2,3); reset()");
    assert!(r.is_ok());
    let id = String::from("ferris");
    let d = reg.get(&id).unwrap();
    assert_eq!(d.pos, Point { x: 0, y: 0 });
    assert_eq!(d.heading, 0);
    assert_eq!(d.color, Color { r: 255, g: 255, b: 255 });
    assert!(d.pen_down);
    assert!(d.path.is_empty());
}

#[test]
fn empty_scripts_do_nothing() {
    let mut reg = Drawers::new();
    assert!(run(&mut reg, "").is_ok());
    assert!(run(&mut reg, "   ").is_ok());
    assert!(run(&mut reg, " ; ;; ").is_ok());
    assert_eq!(reg.len(), 0);
}

#[test]
fn first_command_creates_the_default_drawer() {
    let mut reg = Drawers::new();
    assert!(run(&mut reg, "pen_up()").is_ok());
    assert_eq!(reg.len(), 1);
    let id = String::from("ferris");
    let d = reg.get(&id).unwrap();
    assert!(!d.pen_down);
    assert!(d.path.is_empty());
}

#[test]
fn run_for_keeps_distinct_drawers_independent() {
    let mut reg = Drawers::new();
    let a = String::from("a");
    let b = String::from("b");
    assert!(run_for(&mut reg, &a, "forward(100)").is_ok());
    assert!(run_for(&mut reg, &b, "turn(90); forward(7)").is_ok());
    assert!(run_for(&mut reg, &a, "forward(50)").is_ok());
    let da = reg.get(&a).unwrap();
    assert_eq!(da.pos, Point { x: 150_000, y: 0 });
    assert_eq!(da.heading, 0);
    let db = reg.get(&b).unwrap();
    assert_eq!(db.pos, Point { x: 0, y: 7_000 });
    assert_eq!(db.heading, 90);
    let snap = reg.snapshot();
    assert_eq!(snap.len(), 2);
    assert_eq!(snap[0].0, "a");
    assert_eq!(snap[1].0, "b");
}

#[test]
fn long_distances_saturate() {
    let mut reg = Drawers::new();
    assert!(run(&mut reg, "forward(999999999999999999)").is_ok());
    let id = String::from("ferris");
    let d = reg.get(&id).unwrap();
    assert_eq!(d.pos, Point { x: i64::MAX, y: 0 });
}

#[test]
fn nineteen_digit_literals_are_refused() {
    let mut reg = Drawers::new();
    let r = run(&mut reg, "forward(1234567890123456789)");
    assert_eq!(
        r,
        Err(ScriptError::Runtime(RuntimeFault::Syntax { pos: 8 }))
    );
    assert_eq!(reg.len(), 0);
}

#[test]
fn thirty_degree_headings_use_the_rational_sine() {
    let mut reg = Drawers::new();
    assert!(run(&mut reg, "turn(30); forward(10)").is_ok());
    let id = String::from("ferris");
    assert_eq!(reg.get(&id).unwrap().pos, Point { x: 8_640, y: 5_000 });

    let mut reg2 = Drawers::new();
    assert!(run(&mut reg2, "turn(60); forward(10)").is_ok());
    assert_eq!(reg2.get(&id).unwrap().pos, Point { x: 5_000, y: 8_640 });
}

#[test]
fn text_arguments_parse_but_fit_no_operation() {
    let mut reg = Drawers::new();
    let r = run(&mut reg, "fly(\"hello world\")");
    assert_eq!(
        r,
        Err(ScriptError::Runtime(RuntimeFault::UnknownFunction { stmt: 0 }))
    );
    assert_eq!(reg.len(), 0);
}

#[test]
fn a_call_needs_its_parentheses() {
    let mut reg = Drawers::new();
    let r = run(&mut reg, "forward");
    assert_eq!(
        r,
        Err(ScriptError::Runtime(RuntimeFault::Syntax { pos: 7 }))
    );
    let r2 = run(&mut reg, "forward(\"abc");
    assert_eq!(
        r2,
        Err(ScriptError::Runtime(RuntimeFault::Syntax { pos: 8 }))
    );
    assert_eq!(reg.len(), 0);
}

#[test]
fn whitespace_between_tokens_is_ignored() {
    let mut reg = Drawers::new();
    let r = run(&mut reg, "  pen_color( 1 ,\t2 ,\n3 ) ;  forward ( 5 )  ");
    assert!(r.is_ok());
    let id = String::from("ferris");
    let d = reg.get(&id).unwrap();
    assert_eq!(d.color, Color { r: 1, g: 2, b: 3 });
    assert_eq!(d.pos, Point { x: 5_000, y: 0 });
}
