//! The scripting bridge: the fixed set of host operations a script may call,
//! and the entry point that runs a script against the drawer registry.
//!
//! A run parses the whole script first; a script that does not follow the
//! grammar is rejected before any effect. The statements then execute in
//! order, each validated for its argument count and types before it acts.
//! The first failing statement stops the run and leaves the registry exactly
//! as the prior successful statements made it: no rollback.

use vstd::prelude::*;

verus! {

use vstd::string::StringSliceAdditionalSpecFns;
use crate::drawer::{DrawerModel, Command};
use crate::drawers::{Drawers, reg_step};
use crate::script::{
    Arg,
    ArgModel,
    Call,
    CallModel,
    parse_script,
    parse_script_exec,
};

/// Why a single statement was refused.
#[derive(Clone, Copy, PartialEq, Eq, Structural, Debug)]
pub enum CallFault {
    /// The argument count or an argument type does not fit the operation.
    BadArguments,
    /// The called name is no operation of the bridge.
    UnknownOperation,
}

/// An interpreter-level failure: the script itself is at fault,
/// not a host operation's arguments.
#[derive(Clone, Copy, PartialEq, Eq, Structural, Debug)]
pub enum RuntimeFault {
    /// The text stops following the grammar at this byte offset.
    Syntax { pos: usize },
    /// The statement at this index calls a name the bridge does not expose.
    UnknownFunction { stmt: usize },
}

/// Why a script run failed.
#[derive(Clone, Copy, PartialEq, Eq, Structural, Debug)]
pub enum ScriptError {
    /// The statement at this index called an operation with a wrong
    /// argument count or a wrong argument type.
    Argument { stmt: usize },
    /// The interpreter failed before or outside any host operation.
    Runtime(RuntimeFault),
}

/// The name `forward`, as bytes.
pub open spec fn name_forward() -> Seq<u8> {
    seq![102u8, 111u8, 114u8, 119u8, 97u8, 114u8, 100u8]
}

/// The name `turn`, as bytes.
pub open spec fn name_turn() -> Seq<u8> {
    seq![116u8, 117u8, 114u8, 110u8]
}

/// The name `pen_color`, as bytes.
pub open spec fn name_pen_color() -> Seq<u8> {
    seq![112u8, 101u8, 110u8, 95u8, 99u8, 111u8, 108u8, 111u8, 114u8]
}

/// The name `pen_up`, as bytes.
pub open spec fn name_pen_up() -> Seq<u8> {
    seq![112u8, 101u8, 110u8, 95u8, 117u8, 112u8]
}

/// The name `pen_down`, as bytes.
pub open spec fn name_pen_down() -> Seq<u8> {
    seq![112u8, 101u8, 110u8, 95u8, 100u8, 111u8, 119u8, 110u8]
}

/// The name `reset`, as bytes.
pub open spec fn name_reset() -> Seq<u8> {
    seq![114u8, 101u8, 115u8, 101u8, 116u8]
}

/// Binds a parsed statement to a drawing command: the name picks the
/// operation, the arguments must match its arity and types exactly.
pub open spec fn validate(c: CallModel) -> Result<Command, CallFault> {
    if c.name == name_forward() {
        if c.args.len() == 1 && c.args[0] is Int {
            Result::Ok(Command::Forward(c.args[0]->Int_0 as i64))
        } else {
            Result::Err(CallFault::BadArguments)
        }
    } else if c.name == name_turn() {
        if c.args.len() == 1 && c.args[0] is Int {
            Result::Ok(Command::Turn(c.args[0]->Int_0 as i64))
        } else {
            Result::Err(CallFault::BadArguments)
        }
    } else if c.name == name_pen_color() {
        if c.args.len() == 3 && c.args[0] is Int && c.args[1] is Int && c.args[2] is Int {
            Result::Ok(
                Command::PenColor(
                    c.args[0]->Int_0 as i64,
                    c.args[1]->Int_0 as i64,
                    c.args[2]->Int_0 as i64,
                ),
            )
        } else {
            Result::Err(CallFault::BadArguments)
        }
    } else if c.name == name_pen_up() {
        if c.args.len() == 0 {
            Result::Ok(Command::PenUp)
        } else {
            Result::Err(CallFault::BadArguments)
        }
    } else if c.name == name_pen_down() {
        if c.args.len() == 0 {
            Result::Ok(Command::PenDown)
        } else {
            Result::Err(CallFault::BadArguments)
        }
    } else if c.name == name_reset() {
        if c.args.len() == 0 {
            Result::Ok(Command::Reset)
        } else {
            Result::Err(CallFault::BadArguments)
        }
    } else {
        Result::Err(CallFault::UnknownOperation)
    }
}

/// Runs the statements from index `k` on: each valid statement steps the
/// drawer carrying `id`; the first refused statement stops the run, and the
/// registry keeps what the statements before it did.
pub open spec fn exec_calls(
    s: Seq<(Seq<char>, DrawerModel)>,
    id: Seq<char>,
    calls: Seq<CallModel>,
    k: int,
) -> (Seq<(Seq<char>, DrawerModel)>, Option<(int, CallFault)>)
    decreases calls.len() - k,
{
    if !(0 <= k < calls.len()) {
        (s, None)
    } else {
        match validate(calls[k]) {
            Result::Ok(c) => exec_calls(reg_step(s, id, c), id, calls, k + 1),
            Result::Err(f) => (s, Some((k, f))),
        }
    }
}

/// What `run_for` leaves in the registry and returns, given the registry's
/// prior state, the target identity and the script bytes.
pub open spec fn run_post(
    s0: Seq<(Seq<char>, DrawerModel)>,
    s1: Seq<(Seq<char>, DrawerModel)>,
    id: Seq<char>,
    src: Seq<u8>,
    r: Result<(), ScriptError>,
) -> bool {
    match parse_script(src) {
        Result::Err(p) => {
            &&& s1 == s0
            &&& r == Result::<(), ScriptError>::Err(
                ScriptError::Runtime(RuntimeFault::Syntax { pos: p as usize }),
            )
        },
        Result::Ok(calls) => {
            let (s2, fault) = exec_calls(s0, id, calls, 0);
            &&& s1 == s2
            &&& match fault {
                None => r is Ok,
                Some((k, CallFault::BadArguments)) => r == Result::<(), ScriptError>::Err(
                    ScriptError::Argument { stmt: k as usize },
                ),
                Some((k, CallFault::UnknownOperation)) => r == Result::<(), ScriptError>::Err(
                    ScriptError::Runtime(RuntimeFault::UnknownFunction { stmt: k as usize }),
                ),
            }
        },
    }
}

/// Compares a parsed name against an expected byte sequence, given as the
/// bytes of one of the operation names.
fn name_matches(v: &Vec<u8>, pat: &Vec<u8>) -> (r: bool)
    ensures
        r == (v@ == pat@),
{
    if v.len() != pat.len() {
        proof {
            assert(v@.len() != pat@.len());
        }
        return false;
    }
    let n = v.len();
    let mut k: usize = 0;
    while k < n
        invariant
            0 <= k <= n,
            n == v@.len(),
            n == pat@.len(),
            forall|m: int| 0 <= m < k ==> v@[m] == pat@[m],
        decreases n - k,
    {
        if v[k] != pat[k] {
            return false;
        }
        k = k + 1;
    }
    proof {
        assert(v@ =~= pat@);
    }
    true
}

/// The bytes of `forward`.
fn pat_forward() -> (v: Vec<u8>)
    ensures
        v@ == name_forward(),
{
    let mut v: Vec<u8> = Vec::new();
    v.push(102);
    v.push(111);
    v.push(114);
    v.push(119);
    v.push(97);
    v.push(114);
    v.push(100);
    proof {
        assert(v@ =~= name_forward());
    }
    v
}

/// The bytes of `turn`.
fn pat_turn() -> (v: Vec<u8>)
    ensures
        v@ == name_turn(),
{
    let mut v: Vec<u8> = Vec::new();
    v.push(116);
    v.push(117);
    v.push(114);
    v.push(110);
    proof {
        assert(v@ =~= name_turn());
    }
    v
}

/// The bytes of `pen_color`.
fn pat_pen_color() -> (v: Vec<u8>)
    ensures
        v@ == name_pen_color(),
{
    let mut v: Vec<u8> = Vec::new();
    v.push(112);
    v.push(101);
    v.push(110);
    v.push(95);
    v.push(99);
    v.push(111);
    v.push(108);
    v.push(111);
    v.push(114);
    proof {
        assert(v@ =~= name_pen_color());
    }
    v
}

/// The bytes of `pen_up`.
fn pat_pen_up() -> (v: Vec<u8>)
    ensures
        v@ == name_pen_up(),
{
    let mut v: Vec<u8> = Vec::new();
    v.push(112);
    v.push(101);
    v.push(110);
    v.push(95);
    v.push(117);
    v.push(112);
    proof {
        assert(v@ =~= name_pen_up());
    }
    v
}

/// The bytes of `pen_down`.
fn pat_pen_down() -> (v: Vec<u8>)
    ensures
        v@ == name_pen_down(),
{
    let mut v: Vec<u8> = Vec::new();
    v.push(112);
    v.push(101);
    v.push(110);
    v.push(95);
    v.push(100);
    v.push(111);
    v.push(119);
    v.push(110);
    proof {
        assert(v@ =~= name_pen_down());
    }
    v
}

/// The bytes of `reset`.
fn pat_reset() -> (v: Vec<u8>)
    ensures
        v@ == name_reset(),
{
    let mut v: Vec<u8> = Vec::new();
    v.push(114);
    v.push(101);
    v.push(115);
    v.push(101);
    v.push(116);
    proof {
        assert(v@ =~= name_reset());
    }
    v
}

/// Reads one integer argument, or refuses the statement.
fn one_int_arg(args: &Vec<Arg>) -> (r: Result<i64, CallFault>)
    ensures
        ({
            let am = args@.map_values(|a: Arg| a@);
            match r {
                Ok(v) => am.len() == 1 && am[0] is Int && am[0]->Int_0 == v as int,
                Err(f) => f == CallFault::BadArguments && !(am.len() == 1 && am[0] is Int),
            }
        }),
{
    if args.len() != 1 {
        return Err(CallFault::BadArguments);
    }
    match &args[0] {
        Arg::Int(v) => Ok(*v),
        Arg::Text(_) => Err(CallFault::BadArguments),
    }
}

/// Binds a parsed statement to the command it names.
fn validate_exec(c: &Call) -> (r: Result<Command, CallFault>)
    ensures
        match r {
            Ok(cmd) => validate(c@) == Result::<Command, CallFault>::Ok(cmd),
            Err(f) => validate(c@) == Result::<Command, CallFault>::Err(f),
        },
{
    if name_matches(&c.name, &pat_forward()) {
        match one_int_arg(&c.args) {
            Ok(d) => Ok(Command::Forward(d)),
            Err(f) => Err(f),
        }
    } else if name_matches(&c.name, &pat_turn()) {
        match one_int_arg(&c.args) {
            Ok(d) => Ok(Command::Turn(d)),
            Err(f) => Err(f),
        }
    } else if name_matches(&c.name, &pat_pen_color()) {
        if c.args.len() != 3 {
            return Err(CallFault::BadArguments);
        }
        let rv = match &c.args[0] {
            Arg::Int(v) => *v,
            Arg::Text(_) => {
                return Err(CallFault::BadArguments);
            },
        };
        let gv = match &c.args[1] {
            Arg::Int(v) => *v,
            Arg::Text(_) => {
                return Err(CallFault::BadArguments);
            },
        };
        let bv = match &c.args[2] {
            Arg::Int(v) => *v,
            Arg::Text(_) => {
                return Err(CallFault::BadArguments);
            },
        };
        Ok(Command::PenColor(rv, gv, bv))
    } else if name_matches(&c.name, &pat_pen_up()) {
        if c.args.len() == 0 {
            Ok(Command::PenUp)
        } else {
            Err(CallFault::BadArguments)
        }
    } else if name_matches(&c.name, &pat_pen_down()) {
        if c.args.len() == 0 {
            Ok(Command::PenDown)
        } else {
            Err(CallFault::BadArguments)
        }
    } else if name_matches(&c.name, &pat_reset()) {
        if c.args.len() == 0 {
            Ok(Command::Reset)
        } else {
            Err(CallFault::BadArguments)
        }
    } else {
        Err(CallFault::UnknownOperation)
    }
}

/// Runs a script against the drawer carrying `id`, creating that drawer at
/// its first update. A script that does not follow the grammar is refused
/// before any effect; a refused statement stops the run and keeps the
/// effects of the statements before it.
pub fn run_for(reg: &mut Drawers, id: &String, source: &str) -> (r: Result<(), ScriptError>)
    requires
        old(reg).wf(),
    ensures
        final(reg).wf(),
        run_post(old(reg)@, final(reg)@, id@, source.spec_bytes(), r),
{
    let bytes = source.as_bytes();
    let calls = match parse_script_exec(bytes) {
        Ok(c) => c,
        Err(p) => {
            return Err(ScriptError::Runtime(RuntimeFault::Syntax { pos: p }));
        },
    };
    let ghost cm = calls@.map_values(|c: Call| c@);
    let n = calls.len();
    let mut k: usize = 0;
    while k < n
        invariant
            0 <= k <= n,
            n == calls@.len(),
            cm == calls@.map_values(|c: Call| c@),
            parse_script(source.spec_bytes()) == Result::<Seq<CallModel>, int>::Ok(cm),
            reg.wf(),
            exec_calls(old(reg)@, id@, cm, 0) == exec_calls(reg@, id@, cm, k as int),
        decreases n - k,
    {
        match validate_exec(&calls[k]) {
            Ok(cmd) => {
                reg.update(id, cmd);
            },
            Err(CallFault::BadArguments) => {
                return Err(ScriptError::Argument { stmt: k });
            },
            Err(CallFault::UnknownOperation) => {
                return Err(ScriptError::Runtime(RuntimeFault::UnknownFunction { stmt: k }));
            },
        }
        k = k + 1;
    }
    Ok(())
}

/// The identity of the drawer a plain `run` addresses.
pub open spec fn default_id() -> Seq<char> {
    "ferris"@
}

/// The identity of the drawer a plain `run` addresses, as a string.
pub fn default_drawer_id() -> (s: String)
    ensures
        s@ == default_id(),
{
    "ferris".to_owned()
}

/// Runs a script against the default drawer, as `run_for` does.
pub fn run(reg: &mut Drawers, source: &str) -> (r: Result<(), ScriptError>)
    requires
        old(reg).wf(),
    ensures
        final(reg).wf(),
        run_post(old(reg)@, final(reg)@, default_id(), source.spec_bytes(), r),
{
    let id = default_drawer_id();
    run_for(reg, &id, source)
}

} // verus!
