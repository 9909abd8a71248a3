//! Laws of the drawing core, proved once and for all:
//!
//! * a run of forward/turn commands moves a drawer by the vector sum of the
//!   single displacements, each taken along the heading accumulated so far;
//! * the pen state alone decides whether a forward move extends the path;
//! * updates addressed to one drawer identity are independent of updates
//!   addressed to any other: the interleaving does not matter;
//! * a refused statement stops a script run with the registry holding
//!   exactly what the statements before it produced.

use vstd::prelude::*;

verus! {

use vstd::arithmetic::div_mod::lemma_mod_bound;
use crate::trig::{norm_deg, sin_milli_deg, cos_milli_deg};
use crate::drawer::{DrawerModel, Command, step, init_model, clamp_i64};
use crate::drawers::{
    has_id,
    idx_of,
    idx_of_from,
    lemma_idx_of,
    lemma_idx_of_from,
    model_wf,
    reg_step,
};
use crate::bridge::{CallFault, validate, exec_calls};
use crate::script::CallModel;

/// Every command either moves or turns.
pub open spec fn only_moves(cmds: Seq<Command>) -> bool {
    forall|i: int| 0 <= i < cmds.len() ==> ((#[trigger] cmds[i]) is Forward || cmds[i] is Turn)
}

/// The drawer state after a run of commands.
pub open spec fn run_cmds(m: DrawerModel, cmds: Seq<Command>) -> DrawerModel
    decreases cmds.len(),
{
    if cmds.len() == 0 {
        m
    } else {
        run_cmds(step(m, cmds[0]), cmds.drop_first())
    }
}

/// A value the saturating arithmetic passes through unchanged.
pub open spec fn in_i64(v: int) -> bool {
    i64::MIN as int <= v <= i64::MAX as int
}

/// No step of the run saturates: every displacement and every intermediate
/// coordinate stays within `i64`.
pub open spec fn unclamped(m: DrawerModel, cmds: Seq<Command>) -> bool
    decreases cmds.len(),
{
    if cmds.len() == 0 {
        true
    } else {
        (match cmds[0] {
            Command::Forward(d) => {
                &&& in_i64((d as int) * cos_milli_deg(m.heading))
                &&& in_i64((d as int) * sin_milli_deg(m.heading))
                &&& in_i64(m.x + (d as int) * cos_milli_deg(m.heading))
                &&& in_i64(m.y + (d as int) * sin_milli_deg(m.heading))
            },
            _ => true,
        }) && unclamped(step(m, cmds[0]), cmds.drop_first())
    }
}

/// The heading after a run of commands: only turns change it.
pub open spec fn heading_after(h: int, cmds: Seq<Command>) -> int
    decreases cmds.len(),
{
    if cmds.len() == 0 {
        h
    } else {
        match cmds[0] {
            Command::Turn(t) => heading_after(norm_deg(h + t), cmds.drop_first()),
            _ => heading_after(h, cmds.drop_first()),
        }
    }
}

/// The sum of the x displacements of a run, each forward step taken along
/// the heading accumulated at that point.
pub open spec fn sum_dx(h: int, cmds: Seq<Command>) -> int
    decreases cmds.len(),
{
    if cmds.len() == 0 {
        0
    } else {
        match cmds[0] {
            Command::Forward(d) => (d as int) * cos_milli_deg(h) + sum_dx(h, cmds.drop_first()),
            Command::Turn(t) => sum_dx(norm_deg(h + t), cmds.drop_first()),
            _ => sum_dx(h, cmds.drop_first()),
        }
    }
}

/// The sum of the y displacements of a run.
pub open spec fn sum_dy(h: int, cmds: Seq<Command>) -> int
    decreases cmds.len(),
{
    if cmds.len() == 0 {
        0
    } else {
        match cmds[0] {
            Command::Forward(d) => (d as int) * sin_milli_deg(h) + sum_dy(h, cmds.drop_first()),
            Command::Turn(t) => sum_dy(norm_deg(h + t), cmds.drop_first()),
            _ => sum_dy(h, cmds.drop_first()),
        }
    }
}

/// After any run of forward and turn commands that never saturates, the
/// drawer stands at its start plus the vector sum of the displacements, each
/// computed from the cumulative heading, and points along the folded heading.
pub proof fn lemma_position_is_displacement_sum(m: DrawerModel, cmds: Seq<Command>)
    requires
        model_wf(m),
        only_moves(cmds),
        unclamped(m, cmds),
    ensures
        run_cmds(m, cmds).x == m.x + sum_dx(m.heading, cmds),
        run_cmds(m, cmds).y == m.y + sum_dy(m.heading, cmds),
        run_cmds(m, cmds).heading == heading_after(m.heading, cmds),
    decreases cmds.len(),
{
    if cmds.len() > 0 {
        let c = cmds[0];
        let m1 = step(m, c);
        let rest = cmds.drop_first();
        assert(only_moves(rest)) by {
            assert(forall|i: int| 0 <= i < rest.len() ==> rest[i] == cmds[i + 1]);
        }
        match c {
            Command::Forward(d) => {
                assert(clamp_i64((d as int) * cos_milli_deg(m.heading)) == (d as int)
                    * cos_milli_deg(m.heading));
                assert(m1.heading == m.heading);
                lemma_position_is_displacement_sum(m1, rest);
            },
            Command::Turn(t) => {
                lemma_mod_bound(m.heading + t, 360);
                lemma_position_is_displacement_sum(m1, rest);
            },
            _ => {
                assert(false);
            },
        }
    }
}

/// A run of forward and turn commands on a fresh drawer ends at exactly the
/// vector sum of its displacements.
pub proof fn lemma_fresh_drawer_position(cmds: Seq<Command>)
    requires
        only_moves(cmds),
        unclamped(init_model(), cmds),
    ensures
        run_cmds(init_model(), cmds).x == sum_dx(0, cmds),
        run_cmds(init_model(), cmds).y == sum_dy(0, cmds),
        run_cmds(init_model(), cmds).heading == heading_after(0, cmds),
{
    lemma_position_is_displacement_sum(init_model(), cmds);
}

/// The pen alone decides whether a forward move extends the path: pen up
/// appends nothing, pen down appends exactly the arrival point.
pub proof fn lemma_pen_controls_path(m: DrawerModel, d: i64)
    ensures
        !m.pen ==> step(m, Command::Forward(d)).path == m.path,
        m.pen ==> step(m, Command::Forward(d)).path == m.path.push(
            (step(m, Command::Forward(d)).x, step(m, Command::Forward(d)).y),
        ),
{
}

/// The entry a registry holds for an identity, if any.
pub open spec fn entry_state(s: Seq<(Seq<char>, DrawerModel)>, id: Seq<char>) -> Option<
    DrawerModel,
> {
    if has_id(s, id) {
        Some(s[idx_of(s, id)].1)
    } else {
        None
    }
}

/// The drawer an update acts on: the held one, or a fresh one.
pub open spec fn or_init(e: Option<DrawerModel>) -> DrawerModel {
    match e {
        Some(m) => m,
        None => init_model(),
    }
}

/// A registry after a sequence of keyed updates, applied in order.
pub open spec fn apply_updates(
    s: Seq<(Seq<char>, DrawerModel)>,
    us: Seq<(Seq<char>, Command)>,
) -> Seq<(Seq<char>, DrawerModel)>
    decreases us.len(),
{
    if us.len() == 0 {
        s
    } else {
        apply_updates(reg_step(s, us[0].0, us[0].1), us.drop_first())
    }
}

/// The commands of a sequence of keyed updates that address one identity,
/// in order.
pub open spec fn cmds_for(us: Seq<(Seq<char>, Command)>, id: Seq<char>) -> Seq<Command>
    decreases us.len(),
{
    if us.len() == 0 {
        Seq::empty()
    } else if us[0].0 == id {
        seq![us[0].1] + cmds_for(us.drop_first(), id)
    } else {
        cmds_for(us.drop_first(), id)
    }
}

/// An optional entry after a run of commands, the first of which creates
/// the drawer if none is held.
pub open spec fn run_from(e: Option<DrawerModel>, cmds: Seq<Command>) -> Option<DrawerModel>
    decreases cmds.len(),
{
    if cmds.len() == 0 {
        e
    } else {
        run_from(Some(step(or_init(e), cmds[0])), cmds.drop_first())
    }
}

/// `idx_of_from` looks only at the keys.
proof fn lemma_idx_of_from_same_keys(
    s1: Seq<(Seq<char>, DrawerModel)>,
    s2: Seq<(Seq<char>, DrawerModel)>,
    id: Seq<char>,
    i: int,
)
    requires
        s1.len() == s2.len(),
        forall|j: int| 0 <= j < s1.len() ==> (#[trigger] s1[j]).0 == s2[j].0,
    ensures
        idx_of_from(s1, id, i) == idx_of_from(s2, id, i),
    decreases s1.len() - i,
{
    if 0 <= i < s1.len() && s1[i].0 != id {
        lemma_idx_of_from_same_keys(s1, s2, id, i + 1);
    }
}

/// Appending an entry moves a missing identity's position past the end;
/// a present identity keeps its position.
proof fn lemma_idx_of_from_push(
    s: Seq<(Seq<char>, DrawerModel)>,
    e: (Seq<char>, DrawerModel),
    id: Seq<char>,
    i: int,
)
    requires
        0 <= i <= s.len(),
    ensures
        idx_of_from(s.push(e), id, i) == if idx_of_from(s, id, i) < s.len() {
            idx_of_from(s, id, i)
        } else if e.0 == id {
            s.len() as int
        } else {
            s.len() as int + 1
        },
    decreases s.len() - i,
{
    lemma_idx_of_from(s, id, i);
    if i < s.len() && s[i].0 != id {
        lemma_idx_of_from_push(s, e, id, i + 1);
    } else if i == s.len() {
        assert(s.push(e)[i] == e);
        if e.0 != id {
            assert(idx_of_from(s.push(e), id, i + 1) == s.push(e).len());
        }
    }
}

/// An update addressed to an identity leaves that identity's entry stepped
/// by the command, created fresh first when it was absent.
pub proof fn lemma_reg_step_same(s: Seq<(Seq<char>, DrawerModel)>, id: Seq<char>, c: Command)
    ensures
        entry_state(reg_step(s, id, c), id) == Some(step(or_init(entry_state(s, id)), c)),
{
    lemma_idx_of(s, id);
    let s1 = reg_step(s, id, c);
    if has_id(s, id) {
        let k = idx_of(s, id);
        lemma_idx_of_from_same_keys(s1, s, id, 0);
        assert(has_id(s1, id)) by {
            assert(s1[k].0 == id);
        }
        lemma_idx_of(s1, id);
    } else {
        lemma_idx_of_from_push(s, (id, step(init_model(), c)), id, 0);
        assert(has_id(s1, id)) by {
            assert(s1[s.len() as int].0 == id);
        }
        lemma_idx_of(s1, id);
    }
}

/// An update addressed to one identity leaves the entry of every other
/// identity exactly as it was.
pub proof fn lemma_reg_step_other(
    s: Seq<(Seq<char>, DrawerModel)>,
    id: Seq<char>,
    other: Seq<char>,
    c: Command,
)
    requires
        id != other,
    ensures
        entry_state(reg_step(s, other, c), id) == entry_state(s, id),
{
    lemma_idx_of(s, id);
    lemma_idx_of(s, other);
    let s1 = reg_step(s, other, c);
    if has_id(s, other) {
        lemma_idx_of_from_same_keys(s1, s, id, 0);
        lemma_idx_of(s1, id);
        if has_id(s, id) {
            assert(s1[idx_of(s, id)] == s[idx_of(s, id)]);
            assert(has_id(s1, id)) by {
                assert(s1[idx_of(s, id)].0 == id);
            }
        } else {
            assert(!has_id(s1, id)) by {
                if has_id(s1, id) {
                    let w = choose|w: int| 0 <= w < s1.len() && s1[w].0 == id;
                    assert(s[w].0 == id);
                }
            }
        }
    } else {
        lemma_idx_of_from_push(s, (other, step(init_model(), c)), id, 0);
        lemma_idx_of(s1, id);
        if has_id(s, id) {
            assert(idx_of(s1, id) == idx_of(s, id));
            assert(s1[idx_of(s, id)] == s[idx_of(s, id)]);
            assert(has_id(s1, id)) by {
                assert(s1[idx_of(s, id)].0 == id);
            }
        } else {
            assert(idx_of(s1, id) == s.len() + 1);
            assert(!has_id(s1, id)) by {
                lemma_idx_of(s1, id);
            }
        }
    }
}

/// The entry an identity reaches after any interleaving of keyed updates is
/// the run of exactly the commands addressed to it, in their order: updates
/// to other identities cannot touch it.
pub proof fn lemma_updates_independent(
    s: Seq<(Seq<char>, DrawerModel)>,
    us: Seq<(Seq<char>, Command)>,
    id: Seq<char>,
)
    ensures
        entry_state(apply_updates(s, us), id) == run_from(entry_state(s, id), cmds_for(us, id)),
    decreases us.len(),
{
    if us.len() > 0 {
        let uid = us[0].0;
        let c = us[0].1;
        let s1 = reg_step(s, uid, c);
        lemma_updates_independent(s1, us.drop_first(), id);
        if uid == id {
            lemma_reg_step_same(s, id, c);
            let tail = cmds_for(us.drop_first(), id);
            assert((seq![c] + tail).drop_first() =~= tail);
            assert((seq![c] + tail)[0] == c);
        } else {
            lemma_reg_step_other(s, id, uid, c);
        }
    }
}

/// The final states of two distinct drawers after an interleaved run of
/// updates: each is the run of its own commands alone, whatever the
/// interleaving with the other's.
pub proof fn lemma_two_drawers_independent(
    s: Seq<(Seq<char>, DrawerModel)>,
    us: Seq<(Seq<char>, Command)>,
    a: Seq<char>,
    b: Seq<char>,
)
    requires
        a != b,
    ensures
        entry_state(apply_updates(s, us), a) == run_from(entry_state(s, a), cmds_for(us, a)),
        entry_state(apply_updates(s, us), b) == run_from(entry_state(s, b), cmds_for(us, b)),
{
    lemma_updates_independent(s, us, a);
    lemma_updates_independent(s, us, b);
}

/// When a script run stops at a refused statement, the registry holds
/// exactly what the statements before it produced: the refused statement
/// changed nothing, and every earlier statement was valid.
pub proof fn lemma_fault_keeps_prefix(
    s: Seq<(Seq<char>, DrawerModel)>,
    id: Seq<char>,
    calls: Seq<CallModel>,
    k0: int,
)
    requires
        0 <= k0 <= calls.len(),
    ensures
        ({
            let (s2, fault) = exec_calls(s, id, calls, k0);
            match fault {
                None => forall|j: int|
                    k0 <= j < calls.len() ==> validate(#[trigger] calls[j]) is Ok,
                Some((k, f)) => {
                    &&& k0 <= k < calls.len()
                    &&& validate(calls[k]) == Result::<Command, CallFault>::Err(f)
                    &&& forall|j: int| k0 <= j < k ==> validate(#[trigger] calls[j]) is Ok
                    &&& s2 == exec_calls(s, id, calls.take(k), k0).0
                },
            }
        }),
    decreases calls.len() - k0,
{
    if k0 < calls.len() {
        match validate(calls[k0]) {
            Result::Ok(c) => {
                let s1 = reg_step(s, id, c);
                lemma_fault_keeps_prefix(s1, id, calls, k0 + 1);
                let (s2, fault) = exec_calls(s, id, calls, k0);
                match fault {
                    None => {},
                    Some((k, f)) => {
                        assert(calls.take(k)[k0] == calls[k0]);
                        assert(exec_calls(s, id, calls.take(k), k0) == exec_calls(
                            s1,
                            id,
                            calls.take(k),
                            k0 + 1,
                        ));
                    },
                }
            },
            Result::Err(f) => {
                assert(calls.take(k0).len() == k0);
                assert(exec_calls(s, id, calls.take(k0), k0).0 == s);
            },
        }
    }
}

} // verus!
