//! The manager panel's data model: its tabs as a tagged-variant type, one
//! case per pane kind, and the behaviour shared over to the tabs — here the
//! verified part of it: holding the drawer registry and running scripts
//! against the bridge.

use vstd::prelude::*;

verus! {

use vstd::string::StringSliceAdditionalSpecFns;
use vstd::utf8::encode_utf8;
use crate::bridge::{run, run_post, default_id, ScriptError};
use crate::drawers::Drawers;
use crate::scripts::{ScriptCollection, has_name, name_idx};

/// The manager panel's tabs: the named script collection, or the item
/// manager.
pub enum ManagerPane {
    Scripts(ScriptCollection),
    ItemManager,
}

impl Default for ManagerPane {
    /// The pane a fresh tab shows.
    fn default() -> (r: Self)
        ensures
            r is ItemManager,
    {
        ManagerPane::ItemManager
    }
}

impl ManagerPane {
    /// A well-formed pane holds a well-formed script collection.
    pub open spec fn wf(&self) -> bool {
        match self {
            ManagerPane::Scripts(scripts) => scripts.wf(),
            ManagerPane::ItemManager => true,
        }
    }

    /// The pane's tab title: the scripts tab carries its count.
    pub fn tab_title(&self) -> (t: String)
        ensures
            match self {
                ManagerPane::Scripts(scripts) => t@ == "Scripts: "@ + dec_chars(
                    scripts@.len() as nat,
                ),
                ManagerPane::ItemManager => t@ == "Items"@,
            },
    {
        match self {
            ManagerPane::Scripts(scripts) => {
                let mut t = "Scripts: ".to_owned();
                let count = u64_to_string(scripts.len() as u64);
                t.append(count.as_str());
                t
            },
            ManagerPane::ItemManager => "Items".to_owned(),
        }
    }

    /// How many scripts a pane holds: the collection's count on the
    /// scripts tab, nothing on the item manager.
    pub fn script_count(&self) -> (n: usize)
        ensures
            match self {
                ManagerPane::Scripts(scripts) => n as int == scripts@.len(),
                ManagerPane::ItemManager => n == 0,
            },
    {
        match self {
            ManagerPane::Scripts(scripts) => scripts.len(),
            ManagerPane::ItemManager => 0,
        }
    }
}

/// The decimal digit `d` as a character.
pub open spec fn digit_char(d: nat) -> char {
    if d == 0 {
        '0'
    } else if d == 1 {
        '1'
    } else if d == 2 {
        '2'
    } else if d == 3 {
        '3'
    } else if d == 4 {
        '4'
    } else if d == 5 {
        '5'
    } else if d == 6 {
        '6'
    } else if d == 7 {
        '7'
    } else if d == 8 {
        '8'
    } else {
        '9'
    }
}

/// The decimal digits of `n`, most significant first.
pub open spec fn dec_chars(n: nat) -> Seq<char>
    decreases n,
{
    if n < 10 {
        seq![digit_char(n)]
    } else {
        dec_chars(n / 10).push(digit_char(n % 10))
    }
}

/// One decimal digit as text.
fn digit_str(d: u64) -> (s: &'static str)
    requires
        d < 10,
    ensures
        s@ == seq![digit_char(d as nat)],
{
    let s: &'static str = if d == 0 {
        "0"
    } else if d == 1 {
        "1"
    } else if d == 2 {
        "2"
    } else if d == 3 {
        "3"
    } else if d == 4 {
        "4"
    } else if d == 5 {
        "5"
    } else if d == 6 {
        "6"
    } else if d == 7 {
        "7"
    } else if d == 8 {
        "8"
    } else {
        "9"
    };
    proof {
        reveal_strlit("0");
        reveal_strlit("1");
        reveal_strlit("2");
        reveal_strlit("3");
        reveal_strlit("4");
        reveal_strlit("5");
        reveal_strlit("6");
        reveal_strlit("7");
        reveal_strlit("8");
        reveal_strlit("9");
        assert(s@ =~= seq![digit_char(d as nat)]);
    }
    s
}

/// A number written in decimal.
fn u64_to_string(n: u64) -> (s: String)
    ensures
        s@ == dec_chars(n as nat),
    decreases n,
{
    if n < 10 {
        digit_str(n).to_owned()
    } else {
        proof {
            assert(n / 10 < n) by (nonlinear_arith)
                requires
                    n >= 10,
            ;
        }
        let mut s = u64_to_string(n / 10);
        s.append(digit_str(n % 10));
        proof {
            assert(s@ =~= dec_chars(n as nat));
        }
        s
    }
}

/// The manager panel's inner behaviour: the state the tabs share — the
/// drawer registry every script run acts on.
pub struct ManagerBehavior {
    pub registry: Drawers,
}

impl ManagerBehavior {
    /// A behaviour over an empty registry.
    pub fn new() -> (r: ManagerBehavior)
        ensures
            r.registry.wf(),
            r.registry@.len() == 0,
    {
        ManagerBehavior { registry: Drawers::new() }
    }

    /// Runs a script's source against the default drawer.
    pub fn run_script(&mut self, source: &str) -> (r: Result<(), ScriptError>)
        requires
            old(self).registry.wf(),
        ensures
            final(self).registry.wf(),
            run_post(
                old(self).registry@,
                final(self).registry@,
                default_id(),
                source.spec_bytes(),
                r,
            ),
    {
        run(&mut self.registry, source)
    }

    /// Runs the named script of a collection against the default drawer:
    /// hands back `None` when no script carries the name, else the run's
    /// outcome.
    pub fn run_named(&mut self, scripts: &ScriptCollection, name: &String) -> (r: Option<
        Result<(), ScriptError>,
    >)
        requires
            old(self).registry.wf(),
        ensures
            final(self).registry.wf(),
            !has_name(scripts@, name@) ==> (r is None && final(self).registry@ == old(
                self,
            ).registry@),
            has_name(scripts@, name@) ==> (r matches Some(out) && run_post(
                old(self).registry@,
                final(self).registry@,
                default_id(),
                encode_utf8(scripts@[name_idx(scripts@, name@)].1),
                out,
            )),
    {
        match scripts.get(name) {
            Some(text) => Some(self.run_script(text.as_str())),
            None => None,
        }
    }
}

} // verus!
