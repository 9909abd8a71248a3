//! The drawer data model: a turtle-graphics agent with a position, a heading,
//! a pen (colour and up/down state) and the path it has drawn so far.
//!
//! Coordinates are fixed point, in thousandths of a drawing unit, so that a
//! heading's sine and cosine (scaled by 1000) turn a whole-unit distance into
//! a coordinate offset exactly. Arithmetic that would leave `i64` saturates at
//! its bounds.

use vstd::prelude::*;

verus! {

use crate::trig::{norm_deg, sin_milli_deg, cos_milli_deg, sin_milli, cos_milli, norm_deg_i128};

/// An RGB pen colour. Channels are plain integers; no range is enforced.
#[derive(Clone, Copy, PartialEq, Eq, Structural, Debug)]
pub struct Color {
    pub r: i64,
    pub g: i64,
    pub b: i64,
}

/// A point of the canvas, in thousandths of a drawing unit.
#[derive(Clone, Copy, PartialEq, Eq, Structural, Debug)]
pub struct Point {
    pub x: i64,
    pub y: i64,
}

/// One drawing operation, as the scripting bridge hands it to a drawer.
#[derive(Clone, Copy, PartialEq, Eq, Structural, Debug)]
pub enum Command {
    /// Move along the current heading by a whole-unit distance,
    /// drawing if the pen is down.
    Forward(i64),
    /// Turn by a relative angle in degrees, counterclockwise positive.
    Turn(i64),
    /// Set the pen colour.
    PenColor(i64, i64, i64),
    /// Lift the pen: movement stops extending the path.
    PenUp,
    /// Lower the pen: movement extends the path again.
    PenDown,
    /// Return the drawer to its initial state and clear the path.
    Reset,
}

/// The mathematical state of a drawer.
#[verifier::ext_equal]
pub ghost struct DrawerModel {
    pub x: int,
    pub y: int,
    pub heading: int,
    pub color: (int, int, int),
    pub pen: bool,
    pub path: Seq<(int, int)>,
}

/// A turtle-graphics agent: where it stands, where it points, what its pen
/// does, and the points its pen has laid down.
#[derive(Debug)]
pub struct Drawer {
    pub pos: Point,
    pub heading: i64,
    pub color: Color,
    pub pen_down: bool,
    pub path: Vec<Point>,
}

impl View for Drawer {
    type V = DrawerModel;

    open spec fn view(&self) -> DrawerModel {
        DrawerModel {
            x: self.pos.x as int,
            y: self.pos.y as int,
            heading: self.heading as int,
            color: (self.color.r as int, self.color.g as int, self.color.b as int),
            pen: self.pen_down,
            path: self.path@.map_values(|p: Point| (p.x as int, p.y as int)),
        }
    }
}

/// The state of a freshly created (or reset) drawer: at the origin, pointing
/// along the positive x axis, pen down, white, empty path.
pub open spec fn init_model() -> DrawerModel {
    DrawerModel { x: 0, y: 0, heading: 0, color: (255, 255, 255), pen: true, path: Seq::empty() }
}

/// Saturates an integer at the `i64` bounds.
pub open spec fn clamp_i64(v: int) -> int {
    if v < i64::MIN as int {
        i64::MIN as int
    } else if v > i64::MAX as int {
        i64::MAX as int
    } else {
        v
    }
}

/// The x offset of a forward move: distance times the heading's cosine.
pub open spec fn forward_dx(heading: int, d: int) -> int {
    clamp_i64(d * cos_milli_deg(heading))
}

/// The y offset of a forward move: distance times the heading's sine.
pub open spec fn forward_dy(heading: int, d: int) -> int {
    clamp_i64(d * sin_milli_deg(heading))
}

/// What one command does to a drawer's state.
pub open spec fn step(m: DrawerModel, c: Command) -> DrawerModel {
    match c {
        Command::Forward(d) => {
            let nx = clamp_i64(m.x + forward_dx(m.heading, d as int));
            let ny = clamp_i64(m.y + forward_dy(m.heading, d as int));
            DrawerModel {
                x: nx,
                y: ny,
                path: if m.pen {
                    m.path.push((nx, ny))
                } else {
                    m.path
                },
                ..m
            }
        },
        Command::Turn(t) => DrawerModel { heading: norm_deg(m.heading + t), ..m },
        Command::PenColor(r, g, b) => DrawerModel { color: (r as int, g as int, b as int), ..m },
        Command::PenUp => DrawerModel { pen: false, ..m },
        Command::PenDown => DrawerModel { pen: true, ..m },
        Command::Reset => init_model(),
    }
}

/// Saturates an `i128` intermediate into an `i64`.
fn clamp_to_i64(v: i128) -> (r: i64)
    ensures
        r as int == clamp_i64(v as int),
{
    if v < i64::MIN as i128 {
        i64::MIN
    } else if v > i64::MAX as i128 {
        i64::MAX
    } else {
        v as i64
    }
}

impl Drawer {
    /// A drawer's heading is always held reduced to `[0, 360)` degrees.
    pub open spec fn wf(&self) -> bool {
        0 <= self.heading < 360
    }

    /// A fresh drawer in the initial state.
    pub fn new() -> (d: Drawer)
        ensures
            d@ == init_model(),
            d.wf(),
    {
        let d = Drawer {
            pos: Point { x: 0, y: 0 },
            heading: 0,
            color: Color { r: 255, g: 255, b: 255 },
            pen_down: true,
            path: Vec::new(),
        };
        proof {
            assert(d@ =~= init_model());
        }
        d
    }

    /// Moves the drawer along its heading; when the pen is down, appends
    /// exactly the arrival point to the path.
    pub fn forward(&mut self, d: i64)
        requires
            old(self).wf(),
        ensures
            final(self)@ == step(old(self)@, Command::Forward(d)),
            final(self).wf(),
            old(self).pen_down ==> final(self).path@ == old(self).path@.push(final(self).pos),
            !old(self).pen_down ==> final(self).path@ == old(self).path@,
    {
        let c = cos_milli(self.heading);
        let s = sin_milli(self.heading);
        proof {
            assert(-1000 * 0x8000_0000_0000_0000 <= (d as int) * (c as int)
                <= 1000 * 0x8000_0000_0000_0000) by (nonlinear_arith)
                requires
                    -0x8000_0000_0000_0000 <= d as int <= 0x7fff_ffff_ffff_ffff,
                    -1000 <= c as int <= 1000,
            ;
            assert(-1000 * 0x8000_0000_0000_0000 <= (d as int) * (s as int)
                <= 1000 * 0x8000_0000_0000_0000) by (nonlinear_arith)
                requires
                    -0x8000_0000_0000_0000 <= d as int <= 0x7fff_ffff_ffff_ffff,
                    -1000 <= s as int <= 1000,
            ;
        }
        let dx = clamp_to_i64((d as i128) * (c as i128));
        let dy = clamp_to_i64((d as i128) * (s as i128));
        let nx = clamp_to_i64((self.pos.x as i128) + (dx as i128));
        let ny = clamp_to_i64((self.pos.y as i128) + (dy as i128));
        self.pos = Point { x: nx, y: ny };
        if self.pen_down {
            self.path.push(Point { x: nx, y: ny });
        }
        proof {
            assert(self@.path =~= step(old(self)@, Command::Forward(d)).path);
            assert(self@ =~= step(old(self)@, Command::Forward(d)));
        }
    }

    /// Turns the drawer by a relative angle in degrees,
    /// counterclockwise positive.
    pub fn turn(&mut self, t: i64)
        requires
            old(self).wf(),
        ensures
            final(self)@ == step(old(self)@, Command::Turn(t)),
            final(self).wf(),
            final(self).path@ == old(self).path@,
    {
        let nh = norm_deg_i128((self.heading as i128) + (t as i128));
        self.heading = nh;
        proof {
            assert(self@ =~= step(old(self)@, Command::Turn(t)));
        }
    }

    /// Sets the pen colour.
    pub fn set_color(&mut self, r: i64, g: i64, b: i64)
        requires
            old(self).wf(),
        ensures
            final(self)@ == step(old(self)@, Command::PenColor(r, g, b)),
            final(self).wf(),
    {
        self.color = Color { r, g, b };
        proof {
            assert(self@ =~= step(old(self)@, Command::PenColor(r, g, b)));
        }
    }

    /// Lifts the pen.
    pub fn pen_up(&mut self)
        requires
            old(self).wf(),
        ensures
            final(self)@ == step(old(self)@, Command::PenUp),
            final(self).wf(),
    {
        self.pen_down = false;
        proof {
            assert(self@ =~= step(old(self)@, Command::PenUp));
        }
    }

    /// Lowers the pen.
    pub fn pen_down(&mut self)
        requires
            old(self).wf(),
        ensures
            final(self)@ == step(old(self)@, Command::PenDown),
            final(self).wf(),
    {
        self.pen_down = true;
        proof {
            assert(self@ =~= step(old(self)@, Command::PenDown));
        }
    }

    /// Returns the drawer to the initial state, clearing the path.
    pub fn reset(&mut self)
        ensures
            final(self)@ == step(old(self)@, Command::Reset),
            final(self).wf(),
    {
        self.pos = Point { x: 0, y: 0 };
        self.heading = 0;
        self.color = Color { r: 255, g: 255, b: 255 };
        self.pen_down = true;
        self.path = Vec::new();
        proof {
            assert(self@ =~= init_model());
        }
    }

    /// Applies one command, dispatching to the operation it names.
    pub fn apply(&mut self, c: Command)
        requires
            old(self).wf(),
        ensures
            final(self)@ == step(old(self)@, c),
            final(self).wf(),
    {
        match c {
            Command::Forward(d) => self.forward(d),
            Command::Turn(t) => self.turn(t),
            Command::PenColor(r, g, b) => self.set_color(r, g, b),
            Command::PenUp => self.pen_up(),
            Command::PenDown => self.pen_down(),
            Command::Reset => self.reset(),
        }
    }

    /// An independent copy of this drawer's state, for the render pass.
    pub fn snapshot(&self) -> (d: Drawer)
        ensures
            d@ == self@,
            d.pos == self.pos,
            d.heading == self.heading,
            d.color == self.color,
            d.pen_down == self.pen_down,
            d.path@ == self.path@,
    {
        let mut path: Vec<Point> = Vec::new();
        let mut j: usize = 0;
        while j < self.path.len()
            invariant
                j <= self.path.len(),
                path@ == self.path@.subrange(0, j as int),
            decreases self.path.len() - j,
        {
            path.push(self.path[j]);
            proof {
                assert(path@ =~= self.path@.subrange(0, j + 1));
            }
            j = j + 1;
        }
        proof {
            assert(path@ =~= self.path@);
        }
        let d = Drawer {
            pos: self.pos,
            heading: self.heading,
            color: self.color,
            pen_down: self.pen_down,
            path,
        };
        proof {
            assert(d@ =~= self@);
        }
        d
    }
}

} // verus!
