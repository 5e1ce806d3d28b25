//! The pointer and keyboard decisions of the interactive snippets: which
//! point a drag moves, when the secant animation runs, and the camera mode
//! of the 3D viewer. The drawing itself is floating point and stays with
//! the graphics code.

use vstd::prelude::*;

verus! {

/// A mouse button.
#[derive(PartialEq, Eq, Structural, Clone, Copy, Debug)]
pub enum Button {
    Left,
    Other,
}

/// A drag of one point (the complex plane and the Mandelbrot view): the
/// left button held down after a press.
#[derive(PartialEq, Eq, Structural, Clone, Copy, Debug)]
pub struct Drag {
    pub dragging: bool,
}

impl Drag {
    pub fn new() -> (d: Drag)
        ensures
            !d.dragging,
    {
        Drag { dragging: false }
    }

    /// A button was pressed: a left press starts the drag.
    pub fn press(&mut self, b: Button)
        ensures
            final(self).dragging == (old(self).dragging || b == Button::Left),
    {
        if b == Button::Left {
            self.dragging = true;
        }
    }

    /// A button was released: a left release ends the drag.
    pub fn release(&mut self, b: Button)
        ensures
            final(self).dragging == (old(self).dragging && b != Button::Left),
    {
        if b == Button::Left {
            self.dragging = false;
        }
    }

    /// Whether a pointer motion moves the point (or the view).
    pub fn follows_pointer(&self) -> (r: bool)
        ensures
            r == self.dragging,
    {
        self.dragging
    }
}

/// Which point of the secant picture a pointer motion moves.
#[derive(PartialEq, Eq, Structural, Clone, Copy, Debug)]
pub enum MoveTarget {
    PointA,
    PointB,
    Nothing,
}

/// The secant picture: two points on a curve that the user can drag; the
/// second point swings back and forth until the user first grabs a point.
#[derive(PartialEq, Eq, Structural, Clone, Copy, Debug)]
pub struct Secant {
    pub touched: bool,
    pub dragging_a: bool,
    pub dragging_b: bool,
}

pub open spec fn move_target_of(s: Secant) -> MoveTarget {
    if s.dragging_a {
        MoveTarget::PointA
    } else if s.dragging_b {
        MoveTarget::PointB
    } else {
        MoveTarget::Nothing
    }
}

/// A pointer motion moves A while A is held, B while only B is held, and
/// nothing once both are let go.
pub proof fn lemma_secant_moves(s: Secant)
    ensures
        s.dragging_a ==> move_target_of(s) == MoveTarget::PointA,
        !s.dragging_a && s.dragging_b ==> move_target_of(s) == MoveTarget::PointB,
        !s.dragging_a && !s.dragging_b ==> move_target_of(s) == MoveTarget::Nothing,
{
}

impl Secant {
    pub fn new() -> (s: Secant)
        ensures
            s == (Secant { touched: false, dragging_a: false, dragging_b: false }),
    {
        Secant { touched: false, dragging_a: false, dragging_b: false }
    }

    /// A button was pressed; `on_a` and `on_b` say whether the pointer was
    /// within reach of point A and of point B. A left press grabs each point
    /// within reach.
    pub fn press(&mut self, b: Button, on_a: bool, on_b: bool)
        ensures
            final(self).dragging_a == (old(self).dragging_a || (b == Button::Left && on_a)),
            final(self).dragging_b == (old(self).dragging_b || (b == Button::Left && on_b)),
            final(self).touched == (old(self).touched || (b == Button::Left && (on_a || on_b))),
    {
        if b == Button::Left {
            if on_a {
                self.dragging_a = true;
                self.touched = true;
            }
            if on_b {
                self.dragging_b = true;
                self.touched = true;
            }
        }
    }

    /// A button was released: a left release lets go of both points.
    pub fn release(&mut self, b: Button)
        ensures
            final(self).touched == old(self).touched,
            b == Button::Left ==> !final(self).dragging_a && !final(self).dragging_b,
            b != Button::Left ==> *final(self) == *old(self),
    {
        if b == Button::Left {
            self.dragging_a = false;
            self.dragging_b = false;
        }
    }

    /// The point that follows the pointer: A when both are held.
    pub fn move_target(&self) -> (r: MoveTarget)
        ensures
            r == move_target_of(*self),
    {
        if self.dragging_a {
            MoveTarget::PointA
        } else if self.dragging_b {
            MoveTarget::PointB
        } else {
            MoveTarget::Nothing
        }
    }

    /// Whether the second point still swings on its own.
    pub fn animates(&self) -> (r: bool)
        ensures
            r == !self.touched,
    {
        !self.touched
    }
}

/// The camera of the 3D viewer: while it is active, the cursor is grabbed
/// and hidden and the keys and mouse move the camera.
#[derive(PartialEq, Eq, Structural, Clone, Copy, Debug)]
pub struct CameraMode {
    pub active: bool,
}

impl CameraMode {
    /// The viewer starts with the camera active.
    pub fn new() -> (c: CameraMode)
        ensures
            c.active,
    {
        CameraMode { active: true }
    }

    /// On the toggle key: whether to ask the window to grab the cursor.
    pub fn grab_request(&self) -> (r: bool)
        ensures
            r == !self.active,
    {
        !self.active
    }

    /// The window answered the grab request: the mode flips when it was
    /// granted and stays when it was refused.
    pub fn grab_answered(&mut self, granted: bool)
        ensures
            final(self).active == (if granted { !old(self).active } else { old(self).active }),
    {
        if granted {
            self.active = !self.active;
        }
    }

    /// Whether the cursor is shown.
    pub fn cursor_visible(&self) -> (r: bool)
        ensures
            r == !self.active,
    {
        !self.active
    }

    /// Whether keys and mouse motion move the camera.
    pub fn moves_camera(&self) -> (r: bool)
        ensures
            r == self.active,
    {
        self.active
    }
}

} // verus!
