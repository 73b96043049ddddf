//! Switch definitions: layout geometry and the per-layer action bindings of
//! one physical key. Definitions are created at configuration time, live in
//! an arena, and are referenced by stable index afterwards.

use vstd::prelude::*;
use crate::action::Action;
use crate::action::ActionView;
use crate::action::act_view;
use crate::event::push_capped;

verus! {

/// Keycap outline; layout metadata only, never consulted by the engine.
#[derive(Debug, Clone, Copy, PartialEq, Eq, Structural)]
pub enum Shape {
    Rectangle,
    IsoEnter,
}

/// Fixed-point geometry: all lengths and angles are stored multiplied by
/// `FIXED_POINT_SCALE`, so layout comparisons stay float-free.
pub const FIXED_POINT_SCALE: i32 = 256;

/// One key unit (1u) in fixed-point coordinates.
pub const UNIT: i32 = 256;

/// Width of an ISO enter key: 1.25u in fixed-point coordinates.
pub const ISO_ENTER_W: i32 = 320;

/// Height of an ISO enter key: 2u in fixed-point coordinates.
pub const ISO_ENTER_H: i32 = 512;

/// Number of per-layer action slots of one switch.
pub const ACTIONS_CAP: usize = 4;

/// Placement of a key: centre, size, rotation centre and angle, all in
/// fixed-point units.
#[derive(Debug, Clone, Copy, PartialEq, Eq, Structural)]
pub struct Position {
    pub x: i32,
    pub y: i32,
    pub w: i32,
    pub h: i32,
    pub rx: i32,
    pub ry: i32,
    pub r: i32,
}

impl Position {
    pub fn new(x: i32, y: i32, w: i32, h: i32, r: i32, rx: i32, ry: i32) -> (p: Position)
        ensures
            p == (Position { x, y, w, h, rx, ry, r }),
    {
        Position { x, y, w, h, rx, ry, r }
    }
}

/// One physical key switch: shape, placement, and an ordered list of up to
/// `ACTIONS_CAP` per-layer actions.
#[derive(Debug)]
pub struct Switch {
    pub shape: Shape,
    pub position: Position,
    pub actions: Vec<Action>,
    pub default_action: Action,
}

impl Switch {
    /// The spare action slot; configuration data the engine itself never reads.
    pub open spec fn spec_default_action(self) -> ActionView {
        act_view(self.default_action)
    }

    /// The bound action at `layer`, if that slot is configured.
    pub open spec fn spec_action_at(self, layer: int) -> Option<ActionView> {
        if 0 <= layer < self.actions@.len() {
            Some(act_view(self.actions@[layer]))
        } else {
            None
        }
    }

    /// A harmless placeholder switch with no actions; unbound pins resolve
    /// to it.
    pub fn dummy() -> (r: Switch)
        ensures
            r.shape == Shape::Rectangle,
            r.position == (Position { x: 0, y: 0, w: 0, h: 0, rx: 0, ry: 0, r: 0 }),
            r.actions@ == Seq::<Action>::empty(),
            r.spec_default_action() == ActionView::NoOp,
    {
        Switch {
            shape: Shape::Rectangle,
            position: Position::new(0, 0, 0, 0, 0, 0, 0),
            actions: Vec::new(),
            default_action: Action::NoOp,
        }
    }

    /// A 1u-by-1u rectangular key centred at `(x, y)` (fixed-point units).
    pub fn new(x: i32, y: i32) -> (r: Switch)
        ensures
            r.shape == Shape::Rectangle,
            r.position == (Position { x, y, w: UNIT, h: UNIT, rx: 0, ry: 0, r: 0 }),
            r.actions@ == Seq::<Action>::empty(),
            r.spec_default_action() == ActionView::Trans,
    {
        Switch {
            shape: Shape::Rectangle,
            position: Position::new(x, y, UNIT, UNIT, 0, 0, 0),
            actions: Vec::new(),
            default_action: Action::Trans,
        }
    }

    /// A key of the given shape; an ISO enter key takes its conventional
    /// 1.25u-by-2u footprint.
    pub fn new_with_shape(shape: Shape, x: i32, y: i32) -> (r: Switch)
        ensures
            r.shape == shape,
            r.position == (Position {
                x,
                y,
                w: if shape == Shape::IsoEnter { ISO_ENTER_W } else { UNIT },
                h: if shape == Shape::IsoEnter { ISO_ENTER_H } else { UNIT },
                rx: 0,
                ry: 0,
                r: 0,
            }),
            r.actions@ == Seq::<Action>::empty(),
            r.spec_default_action() == ActionView::Trans,
    {
        let w: i32 = match shape {
            Shape::IsoEnter => ISO_ENTER_W,
            Shape::Rectangle => UNIT,
        };
        let h: i32 = match shape {
            Shape::IsoEnter => ISO_ENTER_H,
            Shape::Rectangle => UNIT,
        };
        Switch {
            shape,
            position: Position::new(x, y, w, h, 0, 0, 0),
            actions: Vec::new(),
            default_action: Action::Trans,
        }
    }

    /// A rectangular key of width `w` and height 1u.
    pub fn new_with_width(x: i32, y: i32, w: i32) -> (r: Switch)
        ensures
            r.shape == Shape::Rectangle,
            r.position == (Position { x, y, w, h: UNIT, rx: 0, ry: 0, r: 0 }),
            r.actions@ == Seq::<Action>::empty(),
            r.spec_default_action() == ActionView::Trans,
    {
        Switch {
            shape: Shape::Rectangle,
            position: Position::new(x, y, w, UNIT, 0, 0, 0),
            actions: Vec::new(),
            default_action: Action::Trans,
        }
    }

    /// A rectangular key of the given width and height.
    pub fn new_with_size(x: i32, y: i32, w: i32, h: i32) -> (r: Switch)
        ensures
            r.shape == Shape::Rectangle,
            r.position == (Position { x, y, w, h, rx: 0, ry: 0, r: 0 }),
            r.actions@ == Seq::<Action>::empty(),
            r.spec_default_action() == ActionView::Trans,
    {
        Switch {
            shape: Shape::Rectangle,
            position: Position::new(x, y, w, h, 0, 0, 0),
            actions: Vec::new(),
            default_action: Action::Trans,
        }
    }

    /// Rotate in place: the rotation centre becomes the key's own centre.
    pub fn rotate(&mut self, r: i32)
        ensures
            final(self).position == (Position {
                r,
                rx: old(self).position.x,
                ry: old(self).position.y,
                ..old(self).position
            }),
            final(self).shape == old(self).shape,
            final(self).actions@ == old(self).actions@,
            final(self).spec_default_action() == old(self).spec_default_action(),
    {
        self.position.r = r;
        self.position.rx = self.position.x;
        self.position.ry = self.position.y;
    }

    /// Rotate around an explicit centre.
    pub fn rotate_at(&mut self, r: i32, rx: i32, ry: i32)
        ensures
            final(self).position == (Position { r, rx, ry, ..old(self).position }),
            final(self).shape == old(self).shape,
            final(self).actions@ == old(self).actions@,
            final(self).spec_default_action() == old(self).spec_default_action(),
    {
        self.position.r = r;
        self.position.rx = rx;
        self.position.ry = ry;
    }

    /// Append a per-layer action; silently dropped once all `ACTIONS_CAP`
    /// slots are filled.
    pub fn append_action(&mut self, a: Action)
        ensures
            final(self).actions@ == push_capped(old(self).actions@, a, ACTIONS_CAP as nat),
            final(self).shape == old(self).shape,
            final(self).position == old(self).position,
            final(self).spec_default_action() == old(self).spec_default_action(),
    {
        if self.actions.len() < ACTIONS_CAP {
            self.actions.push(a);
        }
    }

    /// Replace the spare action slot.
    pub fn default_action(&mut self, a: Action)
        ensures
            final(self).spec_default_action() == act_view(a),
            final(self).shape == old(self).shape,
            final(self).position == old(self).position,
            final(self).actions@ == old(self).actions@,
    {
        self.default_action = a;
    }

    /// The action bound at `layer`, or `None` when that slot is not
    /// configured.
    pub fn action_at(&self, layer: usize) -> (r: Option<&Action>)
        ensures
            match r {
                Some(a) => self.spec_action_at(layer as int) == Some(act_view(*a)),
                None => self.spec_action_at(layer as int) is None,
            },
    {
        if layer < self.actions.len() {
            Some(&self.actions[layer])
        } else {
            None
        }
    }
}


impl Default for Switch {
    /// The harmless dummy switch.
    fn default() -> (r: Switch)
        ensures
            r.shape == Shape::Rectangle,
            r.position == (Position { x: 0, y: 0, w: 0, h: 0, rx: 0, ry: 0, r: 0 }),
            r.actions@ == Seq::<Action>::empty(),
            r.spec_default_action() == ActionView::NoOp,
    {
        Switch::dummy()
    }
}

} // verus!
