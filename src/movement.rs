use vstd::prelude::*;

verus! {

/// The movement keys held during one frame.
#[derive(Clone, Copy, Debug, PartialEq, Eq, Structural)]
pub struct Direction {
    pub forward: bool,
    pub backward: bool,
    pub left: bool,
    pub right: bool,
    pub up: bool,
    pub down: bool,
}

impl Direction {
    /// No key held.
    pub fn empty() -> (d: Direction)
        ensures
            !d.forward && !d.backward && !d.left && !d.right && !d.up && !d.down,
    {
        Direction { forward: false, backward: false, left: false, right: false, up: false, down: false }
    }
}

/// How the held keys move the camera: steps of -1, 0 or 1 along its level
/// forward axis, its level right axis and the world's up axis. The level
/// part is scaled to unit length before use when it is not zero; the
/// vertical part is added afterwards as it stands.
#[derive(Clone, Copy, Debug, PartialEq, Eq, Structural)]
pub struct MovementAxes {
    pub forward: i8,
    pub right: i8,
    pub up: i8,
}

/// 1 for a held key, 0 otherwise.
pub open spec fn held(b: bool) -> int {
    if b {
        1
    } else {
        0
    }
}

/// The axes that a set of held keys asks for: each axis is its positive
/// key minus its negative key.
pub open spec fn axes_of(d: Direction) -> MovementAxes {
    MovementAxes {
        forward: (held(d.forward) - held(d.backward)) as i8,
        right: (held(d.right) - held(d.left)) as i8,
        up: (held(d.up) - held(d.down)) as i8,
    }
}

/// The level part of the movement is non-zero and is to be scaled to unit length.
pub open spec fn level_moves(a: MovementAxes) -> bool {
    a.forward != 0 || a.right != 0
}

fn key_difference(positive: bool, negative: bool) -> (r: i8)
    ensures
        r == held(positive) - held(negative),
{
    let p: i8 = if positive {
        1
    } else {
        0
    };
    let n: i8 = if negative {
        1
    } else {
        0
    };
    p - n
}

/// The movement axes for the held keys.
pub fn movement_axes(d: Direction) -> (a: MovementAxes)
    ensures
        a == axes_of(d),
{
    MovementAxes {
        forward: key_difference(d.forward, d.backward),
        right: key_difference(d.right, d.left),
        up: key_difference(d.up, d.down),
    }
}

/// Whether the level part of the movement is to be scaled to unit length:
/// exactly when it is not zero.
pub fn needs_normalising(a: MovementAxes) -> (r: bool)
    ensures
        r == level_moves(a),
{
    a.forward != 0 || a.right != 0
}

/// Forward and backward held together cancel, and so do left and right:
/// the level movement along that axis is zero.
pub proof fn lemma_opposing_keys_cancel(d: Direction)
    ensures
        d.forward && d.backward ==> axes_of(d).forward == 0,
        d.left && d.right ==> axes_of(d).right == 0,
        d.up && d.down ==> axes_of(d).up == 0,
        d.forward && d.backward && !(d.left ^ d.right) ==> !level_moves(axes_of(d)),
{
}

/// The vertical step depends on the up and down keys alone, and is always
/// a whole step when exactly one of them is held, whatever the level keys
/// do; the level keys alone decide whether the level part is scaled.
pub proof fn lemma_vertical_independent(d1: Direction, d2: Direction)
    ensures
        d1.up == d2.up && d1.down == d2.down ==> axes_of(d1).up == axes_of(d2).up,
        d1.up && !d1.down ==> axes_of(d1).up == 1,
        d1.down && !d1.up ==> axes_of(d1).up == -1,
        d1.forward == d2.forward && d1.backward == d2.backward && d1.left == d2.left && d1.right
            == d2.right ==> level_moves(axes_of(d1)) == level_moves(axes_of(d2)),
{
}

} // verus!
