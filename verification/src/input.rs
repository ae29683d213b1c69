//! From the keys that are held down to the moves the camera makes.

use vstd::prelude::*;

verus! {

/// Which of the keys that steer the camera are down.
#[derive(Debug, Clone, Copy, PartialEq, Eq, Structural)]
pub struct Keys {
    pub w: bool,
    pub s: bool,
    pub a: bool,
    pub d: bool,
    pub space: bool,
    pub left_shift: bool,
    pub left: bool,
    pub right: bool,
    pub up: bool,
    pub down: bool,
}

/// One move of the camera. Distances and angles are in thousandths, of a
/// unit of length and of a radian.
#[derive(Debug, Clone, Copy, PartialEq, Eq, Structural)]
pub enum CameraMove {
    /// Along the line of sight; backwards if negative.
    Forward(i64),
    /// To the right of the line of sight; to the left if negative.
    Right(i64),
    /// Along the camera's up direction; downwards if negative.
    Up(i64),
    /// A turn of the line of sight about the eye.
    Rotate { yaw: i64, pitch: i64 },
}

/// The moves so far, and one more if its key is down.
pub open spec fn and_if(moves: Seq<CameraMove>, pressed: bool, m: CameraMove) -> Seq<CameraMove> {
    if pressed {
        moves.push(m)
    } else {
        moves
    }
}

/// The moves that the keys ask for, in a fixed order: walking, strafing,
/// rising, then turning. Keys that oppose each other both count.
pub open spec fn moves_for(keys: Keys) -> Seq<CameraMove> {
    let m0 = Seq::<CameraMove>::empty();
    let m1 = and_if(m0, keys.w, CameraMove::Forward(5000));
    let m2 = and_if(m1, keys.s, CameraMove::Forward(-5000i64));
    let m3 = and_if(m2, keys.a, CameraMove::Right(-5000i64));
    let m4 = and_if(m3, keys.d, CameraMove::Right(5000));
    let m5 = and_if(m4, keys.space, CameraMove::Up(5000));
    let m6 = and_if(m5, keys.left_shift, CameraMove::Up(-5000i64));
    let m7 = and_if(m6, keys.left, CameraMove::Rotate { yaw: 50, pitch: 0 });
    let m8 = and_if(m7, keys.right, CameraMove::Rotate { yaw: -50i64, pitch: 0 });
    let m9 = and_if(m8, keys.up, CameraMove::Rotate { yaw: 0, pitch: 50 });
    and_if(m9, keys.down, CameraMove::Rotate { yaw: 0, pitch: -50i64 })
}

/// The moves the camera makes in one frame for the keys that are down.
pub fn handle_input(keys: &Keys) -> (moves: Vec<CameraMove>)
    ensures
        moves@ == moves_for(*keys),
{
    let mut moves: Vec<CameraMove> = Vec::new();
    if keys.w {
        moves.push(CameraMove::Forward(5000));
    }
    if keys.s {
        moves.push(CameraMove::Forward(-5000));
    }
    if keys.a {
        moves.push(CameraMove::Right(-5000));
    }
    if keys.d {
        moves.push(CameraMove::Right(5000));
    }
    if keys.space {
        moves.push(CameraMove::Up(5000));
    }
    if keys.left_shift {
        moves.push(CameraMove::Up(-5000));
    }
    if keys.left {
        moves.push(CameraMove::Rotate { yaw: 50, pitch: 0 });
    }
    if keys.right {
        moves.push(CameraMove::Rotate { yaw: -50, pitch: 0 });
    }
    if keys.up {
        moves.push(CameraMove::Rotate { yaw: 0, pitch: 50 });
    }
    if keys.down {
        moves.push(CameraMove::Rotate { yaw: 0, pitch: -50 });
    }
    moves
}

} // verus!
