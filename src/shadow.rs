use vstd::prelude::*;

use crate::game::{Direction, Level, LevelView, Position};

verus! {

/// A shadow along the north edge of a cell.
pub const N_EDGE: i32 = 0x1;

/// A shadow along the south edge of a cell.
pub const S_EDGE: i32 = 0x2;

/// A shadow along the east edge of a cell.
pub const E_EDGE: i32 = 0x4;

/// A shadow along the west edge of a cell.
pub const W_EDGE: i32 = 0x8;

/// A shadow in the north-east corner of a cell.
pub const NE_CORNER: i32 = 0x10;

/// A shadow in the north-west corner of a cell.
pub const NW_CORNER: i32 = 0x20;

/// A shadow in the south-east corner of a cell.
pub const SE_CORNER: i32 = 0x40;

/// A shadow in the south-west corner of a cell.
pub const SW_CORNER: i32 = 0x80;

/// The shadows cast onto a floor cell by the walls around it, one bit each.
#[derive(Copy, Clone, Debug, PartialEq, Eq, Structural, Hash)]
pub struct ShadowFlags {
    pub bits: i32,
}

/// `flag` when `cond` holds, else no bit.
pub open spec fn flag_if(cond: bool, flag: i32) -> i32 {
    if cond {
        flag
    } else {
        0
    }
}

/// The shadows on cell `pos` of level `v`: an edge shadow on each side that
/// borders a wall, and a corner shadow on each diagonal that is a wall when
/// neither of the two sides next to that corner already casts one.
pub open spec fn shadows_of(v: LevelView, pos: Position) -> i32 {
    let north = pos.next(Direction::Up);
    let south = pos.next(Direction::Down);
    let n = v.walls.contains(north);
    let s = v.walls.contains(south);
    let w = v.walls.contains(pos.next(Direction::Left));
    let e = v.walls.contains(pos.next(Direction::Right));
    let ne = v.walls.contains(north.next(Direction::Right)) && !n && !e;
    let nw = v.walls.contains(north.next(Direction::Left)) && !n && !w;
    let se = v.walls.contains(south.next(Direction::Right)) && !s && !e;
    let sw = v.walls.contains(south.next(Direction::Left)) && !s && !w;
    flag_if(n, N_EDGE) | flag_if(s, S_EDGE) | flag_if(w, W_EDGE) | flag_if(e, E_EDGE) | flag_if(
        ne,
        NE_CORNER,
    ) | flag_if(nw, NW_CORNER) | flag_if(se, SE_CORNER) | flag_if(sw, SW_CORNER)
}

impl ShadowFlags {
    /// Returns the flags as bits.
    pub fn bits(&self) -> (r: i32)
        ensures
            r == self.bits,
    {
        self.bits
    }

    /// Returns true if every bit of `other` is set in these flags.
    pub fn contains(&self, other: ShadowFlags) -> (r: bool)
        ensures
            r == (self.bits & other.bits == other.bits),
    {
        self.bits & other.bits == other.bits
    }
}

/// Returns `flag` when `cond` holds, else no bit.
fn flag_when(cond: bool, flag: i32) -> (r: i32)
    ensures
        r == flag_if(cond, flag),
{
    if cond {
        flag
    } else {
        0
    }
}

/// Returns the shadow flags for a particular position in the given level.
pub fn get_shadow_flags(level: &Level, pos: &Position) -> (r: ShadowFlags)
    ensures
        r.bits == shadows_of(level@, *pos),
{
    let north = pos.neighbor(Direction::Up);
    let south = pos.neighbor(Direction::Down);
    let n = level.is_wall(&north);
    let s = level.is_wall(&south);
    let w = level.is_wall(&pos.neighbor(Direction::Left));
    let e = level.is_wall(&pos.neighbor(Direction::Right));

    let ne = level.is_wall(&north.neighbor(Direction::Right)) && !n && !e;
    let nw = level.is_wall(&north.neighbor(Direction::Left)) && !n && !w;
    let se = level.is_wall(&south.neighbor(Direction::Right)) && !s && !e;
    let sw = level.is_wall(&south.neighbor(Direction::Left)) && !s && !w;
    let flags = flag_when(n, N_EDGE) | flag_when(s, S_EDGE) | flag_when(w, W_EDGE) | flag_when(
        e,
        E_EDGE,
    ) | flag_when(ne, NE_CORNER) | flag_when(nw, NW_CORNER) | flag_when(se, SE_CORNER)
        | flag_when(sw, SW_CORNER);
    ShadowFlags { bits: flags }
}

} // verus!
