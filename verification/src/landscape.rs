use vstd::prelude::*;

verus! {

/// Number of cells along each side of one landscape tile.
pub const SQUARES: usize = 96;

/// Number of height/kind samples along each side of one tile (`SQUARES + 1`).
pub const GRID: usize = 97;

/// Tiles of landscape along x.
pub const LAND_X: usize = 4;

/// Tiles of landscape along z.
pub const LAND_Z: usize = 4;

/// Kinds of ground a cell can be.
pub const WATER: u8 = 0;
pub const LAND: u8 = 1;
pub const AIR_STRIP: u8 = 2;
pub const SAND: u8 = 3;

/// The cell `(z, x)` lies in the 4 by 4 window that a land cell at
/// `(cz, cx)` turns to sand: two cells before it and one after it, on each axis.
pub open spec fn covers(cz: int, cx: int, z: int, x: int) -> bool {
    cz - 2 <= z < cz + 2 && cx - 2 <= x < cx + 2
}

/// A land cell that is far enough from the tile's edge to make a beach.
pub open spec fn beach_centre(g: [[u8; GRID]; GRID], cz: int, cx: int) -> bool {
    2 <= cz < SQUARES - 3 && 2 <= cx < SQUARES - 3 && g[cz][cx] == LAND
}

/// Some beach centre covers `(z, x)`.
pub open spec fn near_land(g: [[u8; GRID]; GRID], z: int, x: int) -> bool {
    exists|cz: int, cx: int| #[trigger] beach_centre(g, cz, cx) && covers(cz, cx, z, x)
}

/// What a cell holds once water next to land has become sand.
pub open spec fn with_beach(g: [[u8; GRID]; GRID], z: int, x: int) -> u8 {
    if g[z][x] == WATER && near_land(g, z, x) { SAND } else { g[z][x] }
}

/// Turns the water in the window around the land cell `(cz, cx)` into sand.
fn mark_sand_around(what: &mut [[u8; GRID]; GRID], cz: usize, cx: usize)
    requires
        2 <= cz < SQUARES - 3,
        2 <= cx < SQUARES - 3,
    ensures
        forall|z: int, x: int|
            0 <= z < GRID && 0 <= x < GRID ==> #[trigger] final(what)[z][x] == if covers(
                cz as int,
                cx as int,
                z,
                x,
            ) && old(what)[z][x] == WATER {
                SAND
            } else {
                old(what)[z][x]
            },
{
    let ghost g = *what;
    let mut z: usize = cz - 2;
    while z < cz + 2
        invariant
            2 <= cz < SQUARES - 3,
            2 <= cx < SQUARES - 3,
            cz - 2 <= z <= cz + 2,
            forall|i: int, j: int|
                0 <= i < GRID && 0 <= j < GRID ==> #[trigger] what[i][j] == if covers(
                    cz as int,
                    cx as int,
                    i,
                    j,
                ) && i < z && g[i][j] == WATER {
                    SAND
                } else {
                    g[i][j]
                },
        decreases cz + 2 - z,
    {
        let mut x: usize = cx - 2;
        while x < cx + 2
            invariant
                2 <= cz < SQUARES - 3,
                2 <= cx < SQUARES - 3,
                cz - 2 <= z < cz + 2,
                cx - 2 <= x <= cx + 2,
                forall|i: int, j: int|
                    0 <= i < GRID && 0 <= j < GRID ==> #[trigger] what[i][j] == if covers(
                        cz as int,
                        cx as int,
                        i,
                        j,
                    ) && (i < z || (i == z && j < x)) && g[i][j] == WATER {
                        SAND
                    } else {
                        g[i][j]
                    },
            decreases cx + 2 - x,
        {
            if what[z][x] == WATER {
                what[z][x] = SAND;
            }
            x = x + 1;
        }
        z = z + 1;
    }
}

/// Rings every land cell of the tile's interior with sand: each water cell
/// in the 4 by 4 window around a land cell (two cells before it and one
/// after it along each axis) becomes sand. Land, sand and air strip cells
/// are left as they are.
pub fn add_sand_borders(what: &mut [[u8; GRID]; GRID])
    ensures
        forall|z: int, x: int|
            0 <= z < GRID && 0 <= x < GRID ==> #[trigger] final(what)[z][x] == with_beach(
                *old(what),
                z,
                x,
            ),
{
    let ghost g = *what;
    let mut zz: usize = 2;
    while zz < SQUARES - 3
        invariant
            2 <= zz <= SQUARES - 3,
            forall|z: int, x: int|
                0 <= z < GRID && 0 <= x < GRID ==> #[trigger] what[z][x] == if g[z][x] == WATER
                    && exists|cz: int, cx: int|
                    #[trigger] beach_centre(g, cz, cx) && cz < zz && covers(cz, cx, z, x) {
                    SAND
                } else {
                    g[z][x]
                },
        decreases SQUARES - 3 - zz,
    {
        let mut xx: usize = 2;
        while xx < SQUARES - 3
            invariant
                2 <= zz < SQUARES - 3,
                2 <= xx <= SQUARES - 3,
                forall|z: int, x: int|
                    0 <= z < GRID && 0 <= x < GRID ==> #[trigger] what[z][x] == if g[z][x] == WATER
                        && exists|cz: int, cx: int|
                        #[trigger] beach_centre(g, cz, cx) && (cz < zz || (cz == zz && cx < xx))
                            && covers(cz, cx, z, x) {
                        SAND
                    } else {
                        g[z][x]
                    },
            decreases SQUARES - 3 - xx,
        {
            if what[zz][xx] == LAND {
                let ghost before = *what;
                mark_sand_around(what, zz, xx);
                assert(beach_centre(g, zz as int, xx as int));
                assert forall|z: int, x: int|
                    0 <= z < GRID && 0 <= x < GRID implies #[trigger] what[z][x] == if g[z][x]
                        == WATER && exists|cz: int, cx: int|
                        #[trigger] beach_centre(g, cz, cx) && (cz < zz || (cz == zz && cx < xx
                            + 1)) && covers(cz, cx, z, x) {
                        SAND
                    } else {
                        g[z][x]
                    } by {
                    if g[z][x] == WATER && covers(zz as int, xx as int, z, x) {
                        assert(beach_centre(g, zz as int, xx as int));
                    }
                    if g[z][x] == WATER && exists|cz: int, cx: int|
                        #[trigger] beach_centre(g, cz, cx) && (cz < zz || (cz == zz && cx < xx
                            + 1)) && covers(cz, cx, z, x) {
                        let (cz, cx) = choose|cz: int, cx: int|
                            #[trigger] beach_centre(g, cz, cx) && (cz < zz || (cz == zz && cx < xx
                                + 1)) && covers(cz, cx, z, x);
                        if !(cz == zz && cx == xx) {
                            assert(before[z][x] == SAND);
                        }
                    }
                }
            } else {
                assert forall|z: int, x: int|
                    0 <= z < GRID && 0 <= x < GRID implies #[trigger] what[z][x] == if g[z][x]
                        == WATER && exists|cz: int, cx: int|
                        #[trigger] beach_centre(g, cz, cx) && (cz < zz || (cz == zz && cx < xx
                            + 1)) && covers(cz, cx, z, x) {
                        SAND
                    } else {
                        g[z][x]
                    } by {
                    if g[z][x] == WATER && exists|cz: int, cx: int|
                        #[trigger] beach_centre(g, cz, cx) && (cz < zz || (cz == zz && cx < xx
                            + 1)) && covers(cz, cx, z, x) {
                        let (cz, cx) = choose|cz: int, cx: int|
                            #[trigger] beach_centre(g, cz, cx) && (cz < zz || (cz == zz && cx < xx
                                + 1)) && covers(cz, cx, z, x);
                        assert(cz != zz || cx != xx);
                    }
                }
            }
            xx = xx + 1;
        }
        zz = zz + 1;
    }
}

/// Law: the beach pass changes a cell only from water to sand, and exactly
/// where land is near. A cell that turns to sand lies in the window (two
/// cells before, one after, on each axis) of a land cell of the input at that
/// same row and column, at least two cells inside the tile's edges; and every
/// water cell in the window of such a land cell turns to sand.
pub proof fn lemma_beach_only_near_land(g: [[u8; GRID]; GRID], z: int, x: int)
    requires
        0 <= z < GRID,
        0 <= x < GRID,
    ensures
        with_beach(g, z, x) == g[z][x] || (g[z][x] == WATER && with_beach(g, z, x) == SAND),
        with_beach(g, z, x) != g[z][x] ==> exists|cz: int, cx: int|
            #![trigger g[cz][cx]]
            2 <= cz < SQUARES - 3 && 2 <= cx < SQUARES - 3 && g[cz][cx] == LAND && cz - 2 <= z < cz
                + 2 && cx - 2 <= x < cx + 2,
        forall|cz: int, cx: int|
            #![trigger g[cz][cx]]
            2 <= cz < SQUARES - 3 && 2 <= cx < SQUARES - 3 && g[cz][cx] == LAND && cz - 2 <= z < cz
                + 2 && cx - 2 <= x < cx + 2 && g[z][x] == WATER ==> with_beach(g, z, x) == SAND,
{
    if with_beach(g, z, x) != g[z][x] {
        let (cz, cx) = choose|cz: int, cx: int|
            #[trigger] beach_centre(g, cz, cx) && covers(cz, cx, z, x);
        assert(g[cz][cx] == LAND);
    }
    assert forall|cz: int, cx: int|
        #![trigger g[cz][cx]]
        2 <= cz < SQUARES - 3 && 2 <= cx < SQUARES - 3 && g[cz][cx] == LAND && cz - 2 <= z < cz + 2
            && cx - 2 <= x < cx + 2 && g[z][x] == WATER implies with_beach(g, z, x) == SAND by {
        assert(beach_centre(g, cz, cx) && covers(cz, cx, z, x));
    }
}

/// Folds a tile coordinate that has run past either edge of the world back
/// onto the tiles: `count` and more become `count - i`, and below zero
/// `count` is added.
pub open spec fn wrap_tile(i: int, count: int) -> int {
    let a = if i >= count {
        count - i
    } else {
        i
    };
    if a < 0 {
        count + a
    } else {
        a
    }
}

/// Law: a coordinate already on the tiles is kept, and one at most a world
/// past either edge lands on a tile.
pub proof fn lemma_wrap_tile_in_range(i: int, count: int)
    requires
        count > 0,
        -count <= i <= 2 * count,
    ensures
        0 <= wrap_tile(i, count) < count,
        0 <= i < count ==> wrap_tile(i, count) == i,
{
}

/// Folds tile coordinate `i` back onto `count` tiles (see `wrap_tile`).
pub fn wrap_tile_index(i: i32, count: i32) -> (w: i32)
    requires
        0 < count,
    ensures
        w == wrap_tile(i as int, count as int),
{
    let mut a = i;
    if a >= count {
        a = count - a;
    }
    if a < 0 {
        a = count + a;
    }
    a
}

/// The landscape tile at row `y` and column `x` of the world, after the
/// row and column are folded back onto the `LAND_Z` by `LAND_X` tiles.
pub fn get_landscape<L>(y: i32, x: i32, landscape_vec: &Vec<Vec<L>>) -> (tile: &L)
    requires
        0 <= wrap_tile(y as int, LAND_Z as int) < landscape_vec@.len(),
        0 <= wrap_tile(x as int, LAND_X as int) < landscape_vec@[wrap_tile(
            y as int,
            LAND_Z as int,
        )]@.len(),
    ensures
        *tile == landscape_vec@[wrap_tile(y as int, LAND_Z as int)]@[wrap_tile(
            x as int,
            LAND_X as int,
        )],
{
    let zz = wrap_tile_index(y, LAND_Z as i32);
    let xx = wrap_tile_index(x, LAND_X as i32);
    &landscape_vec[zz as usize][xx as usize]
}

} // verus!
