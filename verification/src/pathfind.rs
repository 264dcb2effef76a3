//! Grid path finding for the pet: which cells it can stand in, where it
//! lands when it steps or falls, and an A* search over those steps.
//!
//! The world is read through [`Grid`], a dense snapshot of which cells are
//! solid. Cells outside the grid are never solid.

use vstd::prelude::*;
use pathfinding::prelude::astar;

verus! {

/// Deepest drop (in cells) the pet walks down.
pub const MAX_FALL: i32 = 3;

/// Horizontal Manhattan distance beyond which the pet teleports instead of walking.
pub const MAX_PATH_DISTANCE: i32 = 64;

/// Node-expansion cap for one search (teleport-fallback signal when hit).
pub const MAX_EXPLORED_NODES: usize = 20000;

/// A grid cell. `y` is the **feet cell**: the pet's feet rest at world-y == `y`,
/// standing on the solid block at `y - 1`.
#[derive(Clone, Copy, PartialEq, Eq, Structural, Hash, Debug)]
pub struct Cell {
    pub x: i32,
    pub y: i32,
    pub z: i32,
}

/// Coordinates far enough from the ends of `i32` that every cell the search
/// looks at from here is representable: one column to each side, two cells
/// up (step-up headroom) and four down (`MAX_FALL` plus the ground below).
pub open spec fn cell_in_range(c: Cell) -> bool {
    &&& i32::MIN + 1 <= c.x <= i32::MAX - 1
    &&& i32::MIN + 4 <= c.y <= i32::MAX - 2
    &&& i32::MIN + 1 <= c.z <= i32::MAX - 1
}

/// Whether `c` is far enough from the ends of `i32` for the search (see
/// [`cell_in_range`]).
pub fn in_search_range(c: Cell) -> (r: bool)
    ensures
        r == cell_in_range(c),
{
    i32::MIN + 1 <= c.x && c.x <= i32::MAX - 1 && i32::MIN + 4 <= c.y && c.y <= i32::MAX - 2
        && i32::MIN + 1 <= c.z && c.z <= i32::MAX - 1
}

/// A dense snapshot of which cells of a `width x height x length` world are
/// solid.
pub struct Grid {
    width: i32,
    height: i32,
    length: i32,
    solid: Vec<bool>,
}

/// Abstract content of a [`Grid`]: its dimensions and its solid table.
pub struct GridView {
    pub width: int,
    pub height: int,
    pub length: int,
    pub solid: Seq<bool>,
}

impl View for Grid {
    type V = GridView;

    closed spec fn view(&self) -> GridView {
        GridView {
            width: self.width as int,
            height: self.height as int,
            length: self.length as int,
            solid: self.solid@,
        }
    }
}

/// Position of cell `(x, y, z)` in the flat solid table.
pub open spec fn flat_index(width: int, length: int, x: int, y: int, z: int) -> int {
    (y * length + z) * width + x
}

proof fn lemma_flat_index_bounds(w: int, h: int, l: int, x: int, y: int, z: int)
    requires
        0 <= x < w,
        0 <= y < h,
        0 <= z < l,
    ensures
        0 <= y * l <= y * l + z,
        0 <= (y * l + z) * w,
        y * l + z <= (y * l + z) * w,
        (y * l + z) * w <= flat_index(w, l, x, y, z),
        flat_index(w, l, x, y, z) < w * h * l,
{
    assert(0 <= y * l) by (nonlinear_arith)
        requires
            0 <= y,
            0 <= l,
    ;
    assert(y * l + z <= h * l - 1) by (nonlinear_arith)
        requires
            0 <= y < h,
            0 <= z < l,
    ;
    assert(0 <= (y * l + z) * w) by (nonlinear_arith)
        requires
            0 <= y * l + z,
            0 <= w,
    ;
    assert(y * l + z <= (y * l + z) * w) by (nonlinear_arith)
        requires
            0 <= y * l + z,
            1 <= w,
    ;
    assert((y * l + z) * w + x <= (h * l - 1) * w + w - 1) by (nonlinear_arith)
        requires
            0 <= y * l + z <= h * l - 1,
            0 <= x < w,
    ;
    assert((h * l - 1) * w + w - 1 == w * h * l - 1) by (nonlinear_arith);
}

proof fn lemma_flat_index_injective(
    w: int,
    h: int,
    l: int,
    x1: int,
    y1: int,
    z1: int,
    x2: int,
    y2: int,
    z2: int,
)
    requires
        0 <= x1 < w,
        0 <= y1 < h,
        0 <= z1 < l,
        0 <= x2 < w,
        0 <= y2 < h,
        0 <= z2 < l,
        flat_index(w, l, x1, y1, z1) == flat_index(w, l, x2, y2, z2),
    ensures
        x1 == x2 && y1 == y2 && z1 == z2,
{
    let i = flat_index(w, l, x1, y1, z1);
    vstd::arithmetic::div_mod::lemma_fundamental_div_mod_converse(i, w, y1 * l + z1, x1);
    vstd::arithmetic::div_mod::lemma_fundamental_div_mod_converse(i, w, y2 * l + z2, x2);
    let q = y1 * l + z1;
    vstd::arithmetic::div_mod::lemma_fundamental_div_mod_converse(q, l, y1, z1);
    vstd::arithmetic::div_mod::lemma_fundamental_div_mod_converse(q, l, y2, z2);
}

impl Grid {
    /// Well-formedness: non-negative dimensions and one entry per cell.
    pub closed spec fn wf(&self) -> bool {
        &&& self.width >= 0
        &&& self.height >= 0
        &&& self.length >= 0
        &&& self.solid@.len() == self.width * self.height * self.length
    }

    /// Width (x extent) of the grid.
    pub closed spec fn spec_width(&self) -> int {
        self.width as int
    }

    /// Height (y extent) of the grid.
    pub closed spec fn spec_height(&self) -> int {
        self.height as int
    }

    /// Length (z extent) of the grid.
    pub closed spec fn spec_length(&self) -> int {
        self.length as int
    }

    /// Cell `(x, y, z)` lies inside the grid.
    pub open spec fn in_bounds(&self, x: int, y: int, z: int) -> bool {
        &&& 0 <= x < self.spec_width()
        &&& 0 <= y < self.spec_height()
        &&& 0 <= z < self.spec_length()
    }

    /// Cell `(x, y, z)` is solid; cells outside the grid are not.
    pub closed spec fn solid_at(&self, x: int, y: int, z: int) -> bool {
        self.in_bounds(x, y, z) && self.solid@[flat_index(
            self.width as int,
            self.length as int,
            x,
            y,
            z,
        )]
    }

    /// An all-air grid of the given dimensions.
    pub fn new(width: i32, height: i32, length: i32) -> (g: Grid)
        requires
            0 <= width,
            0 <= height,
            0 <= length,
            width * height * length <= usize::MAX,
        ensures
            g.wf(),
            g.spec_width() == width,
            g.spec_height() == height,
            g.spec_length() == length,
            forall|x: int, y: int, z: int| !g.solid_at(x, y, z),
    {
        assert(0 <= width * height) by (nonlinear_arith)
            requires
                0 <= width,
                0 <= height,
        ;
        assert(width * height <= width * height * length || length == 0) by (nonlinear_arith)
            requires
                0 <= width * height,
                0 <= length,
        ;
        let wh: usize = if length == 0 {
            0
        } else {
            (width as usize) * (height as usize)
        };
        let n: usize = wh * (length as usize);
        assert(n == width * height * length) by (nonlinear_arith)
            requires
                n == wh * length,
                wh == width * height || length == 0,
        ;
        let mut solid: Vec<bool> = Vec::new();
        let mut i: usize = 0;
        while i < n
            invariant
                i <= n,
                solid@.len() == i,
                forall|j: int| 0 <= j < i ==> !solid@[j],
            decreases n - i,
        {
            solid.push(false);
            i = i + 1;
        }
        let g = Grid { width, height, length, solid };
        assert forall|x: int, y: int, z: int| !g.solid_at(x, y, z) by {
            if g.in_bounds(x, y, z) {
                lemma_flat_index_bounds(width as int, height as int, length as int, x, y, z);
            }
        }
        g
    }

    /// Width (x extent) of the grid.
    pub fn width(&self) -> (w: i32)
        ensures
            w == self.spec_width(),
    {
        self.width
    }

    /// Height (y extent) of the grid.
    pub fn height(&self) -> (h: i32)
        ensures
            h == self.spec_height(),
    {
        self.height
    }

    /// Length (z extent) of the grid.
    pub fn length(&self) -> (l: i32)
        ensures
            l == self.spec_length(),
    {
        self.length
    }

    fn index_of(&self, x: i32, y: i32, z: i32) -> (i: usize)
        requires
            self.wf(),
            self.in_bounds(x as int, y as int, z as int),
        ensures
            i == flat_index(self.width as int, self.length as int, x as int, y as int, z as int),
            i < self.solid@.len(),
    {
        proof {
            lemma_flat_index_bounds(
                self.width as int,
                self.height as int,
                self.length as int,
                x as int,
                y as int,
                z as int,
            );
        }
        proof {
            // The table's length, and so every index below it, fits `usize`.
            vstd::std_specs::vec::axiom_spec_len(&self.solid);
        }
        let row: usize = (y as usize) * (self.length as usize) + (z as usize);
        row * (self.width as usize) + (x as usize)
    }

    /// Whether cell `(x, y, z)` is solid; `false` outside the grid.
    pub fn is_solid(&self, x: i32, y: i32, z: i32) -> (r: bool)
        requires
            self.wf(),
        ensures
            r == self.solid_at(x as int, y as int, z as int),
    {
        if x < 0 || y < 0 || z < 0 || x >= self.width || y >= self.height || z >= self.length {
            return false;
        }
        let i = self.index_of(x, y, z);
        self.solid[i]
    }

    /// Mark cell `(x, y, z)` solid; a cell outside the grid is ignored.
    pub fn set_solid(&mut self, x: i32, y: i32, z: i32)
        requires
            old(self).wf(),
        ensures
            final(self).wf(),
            final(self).spec_width() == old(self).spec_width(),
            final(self).spec_height() == old(self).spec_height(),
            final(self).spec_length() == old(self).spec_length(),
            forall|a: int, b: int, c: int|
                #[trigger] final(self).solid_at(a, b, c) == (old(self).solid_at(a, b, c) || (a
                    == x && b == y && c == z && old(self).in_bounds(a, b, c))),
    {
        if x < 0 || y < 0 || z < 0 || x >= self.width || y >= self.height || z >= self.length {
            return;
        }
        let i = self.index_of(x, y, z);
        self.solid.set(i, true);
        proof {
            let w = self.width as int;
            let h = self.height as int;
            let l = self.length as int;
            assert forall|a: int, b: int, c: int|
                #[trigger] self.solid_at(a, b, c) == (old(self).solid_at(a, b, c) || (a == x && b
                    == y && c == z && old(self).in_bounds(a, b, c))) by {
                if self.in_bounds(a, b, c) {
                    lemma_flat_index_bounds(w, h, l, a, b, c);
                    if flat_index(w, l, a, b, c) == i as int {
                        lemma_flat_index_injective(w, h, l, a, b, c, x as int, y as int, z as int);
                    }
                }
            }
        }
    }
}

/// ClassiCube's `COLLIDE_SOLID` collide type.
pub const COLLIDE_SOLID: u8 = 2;

/// ClassiCube's `COLLIDE_ICE` collide type (solid, partly slidable).
pub const COLLIDE_ICE: u8 = 3;

/// ClassiCube's `COLLIDE_SLIPPERY_ICE` collide type (solid, fully slidable).
pub const COLLIDE_SLIPPERY_ICE: u8 = 4;

/// Block `block` with collide type `collide` stops the pet: it is not air and
/// collides as solid or ice.
pub open spec fn blocks_pet(block: u16, collide: u8) -> bool {
    block != 0 && (collide == COLLIDE_SOLID || collide == COLLIDE_ICE || collide
        == COLLIDE_SLIPPERY_ICE)
}

/// Whether block `block` with collide type `collide` stops the pet.
pub fn is_solid_block(block: u16, collide: u8) -> (r: bool)
    ensures
        r == blocks_pet(block, collide),
{
    block != 0 && (collide == COLLIDE_SOLID || collide == COLLIDE_ICE || collide
        == COLLIDE_SLIPPERY_ICE)
}

impl Grid {
    /// Snapshot of a world whose block ids are stored at
    /// `(y * length + z) * width + x`, as ClassiCube lays out `World.Blocks`;
    /// `collide[id]` is the collide type of block `id`.
    pub fn from_blocks(width: i32, height: i32, length: i32, blocks: &[u16], collide: &[u8]) -> (g:
        Grid)
        requires
            0 <= width,
            0 <= height,
            0 <= length,
            blocks@.len() == width * height * length,
            forall|i: int| 0 <= i < blocks@.len() ==> (#[trigger] blocks@[i] as int) < collide@.len(),
        ensures
            g.wf(),
            g.spec_width() == width,
            g.spec_height() == height,
            g.spec_length() == length,
            forall|x: int, y: int, z: int|
                #[trigger] g.solid_at(x, y, z) == (g.in_bounds(x, y, z) && blocks_pet(
                    blocks@[flat_index(width as int, length as int, x, y, z)],
                    collide@[blocks@[flat_index(width as int, length as int, x, y, z)] as int],
                )),
    {
        let n = blocks.len();
        let mut solid: Vec<bool> = Vec::new();
        let mut i: usize = 0;
        while i < n
            invariant
                n == blocks@.len(),
                i <= n,
                solid@.len() == i,
                forall|j: int| 0 <= j < blocks@.len() ==> (#[trigger] blocks@[j] as int) < collide@.len(),
                forall|j: int|
                    0 <= j < i ==> #[trigger] solid@[j] == blocks_pet(
                        blocks@[j],
                        collide@[blocks@[j] as int],
                    ),
            decreases n - i,
        {
            let b = blocks[i];
            assert((blocks@[i as int] as int) < collide@.len());
            solid.push(is_solid_block(b, collide[b as usize]));
            i = i + 1;
        }
        let g = Grid { width, height, length, solid };
        assert forall|x: int, y: int, z: int|
            #[trigger] g.solid_at(x, y, z) == (g.in_bounds(x, y, z) && blocks_pet(
                blocks@[flat_index(width as int, length as int, x, y, z)],
                collide@[blocks@[flat_index(width as int, length as int, x, y, z)] as int],
            )) by {
            if g.in_bounds(x, y, z) {
                lemma_flat_index_bounds(width as int, height as int, length as int, x, y, z);
            }
        }
        g
    }
}

// ---------------------------------------------------------------------------
// Standing and stepping
// ---------------------------------------------------------------------------

/// The pet can stand in `c`: solid ground at `c.y - 1`, and both the body
/// cell (`c.y`) and headroom cell (`c.y + 1`) are passable.
pub open spec fn standable(g: &Grid, c: Cell) -> bool {
    &&& g.solid_at(c.x as int, c.y - 1, c.z as int)
    &&& !g.solid_at(c.x as int, c.y as int, c.z as int)
    &&& !g.solid_at(c.x as int, c.y + 1, c.z as int)
}

fn is_passable(g: &Grid, x: i32, y: i32, z: i32) -> (r: bool)
    requires
        g.wf(),
    ensures
        r == !g.solid_at(x as int, y as int, z as int),
{
    !g.is_solid(x, y, z)
}

/// True when the pet can stand in cell `c`: solid ground at `c.y - 1`, and
/// both the body cell (`c.y`) and headroom cell (`c.y + 1`) are passable.
pub fn can_stand(g: &Grid, c: Cell) -> (r: bool)
    requires
        g.wf(),
        i32::MIN < c.y < i32::MAX,
    ensures
        r == standable(g, c),
{
    g.is_solid(c.x, c.y - 1, c.z) && is_passable(g, c.x, c.y, c.z) && is_passable(
        g,
        c.x,
        c.y + 1,
        c.z,
    )
}

/// `c` moved down by `dy` cells.
pub open spec fn lowered(c: Cell, dy: int) -> Cell {
    Cell { x: c.x, y: (c.y - dy) as i32, z: c.z }
}

/// The first standable cell at or below `c`, searching `dy` from `from` up to `MAX_FALL`.
pub open spec fn snap_from(g: &Grid, c: Cell, from: int) -> Option<Cell>
    decreases MAX_FALL + 1 - from,
{
    if from > MAX_FALL || from < 0 {
        None
    } else if standable(g, lowered(c, from)) {
        Some(lowered(c, from))
    } else {
        snap_from(g, c, from + 1)
    }
}

/// Where `c` snaps to: itself if standable, else the nearest standable cell
/// within `MAX_FALL` below, else nothing.
pub open spec fn snapped(g: &Grid, c: Cell) -> Option<Cell> {
    snap_from(g, c, 0)
}

/// Snap `c` down to the nearest standable cell within `MAX_FALL`, or return
/// `None` if no such cell exists.
pub fn snap_to_ground(g: &Grid, c: Cell) -> (r: Option<Cell>)
    requires
        g.wf(),
        cell_in_range(c),
    ensures
        r == snapped(g, c),
{
    if can_stand(g, c) {
        assert(lowered(c, 0) == c);
        return Some(c);
    }
    assert(lowered(c, 0) == c);
    let mut dy: i32 = 1;
    while dy <= MAX_FALL
        invariant
            1 <= dy <= MAX_FALL + 1,
            g.wf(),
            cell_in_range(c),
            snap_from(g, c, 0) == snap_from(g, c, dy as int),
        decreases MAX_FALL + 1 - dy,
    {
        let candidate = Cell { x: c.x, y: c.y - dy, z: c.z };
        assert(candidate == lowered(c, dy as int));
        if can_stand(g, candidate) {
            return Some(candidate);
        }
        dy = dy + 1;
    }
    None
}

/// Cost of a step that changes height by `dy`: flat routes are preferred,
/// with a small penalty for climbing or falling.
pub open spec fn step_cost(dy: int) -> u32 {
    (10 + 4 * (if dy < 0 {
        -dy
    } else {
        dy
    })) as u32
}

/// The cell the pet lands in when stepping from `c` to column `(tx, tz)`,
/// trying heights `c.y + dy` for `dy` from `from` down to `-MAX_FALL`. A
/// step up (`dy == 1`) also needs headroom at `c.y + 2` above the source.
pub open spec fn landing_from(g: &Grid, c: Cell, tx: int, tz: int, from: int) -> Option<
    (Cell, u32),
>
    decreases from + MAX_FALL + 1,
{
    if from < -MAX_FALL || from > 1 {
        None
    } else if from == 1 && g.solid_at(c.x as int, c.y + 2, c.z as int) {
        landing_from(g, c, tx, tz, from - 1)
    } else if standable(g, Cell { x: tx as i32, y: (c.y + from) as i32, z: tz as i32 }) {
        Some((Cell { x: tx as i32, y: (c.y + from) as i32, z: tz as i32 }, step_cost(from)))
    } else {
        landing_from(g, c, tx, tz, from - 1)
    }
}

/// Where a step from `c` in horizontal direction `(dx, dz)` lands, if anywhere.
pub open spec fn landing(g: &Grid, c: Cell, dx: int, dz: int) -> Option<(Cell, u32)> {
    landing_from(g, c, c.x + dx, c.z + dz, 1)
}

/// The one-element or empty sequence of an option.
pub open spec fn opt_seq<T>(o: Option<T>) -> Seq<T> {
    match o {
        Some(v) => seq![v],
        None => Seq::empty(),
    }
}

/// Standable neighbours of `c`, in the order +x, -x, +z, -z, with step costs.
pub open spec fn successors(g: &Grid, c: Cell) -> Seq<(Cell, u32)> {
    opt_seq(landing(g, c, 1, 0)) + opt_seq(landing(g, c, -1, 0)) + opt_seq(landing(g, c, 0, 1))
        + opt_seq(landing(g, c, 0, -1))
}

/// `b` is one of the successors of `a`.
pub open spec fn is_step(g: &Grid, a: Cell, b: Cell) -> bool {
    exists|j: int| 0 <= j < successors(g, a).len() && (#[trigger] successors(g, a)[j]).0 == b
}

/// `path` is a walk through the grid: every consecutive pair is a step.
pub open spec fn is_walk(g: &Grid, path: Seq<Cell>) -> bool {
    forall|i: int| 0 <= i < path.len() - 1 ==> is_step(g, #[trigger] path[i], path[i + 1])
}

proof fn lemma_landing_standable(g: &Grid, c: Cell, tx: int, tz: int, from: int)
    ensures
        landing_from(g, c, tx, tz, from) matches Some(r) ==> standable(g, r.0),
    decreases from + MAX_FALL + 1,
{
    if from < -MAX_FALL || from > 1 {
    } else if from == 1 && g.solid_at(c.x as int, c.y + 2, c.z as int) {
        lemma_landing_standable(g, c, tx, tz, from - 1);
    } else if standable(g, Cell { x: tx as i32, y: (c.y + from) as i32, z: tz as i32 }) {
    } else {
        lemma_landing_standable(g, c, tx, tz, from - 1);
    }
}

/// Every successor of a cell is standable.
pub proof fn lemma_successors_standable(g: &Grid, c: Cell)
    ensures
        forall|j: int|
            0 <= j < successors(g, c).len() ==> standable(g, (#[trigger] successors(g, c)[j]).0),
{
    lemma_landing_standable(g, c, c.x + 1, c.z as int, 1);
    lemma_landing_standable(g, c, c.x - 1, c.z as int, 1);
    lemma_landing_standable(g, c, c.x as int, c.z + 1, 1);
    lemma_landing_standable(g, c, c.x as int, c.z - 1, 1);
}

/// Where a step from `c` toward `(dx, dz)` lands.
fn step_landing(g: &Grid, c: Cell, dx: i32, dz: i32) -> (r: Option<(Cell, u32)>)
    requires
        g.wf(),
        cell_in_range(c),
        -1 <= dx <= 1,
        -1 <= dz <= 1,
    ensures
        r == landing(g, c, dx as int, dz as int),
{
    let tx = c.x + dx;
    let tz = c.z + dz;
    let mut dy: i32 = 1;
    while dy >= -MAX_FALL
        invariant
            -MAX_FALL - 1 <= dy <= 1,
            g.wf(),
            cell_in_range(c),
            tx == c.x + dx,
            tz == c.z + dz,
            landing(g, c, dx as int, dz as int) == landing_from(g, c, tx as int, tz as int, dy as int),
        decreases dy + MAX_FALL + 1,
    {
        if dy == 1 && !is_passable(g, c.x, c.y + 2, c.z) {
            dy = dy - 1;
            continue;
        }
        let target = Cell { x: tx, y: c.y + dy, z: tz };
        if can_stand(g, target) {
            let cost: u32 = if dy < 0 {
                (10 + 4 * (-dy)) as u32
            } else {
                (10 + 4 * dy) as u32
            };
            return Some((target, cost));
        }
        dy = dy - 1;
    }
    None
}

/// Return standable neighbors of `c` for A*. For each of the 4 orthogonal
/// horizontal directions, find the first standable `y'` searching from
/// step-up (+1) down to `MAX_FALL` below the current y.
pub fn cell_successors(g: &Grid, c: Cell) -> (out: Vec<(Cell, u32)>)
    requires
        g.wf(),
        cell_in_range(c),
    ensures
        out@ == successors(g, c),
{
    let mut out: Vec<(Cell, u32)> = Vec::new();
    if let Some(s) = step_landing(g, c, 1, 0) {
        out.push(s);
    }
    assert(out@ =~= opt_seq(landing(g, c, 1, 0)));
    if let Some(s) = step_landing(g, c, -1, 0) {
        out.push(s);
    }
    assert(out@ =~= opt_seq(landing(g, c, 1, 0)) + opt_seq(landing(g, c, -1, 0)));
    if let Some(s) = step_landing(g, c, 0, 1) {
        out.push(s);
    }
    assert(out@ =~= opt_seq(landing(g, c, 1, 0)) + opt_seq(landing(g, c, -1, 0)) + opt_seq(
        landing(g, c, 0, 1),
    ));
    if let Some(s) = step_landing(g, c, 0, -1) {
        out.push(s);
    }
    assert(out@ =~= successors(g, c));
    out
}

// ---------------------------------------------------------------------------
// Search
// ---------------------------------------------------------------------------

/// Successors for the search, cut off once `max_explored` nodes have been
/// expanded: either none or all of `c`'s successors.
fn capped_successors(g: &Grid, c: &Cell, explored: &mut usize, max_explored: usize) -> (out: Vec<
    (Cell, u32),
>)
    requires
        g.wf(),
    ensures
        out@ == Seq::<(Cell, u32)>::empty() || out@ == successors(g, *c),
        *old(explored) < max_explored ==> *final(explored) == *old(explored) + 1,
        *old(explored) >= max_explored ==> *final(explored) == *old(explored) && out@.len() == 0,
{
    if *explored >= max_explored {
        return Vec::new();
    }
    *explored = *explored + 1;
    if !in_search_range(*c) {
        return Vec::new();
    }
    cell_successors(g, *c)
}

/// The search heuristic: ten times the horizontal Manhattan distance to
/// `goal` (never more than any real path's cost, since each step costs at
/// least ten), capped at `u32::MAX`.
pub open spec fn manhattan_estimate(c: Cell, goal: Cell) -> int {
    let dx = if c.x >= goal.x {
        c.x - goal.x
    } else {
        goal.x - c.x
    };
    let dz = if c.z >= goal.z {
        c.z - goal.z
    } else {
        goal.z - c.z
    };
    let e = 10 * (dx + dz);
    if e > u32::MAX {
        u32::MAX as int
    } else {
        e
    }
}

fn estimate_cost(c: &Cell, goal: &Cell) -> (r: u32)
    ensures
        r == manhattan_estimate(*c, *goal),
{
    let dx: i64 = if c.x >= goal.x {
        (c.x as i64) - (goal.x as i64)
    } else {
        (goal.x as i64) - (c.x as i64)
    };
    let dz: i64 = if c.z >= goal.z {
        (c.z as i64) - (goal.z as i64)
    } else {
        (goal.z as i64) - (c.z as i64)
    };
    let e: i64 = 10 * (dx + dz);
    if e > u32::MAX as i64 {
        u32::MAX
    } else {
        e as u32
    }
}

fn same_cell(a: &Cell, b: &Cell) -> (r: bool)
    ensures
        r == (*a == *b),
{
    *a == *b
}

/// Bound that keeps every cost the search adds up inside `u32`. A cell's
/// cost is the sum of the steps (at most 22 each) along its chain of parent
/// links, whose cells are distinct expanded cells of the grid: at most
/// `max_explored` of them and at most one per grid cell. The heuristic adds
/// at most ten times the grid's width plus length.
pub open spec fn search_fits_u32(g: &Grid, max_explored: usize) -> bool {
    let cells = g.spec_width() * g.spec_height() * g.spec_length();
    let steps = if max_explored < cells {
        max_explored as int
    } else {
        cells
    };
    22 * steps + 10 * (g.spec_width() + g.spec_length()) <= u32::MAX
}

/// Whether a search over `g` with `max_explored` expansions keeps its costs
/// inside `u32` (see [`search_fits_u32`]).
pub fn search_fits(g: &Grid, max_explored: usize) -> (r: bool)
    requires
        g.wf(),
    ensures
        r == search_fits_u32(g, max_explored),
{
    let w = g.width() as u128;
    let h = g.height() as u128;
    let l = g.length() as u128;
    assert(w * h <= 0x8000_0000u128 * 0x8000_0000u128) by (nonlinear_arith)
        requires
            w < 0x8000_0000u128,
            h < 0x8000_0000u128,
    ;
    let wh = w * h;
    assert(wh * l <= 0x8000_0000u128 * 0x8000_0000u128 * 0x8000_0000u128) by (nonlinear_arith)
        requires
            wh <= 0x8000_0000u128 * 0x8000_0000u128,
            l < 0x8000_0000u128,
    ;
    let cells = wh * l;
    let m = max_explored as u128;
    let steps = if m < cells {
        m
    } else {
        cells
    };
    let total: u128 = 22 * steps + 10 * (w + l);
    total <= u32::MAX as u128
}

/// Name of the path `pathfinding::directed::astar::astar` returns on the
/// grid `grid` from `start` to `goal`, with [`cell_successors`] cut off after
/// `max_explored` expansions, [`manhattan_estimate`] and arrival at `goal`.
pub uninterp spec fn astar_path(grid: GridView, start: Cell, goal: Cell, max_explored: usize) -> Option<Seq<Cell>>;

/// The cells of an optional path.
pub open spec fn cells_view(r: Option<Vec<Cell>>) -> Option<Seq<Cell>> {
    match r {
        Some(p) => Some(p@),
        None => None,
    }
}

/// `pathfinding::directed::astar::astar` from `start` to `goal`, with
/// [`cell_successors`] as the successor function (cut off after
/// `max_explored` expansions), [`manhattan_estimate`] as the heuristic and
/// arrival at `goal` as success.
///
/// Trusted: the result is `astar_path(g@, start, goal, max_explored)` (the
/// search reads nothing but these arguments: its successors, heuristic and
/// success test are functions of them, and its queue and visited table are
/// deterministic). A path it returns starts at `start`, ends at `goal`,
/// follows one successor edge per step and repeats no cell (its source
/// reconstructs the path from the parent links it set while expanding
/// successors, and its documentation says no node is included twice). Under
/// `search_fits_u32` no cost sum overflows. Whether a path is found, and
/// that the one found is shortest, is not stated: with the expansion cap the
/// search runs on a cut-down graph.
#[verifier::external_body]
fn astar_cells(g: &Grid, start: Cell, goal: Cell, max_explored: usize) -> (r: Option<Vec<Cell>>)
    requires
        g.wf(),
        standable(g, start),
        standable(g, goal),
        search_fits_u32(g, max_explored),
    ensures
        cells_view(r) == astar_path(g@, start, goal, max_explored),
        r matches Some(p) ==> {
            &&& p@.len() >= 1
            &&& p@[0] == start
            &&& p@.last() == goal
            &&& is_walk(g, p@)
            &&& p@.no_duplicates()
        },
{
    let mut explored: usize = 0;
    astar(
        &start,
        |c: &Cell| capped_successors(g, c, &mut explored, max_explored),
        |c: &Cell| estimate_cost(c, &goal),
        |c: &Cell| same_cell(c, &goal),
    ).map(|found| found.0)
}

proof fn lemma_snap_standable(g: &Grid, c: Cell, from: int)
    ensures
        snap_from(g, c, from) matches Some(s) ==> standable(g, s),
    decreases MAX_FALL + 1 - from,
{
    if from > MAX_FALL || from < 0 {
    } else if standable(g, lowered(c, from)) {
    } else {
        lemma_snap_standable(g, c, from + 1);
    }
}

/// `path` is a path the pet can walk from `s` to `t`: it starts at `s`,
/// ends at `t`, steps from cell to successor, repeats no cell, and every
/// cell is standable.
pub open spec fn walkable_path(g: &Grid, path: Seq<Cell>, s: Cell, t: Cell) -> bool {
    &&& path.len() >= 1
    &&& path[0] == s
    &&& path.last() == t
    &&& is_walk(g, path)
    &&& path.no_duplicates()
    &&& forall|i: int| 0 <= i < path.len() ==> standable(g, #[trigger] path[i])
}

/// What [`find_path`] returns: nothing when either endpoint has no ground
/// within `MAX_FALL` below it, the single cell when both snap to the same
/// cell, and otherwise the A* search between the snapped cells.
pub open spec fn search_result(g: &Grid, start: Cell, goal: Cell, max_explored: usize) -> Option<
    Seq<Cell>,
> {
    match (snapped(g, start), snapped(g, goal)) {
        (Some(s), Some(t)) => if s == t {
            Some(seq![s])
        } else {
            astar_path(g@, s, t, max_explored)
        },
        _ => None,
    }
}

/// Compute an A* path from `start` to `goal` using the given grid. Both
/// endpoints are snapped to standable ground first. Returns `None` when
/// there is no path, the endpoints can't be grounded, or the search exceeds
/// `max_explored` node expansions (teleport-fallback signal).
///
/// Returns the full cell path including both endpoints.
pub fn find_path(g: &Grid, start: Cell, goal: Cell, max_explored: usize) -> (r: Option<Vec<Cell>>)
    requires
        g.wf(),
        cell_in_range(start),
        cell_in_range(goal),
        search_fits_u32(g, max_explored),
    ensures
        cells_view(r) == search_result(g, start, goal, max_explored),
        snapped(g, start) is None || snapped(g, goal) is None ==> r is None,
        snapped(g, start) is Some && snapped(g, goal) == snapped(g, start) ==> (r matches Some(p)
            && p@ == seq![snapped(g, start)->0]),
        r matches Some(p) ==> walkable_path(
            g,
            p@,
            snapped(g, start)->0,
            snapped(g, goal)->0,
        ),
{
    let s = match snap_to_ground(g, start) {
        Some(s) => s,
        None => {
            return None;
        },
    };
    let t = match snap_to_ground(g, goal) {
        Some(t) => t,
        None => {
            return None;
        },
    };
    proof {
        lemma_snap_standable(g, start, 0);
        lemma_snap_standable(g, goal, 0);
    }
    if s == t {
        let mut one: Vec<Cell> = Vec::new();
        one.push(s);
        assert(one@ =~= seq![s]);
        assert(is_walk(g, one@));
        return Some(one);
    }
    let r = astar_cells(g, s, t, max_explored);
    match r {
        Some(p) => {
            proof {
                assert forall|i: int| 0 <= i < p@.len() implies standable(g, #[trigger] p@[i]) by {
                    if i > 0 {
                        assert(is_step(g, p@[i - 1], p@[i]));
                        let j = choose|j: int|
                            0 <= j < successors(g, p@[i - 1]).len() && (#[trigger] successors(
                                g,
                                p@[i - 1],
                            )[j]).0 == p@[i];
                        lemma_successors_standable(g, p@[i - 1]);
                    }
                }
            }
            Some(p)
        },
        None => None,
    }
}

/// Horizontal Manhattan distance between two cells.
pub open spec fn horizontal_distance(a: Cell, b: Cell) -> int {
    let dx = if a.x >= b.x {
        a.x - b.x
    } else {
        b.x - a.x
    };
    let dz = if a.z >= b.z {
        a.z - b.z
    } else {
        b.z - a.z
    };
    dx + dz
}

/// How the pet gets to a destination.
pub enum WalkPlan {
    /// Put the pet there directly.
    Teleport,
    /// Walk through these cells, both endpoints included.
    Walk(Vec<Cell>),
}

/// Plan the pet's way from `start` to `goal`: walk a found path, or teleport
/// when the goal is more than `MAX_PATH_DISTANCE` cells away horizontally
/// (Manhattan) or [`find_path`] finds no path within `MAX_EXPLORED_NODES`
/// expansions.
pub fn plan_walk(g: &Grid, start: Cell, goal: Cell) -> (p: WalkPlan)
    requires
        g.wf(),
        cell_in_range(start),
        cell_in_range(goal),
        search_fits_u32(g, MAX_EXPLORED_NODES),
    ensures
        horizontal_distance(start, goal) > MAX_PATH_DISTANCE ==> p is Teleport,
        horizontal_distance(start, goal) <= MAX_PATH_DISTANCE ==> match p {
            WalkPlan::Walk(path) => search_result(g, start, goal, MAX_EXPLORED_NODES) == Some(
                path@,
            ),
            WalkPlan::Teleport => search_result(g, start, goal, MAX_EXPLORED_NODES) is None,
        },
        snapped(g, start) is None || snapped(g, goal) is None ==> p is Teleport,
        p matches WalkPlan::Walk(path) ==> horizontal_distance(start, goal) <= MAX_PATH_DISTANCE
            && walkable_path(g, path@, snapped(g, start)->0, snapped(g, goal)->0),
        horizontal_distance(start, goal) <= MAX_PATH_DISTANCE && snapped(g, start) is Some
            && snapped(g, goal) == snapped(g, start) ==> (p matches WalkPlan::Walk(path) && path@
            == seq![snapped(g, start)->0]),
{
    let dx: i64 = if start.x >= goal.x {
        (start.x as i64) - (goal.x as i64)
    } else {
        (goal.x as i64) - (start.x as i64)
    };
    let dz: i64 = if start.z >= goal.z {
        (start.z as i64) - (goal.z as i64)
    } else {
        (goal.z as i64) - (start.z as i64)
    };
    if dx + dz > MAX_PATH_DISTANCE as i64 {
        return WalkPlan::Teleport;
    }
    match find_path(g, start, goal, MAX_EXPLORED_NODES) {
        Some(path) => WalkPlan::Walk(path),
        None => WalkPlan::Teleport,
    }
}

// ---------------------------------------------------------------------------
// Ground under a footprint
// ---------------------------------------------------------------------------

/// The highest solid cell of column `(x, z)` at heights `lo..=cy`.
pub open spec fn top_solid(g: &Grid, x: int, z: int, lo: int, cy: int) -> Option<int>
    decreases cy - lo + 1,
{
    if cy < lo {
        None
    } else if g.solid_at(x, cy, z) {
        Some(cy)
    } else {
        top_solid(g, x, z, lo, cy - 1)
    }
}

/// The supporting cell of column `(x, z)` for heights `lo..=hi`, as a sequence of at most one cell.
pub open spec fn column_support(g: &Grid, x: int, z: int, lo: int, hi: int) -> Seq<Cell> {
    match top_solid(g, x, z, lo, hi) {
        Some(y) => seq![Cell { x: x as i32, y: y as i32, z: z as i32 }],
        None => Seq::empty(),
    }
}

/// Supporting cells of columns `(x, cz0..=cz)`, in order of z.
pub open spec fn support_row(g: &Grid, x: int, cz0: int, cz: int, lo: int, hi: int) -> Seq<Cell>
    decreases cz - cz0 + 1,
{
    if cz < cz0 {
        Seq::empty()
    } else {
        support_row(g, x, cz0, cz - 1, lo, hi) + column_support(g, x, cz, lo, hi)
    }
}

/// Supporting cells of columns `(cx0..=cx, cz0..=cz1)`, x-major.
pub open spec fn support_rows(
    g: &Grid,
    cx0: int,
    cx: int,
    cz0: int,
    cz1: int,
    lo: int,
    hi: int,
) -> Seq<Cell>
    decreases cx - cx0 + 1,
{
    if cx < cx0 {
        Seq::empty()
    } else {
        support_rows(g, cx0, cx - 1, cz0, cz1, lo, hi) + support_row(g, cx, cz0, cz1, lo, hi)
    }
}

fn column_top(g: &Grid, x: i32, z: i32, lo: i32, hi: i32) -> (r: Option<i32>)
    requires
        g.wf(),
    ensures
        match top_solid(g, x as int, z as int, lo as int, hi as int) {
            Some(y) => r == Some(y as i32),
            None => r is None,
        },
{
    let mut cy: i64 = hi as i64;
    while cy >= lo as i64
        invariant
            g.wf(),
            cy <= hi,
            lo - 1 <= cy || cy == hi,
            top_solid(g, x as int, z as int, lo as int, hi as int) == top_solid(
                g,
                x as int,
                z as int,
                lo as int,
                cy as int,
            ),
        decreases cy - lo + 1,
    {
        if g.is_solid(x, cy as i32, z) {
            return Some(cy as i32);
        }
        cy = cy - 1;
    }
    None
}

/// For each cell column that the footprint `cx0..=cx1` x `cz0..=cz1`
/// overlaps (x-major), the highest solid cell at heights `lo..=hi`; columns
/// with nothing solid in range contribute nothing. The pet's feet rest on
/// the highest top surface among these cells.
pub fn support_cells(g: &Grid, cx0: i32, cx1: i32, cz0: i32, cz1: i32, lo: i32, hi: i32) -> (out:
    Vec<Cell>)
    requires
        g.wf(),
    ensures
        out@ == support_rows(g, cx0 as int, cx1 as int, cz0 as int, cz1 as int, lo as int, hi as int),
{
    let mut out: Vec<Cell> = Vec::new();
    let mut cx: i64 = cx0 as i64;
    while cx <= cx1 as i64
        invariant
            g.wf(),
            cx0 <= cx <= cx1 + 1 || (cx == cx0 && cx0 > cx1),
            out@ == support_rows(
                g,
                cx0 as int,
                cx - 1,
                cz0 as int,
                cz1 as int,
                lo as int,
                hi as int,
            ),
        decreases cx1 + 1 - cx,
    {
        let ghost before = out@;
        let mut cz: i64 = cz0 as i64;
        while cz <= cz1 as i64
            invariant
                g.wf(),
                cx0 <= cx <= cx1,
                cz0 <= cz <= cz1 + 1 || (cz == cz0 && cz0 > cz1),
                out@ == before + support_row(
                    g,
                    cx as int,
                    cz0 as int,
                    cz - 1,
                    lo as int,
                    hi as int,
                ),
            decreases cz1 + 1 - cz,
        {
            let top = column_top(g, cx as i32, cz as i32, lo, hi);
            let ghost prev = out@;
            match top {
                Some(y) => {
                    out.push(Cell { x: cx as i32, y, z: cz as i32 });
                },
                None => {},
            }
            assert(out@ =~= before + support_row(
                g,
                cx as int,
                cz0 as int,
                cz as int,
                lo as int,
                hi as int,
            ));
            cz = cz + 1;
        }
        assert(support_row(g, cx as int, cz0 as int, cz - 1, lo as int, hi as int) == support_row(
            g,
            cx as int,
            cz0 as int,
            cz1 as int,
            lo as int,
            hi as int,
        ));
        cx = cx + 1;
    }
    out
}

// ---------------------------------------------------------------------------
// Laws
// ---------------------------------------------------------------------------

/// One step of the pet: to an orthogonally adjacent column, at most one
/// cell up and at most `MAX_FALL` cells down.
pub open spec fn step_shape(a: Cell, b: Cell) -> bool {
    let dx = b.x - a.x;
    let dz = b.z - a.z;
    &&& ((dx == 1 || dx == -1) && dz == 0) || (dx == 0 && (dz == 1 || dz == -1))
    &&& a.y - MAX_FALL <= b.y <= a.y + 1
}

proof fn lemma_landing_shape(g: &Grid, c: Cell, tx: int, tz: int, from: int)
    requires
        cell_in_range(c),
        from <= 1,
    ensures
        landing_from(g, c, tx, tz, from) matches Some(r) ==> r.0.x == tx as i32 && r.0.z
            == tz as i32 && c.y - MAX_FALL <= r.0.y <= c.y + from,
    decreases from + MAX_FALL + 1,
{
    if from < -MAX_FALL || from > 1 {
    } else if from == 1 && g.solid_at(c.x as int, c.y + 2, c.z as int) {
        lemma_landing_shape(g, c, tx, tz, from - 1);
    } else if standable(g, Cell { x: tx as i32, y: (c.y + from) as i32, z: tz as i32 }) {
    } else {
        lemma_landing_shape(g, c, tx, tz, from - 1);
    }
}

/// Every step the search may take moves to an orthogonally adjacent column,
/// at most one cell up and at most `MAX_FALL` down, into a standable cell.
pub proof fn law_steps_are_short(g: &Grid, a: Cell, b: Cell)
    requires
        cell_in_range(a),
        is_step(g, a, b),
    ensures
        step_shape(a, b),
        standable(g, b),
{
    lemma_landing_shape(g, a, a.x + 1, a.z as int, 1);
    lemma_landing_shape(g, a, a.x - 1, a.z as int, 1);
    lemma_landing_shape(g, a, a.x as int, a.z + 1, 1);
    lemma_landing_shape(g, a, a.x as int, a.z - 1, 1);
    lemma_successors_standable(g, a);
}

/// Snapping keeps the column and only moves down, by at most `MAX_FALL`
/// cells, onto a standable cell.
pub proof fn law_snap_moves_down(g: &Grid, c: Cell)
    requires
        cell_in_range(c),
    ensures
        snapped(g, c) matches Some(s) ==> s.x == c.x && s.z == c.z && c.y - MAX_FALL <= s.y
            <= c.y && standable(g, s),
{
    lemma_snap_standable(g, c, 0);
    lemma_snap_shape(g, c, 0);
}

proof fn lemma_snap_shape(g: &Grid, c: Cell, from: int)
    requires
        cell_in_range(c),
        0 <= from,
    ensures
        snap_from(g, c, from) matches Some(s) ==> s.x == c.x && s.z == c.z && c.y - MAX_FALL
            <= s.y <= c.y - from,
    decreases MAX_FALL + 1 - from,
{
    if from > MAX_FALL || from < 0 {
    } else if standable(g, lowered(c, from)) {
    } else {
        lemma_snap_shape(g, c, from + 1);
    }
}

proof fn lemma_snap_nearest_from(g: &Grid, c: Cell, from: int)
    requires
        cell_in_range(c),
        0 <= from,
    ensures
        match snap_from(g, c, from) {
            Some(s) => s == lowered(c, c.y - s.y) && standable(g, s) && forall|d: int|
                from <= d < c.y - s.y ==> !standable(g, #[trigger] lowered(c, d)),
            None => forall|d: int| from <= d <= MAX_FALL ==> !standable(g, #[trigger] lowered(c, d)),
        },
    decreases MAX_FALL + 1 - from,
{
    if from > MAX_FALL {
    } else if standable(g, lowered(c, from)) {
    } else {
        lemma_snap_nearest_from(g, c, from + 1);
    }
}

/// Snapping finds the nearest ground: a standable cell stays where it is;
/// otherwise the result is the highest standable cell of the column within
/// `MAX_FALL` below, none of the cells between `c` and it being standable;
/// and nothing comes back only when no cell from `c` down to `MAX_FALL`
/// below is standable.
pub proof fn law_snap_is_nearest_ground(g: &Grid, c: Cell)
    requires
        cell_in_range(c),
    ensures
        standable(g, c) ==> snapped(g, c) == Some(c),
        snapped(g, c) matches Some(s) ==> s.x == c.x && s.z == c.z && standable(g, s) && forall|
            y: int,
        |
            s.y < y <= c.y ==> !#[trigger] standable(g, Cell { x: c.x, y: y as i32, z: c.z }),
        snapped(g, c) is None ==> forall|y: int|
            c.y - MAX_FALL <= y <= c.y ==> !#[trigger] standable(g, Cell { x: c.x, y: y as i32, z: c.z }),
{
    lemma_snap_nearest_from(g, c, 0);
    lemma_snap_shape(g, c, 0);
    assert(lowered(c, 0) == c);
    match snapped(g, c) {
        Some(s) => {
            assert forall|y: int| s.y < y <= c.y implies !#[trigger] standable(g, Cell { x: c.x, y: y as i32, z: c.z }) by {
                assert(Cell { x: c.x, y: y as i32, z: c.z } == lowered(c, c.y - y));
            }
        },
        None => {
            assert forall|y: int| c.y - MAX_FALL <= y <= c.y implies !#[trigger] standable(g, Cell { x: c.x, y: y as i32, z: c.z }) by {
                assert(Cell { x: c.x, y: y as i32, z: c.z } == lowered(c, c.y - y));
            }
        },
    }
}

proof fn lemma_landing_highest_from(g: &Grid, c: Cell, tx: int, tz: int, from: int)
    requires
        cell_in_range(c),
        -MAX_FALL - 1 <= from <= 1,
        i32::MIN <= tx <= i32::MAX,
        i32::MIN <= tz <= i32::MAX,
    ensures
        match landing_from(g, c, tx, tz, from) {
            Some((t, cost)) => {
                &&& t == Cell { x: tx as i32, y: t.y, z: tz as i32 }
                &&& c.y - MAX_FALL <= t.y <= c.y + from
                &&& !(t.y == c.y + 1 && g.solid_at(c.x as int, c.y + 2, c.z as int))
                &&& standable(g, t)
                &&& cost == step_cost(t.y - c.y)
                &&& forall|y: int|
                    t.y < y <= c.y + from && !(y == c.y + 1 && g.solid_at(
                        c.x as int,
                        c.y + 2,
                        c.z as int,
                    )) ==> !#[trigger] standable(g, Cell { x: tx as i32, y: y as i32, z: tz as i32 })
            },
            None => forall|y: int|
                c.y - MAX_FALL <= y <= c.y + from && !(y == c.y + 1 && g.solid_at(
                    c.x as int,
                    c.y + 2,
                    c.z as int,
                )) ==> !#[trigger] standable(g, Cell { x: tx as i32, y: y as i32, z: tz as i32 }),
        },
    decreases from + MAX_FALL + 1,
{
    if from < -MAX_FALL {
    } else {
        lemma_landing_highest_from(g, c, tx, tz, from - 1);
    }
}

/// A step lands on the highest ground it can reach: in the target column,
/// at most one cell up (only when the source has headroom two cells above
/// it) and at most `MAX_FALL` down, the landing cell is standable, no
/// standable cell of that range lies above it, and its cost is ten plus
/// four per cell of height change. No landing means nothing in that range
/// is standable.
pub proof fn law_step_lands_on_highest_ground(g: &Grid, c: Cell, dx: int, dz: int)
    requires
        cell_in_range(c),
        -1 <= dx <= 1,
        -1 <= dz <= 1,
    ensures
        ({
            let top = if g.solid_at(c.x as int, c.y + 2, c.z as int) {
                c.y as int
            } else {
                c.y + 1
            };
            match landing(g, c, dx, dz) {
                Some((t, cost)) => {
                    &&& t.x == c.x + dx && t.z == c.z + dz
                    &&& c.y - MAX_FALL <= t.y <= top
                    &&& standable(g, t)
                    &&& cost == 10 + 4 * (if t.y >= c.y {
                        t.y - c.y
                    } else {
                        c.y - t.y
                    })
                    &&& forall|y: int|
                        t.y < y <= top ==> !#[trigger] standable(
                            g,
                            Cell { x: (c.x + dx) as i32, y: y as i32, z: (c.z + dz) as i32 },
                        )
                },
                None => forall|y: int|
                    c.y - MAX_FALL <= y <= top ==> !#[trigger] standable(
                        g,
                        Cell { x: (c.x + dx) as i32, y: y as i32, z: (c.z + dz) as i32 },
                    ),
            }
        }),
{
    lemma_landing_highest_from(g, c, c.x + dx, c.z + dz, 1);
}

} // verus!
