//! The maze grid: cell storage, bounds-checked queries and mutators.

use vstd::prelude::*;

use crate::cell::Cell;
use crate::geometry::{Coord, News};
use crate::rng::MazeRng;

pub mod analyze;
pub mod maze_a;
pub mod maze_b;

verus! {

/// A `width x height` grid of cells with its own random stream and a start
/// coordinate.  The one-cell-thick outer border always stays wall; carving
/// works on the interior only.  `start` is `(-1, -1)` while no start has
/// been chosen yet; `fixed_start` pins the start for reproducible runs.
pub struct Maze {
    pub width: i32,
    pub height: i32,
    pub cells: Vec<Cell>,
    pub start: Coord,
    pub fixed_start: Option<Coord>,
    pub rng: MazeRng,
}

impl Maze {
    /// Basic shape: sane dimensions and a matching cell count.
    pub open spec fn wf(self) -> bool {
        &&& 3 <= self.width <= 4096
        &&& 3 <= self.height <= 4096
        &&& self.cells@.len() == self.width * self.height
    }

    /// The storage index of coordinate `c`.
    pub open spec fn idx_of(self, c: Coord) -> int {
        c.x * self.height + c.y
    }

    /// `c` lies on the grid.
    pub open spec fn spec_in_bounds(self, c: Coord) -> bool {
        0 <= c.x < self.width && 0 <= c.y < self.height
    }

    /// `c` lies strictly inside the outer border.
    pub open spec fn spec_interior(self, c: Coord) -> bool {
        1 <= c.x <= self.width - 2 && 1 <= c.y <= self.height - 2
    }

    /// `c` lies on the outer border.
    pub open spec fn on_border(self, c: Coord) -> bool {
        self.spec_in_bounds(c) && (c.x == 0 || c.x == self.width - 1 || c.y == 0
            || c.y == self.height - 1)
    }

    /// The cell stored at `c`.
    pub open spec fn cell_at(self, c: Coord) -> Cell
        recommends
            self.spec_in_bounds(c),
    {
        self.cells@[self.idx_of(c)]
    }

    /// Wall query; out-of-bounds coordinates answer wall.
    pub open spec fn spec_is_wall(self, c: Coord) -> bool {
        if self.spec_in_bounds(c) {
            self.cell_at(c).wall
        } else {
            true
        }
    }

    /// Space query; out-of-bounds coordinates answer no-space.
    pub open spec fn spec_is_space(self, c: Coord) -> bool {
        self.spec_in_bounds(c) && self.cell_at(c).space
    }

    /// Footprint query; false out of bounds.
    pub open spec fn spec_is_footprints(self, c: Coord) -> bool {
        self.spec_in_bounds(c) && self.cell_at(c).footprints
    }

    /// No-entry query; false out of bounds.
    pub open spec fn spec_is_noentry(self, c: Coord) -> bool {
        self.spec_in_bounds(c) && self.cell_at(c).noentry
    }

    /// Dead-end query; false out of bounds.
    pub open spec fn spec_is_deadend(self, c: Coord) -> bool {
        self.spec_in_bounds(c) && self.cell_at(c).deadend
    }

    /// Locked-reward query; false out of bounds.
    pub open spec fn spec_is_lockedchest(self, c: Coord) -> bool {
        self.spec_in_bounds(c) && self.cell_at(c).lockedchest
    }

    /// A start coordinate has been chosen.
    pub open spec fn start_is_set(self) -> bool {
        !(self.start.x == -1 && self.start.y == -1)
    }

    /// Every in-bounds cell is wall or space, never both.
    pub open spec fn all_defined(self) -> bool {
        forall|c: Coord|
            self.spec_in_bounds(c) ==> (#[trigger] self.cell_at(c)).wall != self.cell_at(c).space
    }

    /// Every border cell is wall.
    pub open spec fn border_walled(self) -> bool {
        forall|c: Coord| self.on_border(c) ==> (#[trigger] self.cell_at(c)).wall
    }

    /// Footprints only ever sit on space cells.
    pub open spec fn footprints_on_space(self) -> bool {
        forall|c: Coord|
            self.spec_in_bounds(c) && (#[trigger] self.cell_at(c)).footprints ==> self.cell_at(
                c,
            ).space
    }

    /// No analysis markers anywhere (the state between a reset and the
    /// analysis pass).
    pub open spec fn no_marks(self) -> bool {
        forall|c: Coord|
            self.spec_in_bounds(c) ==> {
                &&& !(#[trigger] self.cell_at(c)).noentry
                &&& !self.cell_at(c).deadend
                &&& !self.cell_at(c).lockedchest
            }
    }

    /// A pinned start, when present, lies in the interior.
    pub open spec fn fixed_ok(self) -> bool {
        match self.fixed_start {
            Option::Some(c) => self.spec_interior(c),
            Option::None => true,
        }
    }

    /// Once the start is chosen it is an interior space cell; before that the
    /// grid holds no space at all.
    pub open spec fn start_ok(self) -> bool {
        if self.start_is_set() {
            self.spec_interior(self.start) && self.spec_is_space(self.start)
        } else {
            forall|c: Coord| !(#[trigger] self.spec_is_space(c))
        }
    }

    /// The generation invariant: well-shaped, exclusively classified cells,
    /// walled border, footprints on space only, a coherent start, and every
    /// space cell connected to the start.
    pub open spec fn valid(self) -> bool {
        &&& self.wf()
        &&& self.all_defined()
        &&& self.border_walled()
        &&& self.footprints_on_space()
        &&& self.fixed_ok()
        &&& self.start_ok()
        &&& crate::reach::connected(self)
    }

    /// In-bounds coordinates map to in-range storage indices.
    pub proof fn lemma_idx_bounds(self, c: Coord)
        requires
            self.wf(),
            self.spec_in_bounds(c),
        ensures
            0 <= self.idx_of(c) < self.cells@.len(),
            self.idx_of(c) < 0x100_0000,
    {
        assert(c.x * self.height + c.y < self.width * self.height) by (nonlinear_arith)
            requires
                0 <= c.x < self.width,
                0 <= c.y < self.height,
        ;
        assert(0 <= c.x * self.height) by (nonlinear_arith)
            requires
                0 <= c.x && 0 < self.height,
        ;
        assert(c.x * self.height <= 4095 * 4096) by (nonlinear_arith)
            requires
                0 <= c.x <= 4095,
                0 <= self.height <= 4096,
        ;
    }

    /// Distinct in-bounds coordinates map to distinct storage indices.
    pub proof fn lemma_idx_inj(self, a: Coord, b: Coord)
        requires
            self.wf(),
            self.spec_in_bounds(a),
            self.spec_in_bounds(b),
            self.idx_of(a) == self.idx_of(b),
        ensures
            a == b,
    {
        assert(a.x == b.x && a.y == b.y) by (nonlinear_arith)
            requires
                0 <= a.x && 0 <= b.x,
                0 <= a.y < self.height,
                0 <= b.y < self.height,
                a.x * self.height + a.y == b.x * self.height + b.y,
        ;
    }

    /// After one storage update, the written coordinate holds the new cell
    /// and every other coordinate is unchanged.
    pub proof fn lemma_cells_update(pre: Maze, post: Maze, c: Coord, v: Cell)
        requires
            pre.wf(),
            pre.spec_in_bounds(c),
            post.width == pre.width,
            post.height == pre.height,
            post.cells@ == pre.cells@.update(pre.idx_of(c), v),
        ensures
            post.wf(),
            post.cell_at(c) == v,
            forall|d: Coord|
                pre.spec_in_bounds(d) && d != c ==> post.cell_at(d) == pre.cell_at(d),
    {
        pre.lemma_idx_bounds(c);
        assert forall|d: Coord| pre.spec_in_bounds(d) && d != c implies post.cell_at(d)
            == pre.cell_at(d) by {
            pre.lemma_idx_bounds(d);
            if pre.idx_of(d) == pre.idx_of(c) {
                pre.lemma_idx_inj(d, c);
            }
        }
    }

    /// The grid width.
    pub fn get_width(&self) -> (r: i32)
        ensures
            r == self.width,
    {
        self.width
    }

    /// The grid height.
    pub fn get_height(&self) -> (r: i32)
        ensures
            r == self.height,
    {
        self.height
    }

    /// The start coordinate, `(-1, -1)` while unset.
    pub fn get_start(&self) -> (r: Coord)
        ensures
            r == self.start,
    {
        self.start
    }

    /// Bounds test for a coordinate.
    pub fn is_inside(&self, c: Coord) -> (r: bool)
        ensures
            r == self.spec_in_bounds(c),
    {
        0 <= c.x && c.x < self.width && 0 <= c.y && c.y < self.height
    }

    /// Interior test for a coordinate.
    pub fn is_interior(&self, c: Coord) -> (r: bool)
        requires
            self.wf(),
        ensures
            r == self.spec_interior(c),
    {
        1 <= c.x && c.x <= self.width - 2 && 1 <= c.y && c.y <= self.height - 2
    }

    /// The storage index of an in-bounds coordinate.
    fn matrix_idx(&self, c: Coord) -> (i: usize)
        requires
            self.wf(),
            self.spec_in_bounds(c),
        ensures
            i == self.idx_of(c),
            i < self.cells@.len(),
    {
        proof {
            self.lemma_idx_bounds(c);
        }
        (c.x as usize) * (self.height as usize) + (c.y as usize)
    }

    /// Wall query, safe for any coordinate: out of bounds answers wall.
    pub fn is_wall(&self, c: Coord) -> (r: bool)
        requires
            self.wf(),
        ensures
            r == self.spec_is_wall(c),
    {
        if !self.is_inside(c) {
            return true;
        }
        let i = self.matrix_idx(c);
        self.cells[i].wall
    }

    /// Space query, safe for any coordinate: out of bounds answers false.
    pub fn is_space(&self, c: Coord) -> (r: bool)
        requires
            self.wf(),
        ensures
            r == self.spec_is_space(c),
    {
        if !self.is_inside(c) {
            return false;
        }
        let i = self.matrix_idx(c);
        self.cells[i].space
    }

    /// Footprint query, safe for any coordinate: out of bounds answers false.
    pub fn is_footprints(&self, c: Coord) -> (r: bool)
        requires
            self.wf(),
        ensures
            r == self.spec_is_footprints(c),
    {
        if !self.is_inside(c) {
            return false;
        }
        let i = self.matrix_idx(c);
        self.cells[i].footprints
    }

    /// No-entry query, safe for any coordinate: out of bounds answers false.
    pub fn is_noentry(&self, c: Coord) -> (r: bool)
        requires
            self.wf(),
        ensures
            r == self.spec_is_noentry(c),
    {
        if !self.is_inside(c) {
            return false;
        }
        let i = self.matrix_idx(c);
        self.cells[i].noentry
    }

    /// Dead-end query, safe for any coordinate: out of bounds answers false.
    pub fn is_deadend(&self, c: Coord) -> (r: bool)
        requires
            self.wf(),
        ensures
            r == self.spec_is_deadend(c),
    {
        if !self.is_inside(c) {
            return false;
        }
        let i = self.matrix_idx(c);
        self.cells[i].deadend
    }

    /// Locked-reward query, safe for any coordinate: out of bounds answers
    /// false.
    pub fn is_lockedchest(&self, c: Coord) -> (r: bool)
        requires
            self.wf(),
        ensures
            r == self.spec_is_lockedchest(c),
    {
        if !self.is_inside(c) {
            return false;
        }
        let i = self.matrix_idx(c);
        self.cells[i].lockedchest
    }

    /// Rewrites `c` to plain space, clearing all markers; a silent no-op out
    /// of bounds.
    pub fn set_space(&mut self, c: Coord)
        requires
            old(self).wf(),
        ensures
            final(self).wf(),
            final(self).width == old(self).width,
            final(self).height == old(self).height,
            final(self).start == old(self).start,
            final(self).fixed_start == old(self).fixed_start,
            final(self).rng == old(self).rng,
            final(self).cells@.len() == old(self).cells@.len(),
            old(self).spec_in_bounds(c) ==> final(self).cells@ == old(self).cells@.update(
                old(self).idx_of(c),
                Cell::spec_space_cell(),
            ),
            old(self).spec_in_bounds(c) ==> final(self).cell_at(c) == Cell::spec_space_cell(),
            forall|d: Coord|
                old(self).spec_in_bounds(d) && d != c ==> final(self).cell_at(d) == old(
                    self,
                ).cell_at(d),
            !old(self).spec_in_bounds(c) ==> final(self).cells@ == old(self).cells@,
    {
        if self.is_inside(c) {
            let i = self.matrix_idx(c);
            self.cells[i] = Cell::space_cell();
            proof {
                Maze::lemma_cells_update(*old(self), *self, c, Cell::spec_space_cell());
            }
        }
    }

    /// Stamps the footprint marker onto `c`; a silent no-op out of bounds.
    pub fn add_flag_footprints(&mut self, c: Coord)
        requires
            old(self).wf(),
        ensures
            final(self).wf(),
            final(self).width == old(self).width,
            final(self).height == old(self).height,
            final(self).start == old(self).start,
            final(self).fixed_start == old(self).fixed_start,
            final(self).rng == old(self).rng,
            final(self).cells@.len() == old(self).cells@.len(),
            old(self).spec_in_bounds(c) ==> final(self).cells@ == old(self).cells@.update(
                old(self).idx_of(c),
                Cell { footprints: true, ..old(self).cell_at(c) },
            ),
            old(self).spec_in_bounds(c) ==> final(self).cell_at(c) == (Cell {
                footprints: true,
                ..old(self).cell_at(c)
            }),
            forall|d: Coord|
                old(self).spec_in_bounds(d) && d != c ==> final(self).cell_at(d) == old(
                    self,
                ).cell_at(d),
            !old(self).spec_in_bounds(c) ==> final(self).cells@ == old(self).cells@,
    {
        if self.is_inside(c) {
            let i = self.matrix_idx(c);
            let mut cell = self.cells[i];
            cell.footprints = true;
            self.cells[i] = cell;
            proof {
                Maze::lemma_cells_update(
                    *old(self),
                    *self,
                    c,
                    Cell { footprints: true, ..old(self).cell_at(c) },
                );
            }
        }
    }

    /// Stamps the no-entry marker onto `c`; a silent no-op out of bounds.
    pub fn add_flag_noentry(&mut self, c: Coord)
        requires
            old(self).wf(),
        ensures
            final(self).wf(),
            final(self).width == old(self).width,
            final(self).height == old(self).height,
            final(self).start == old(self).start,
            final(self).fixed_start == old(self).fixed_start,
            final(self).rng == old(self).rng,
            final(self).cells@.len() == old(self).cells@.len(),
            old(self).spec_in_bounds(c) ==> final(self).cells@ == old(self).cells@.update(
                old(self).idx_of(c),
                Cell { noentry: true, ..old(self).cell_at(c) },
            ),
            old(self).spec_in_bounds(c) ==> final(self).cell_at(c) == (Cell {
                noentry: true,
                ..old(self).cell_at(c)
            }),
            forall|d: Coord|
                old(self).spec_in_bounds(d) && d != c ==> final(self).cell_at(d) == old(
                    self,
                ).cell_at(d),
            !old(self).spec_in_bounds(c) ==> final(self).cells@ == old(self).cells@,
    {
        if self.is_inside(c) {
            let i = self.matrix_idx(c);
            let mut cell = self.cells[i];
            cell.noentry = true;
            self.cells[i] = cell;
            proof {
                Maze::lemma_cells_update(
                    *old(self),
                    *self,
                    c,
                    Cell { noentry: true, ..old(self).cell_at(c) },
                );
            }
        }
    }

    /// Stamps the dead-end marker onto `c`; a silent no-op out of bounds.
    pub fn add_flag_deadend(&mut self, c: Coord)
        requires
            old(self).wf(),
        ensures
            final(self).wf(),
            final(self).width == old(self).width,
            final(self).height == old(self).height,
            final(self).start == old(self).start,
            final(self).fixed_start == old(self).fixed_start,
            final(self).rng == old(self).rng,
            final(self).cells@.len() == old(self).cells@.len(),
            old(self).spec_in_bounds(c) ==> final(self).cells@ == old(self).cells@.update(
                old(self).idx_of(c),
                Cell { deadend: true, ..old(self).cell_at(c) },
            ),
            old(self).spec_in_bounds(c) ==> final(self).cell_at(c) == (Cell {
                deadend: true,
                ..old(self).cell_at(c)
            }),
            forall|d: Coord|
                old(self).spec_in_bounds(d) && d != c ==> final(self).cell_at(d) == old(
                    self,
                ).cell_at(d),
            !old(self).spec_in_bounds(c) ==> final(self).cells@ == old(self).cells@,
    {
        if self.is_inside(c) {
            let i = self.matrix_idx(c);
            let mut cell = self.cells[i];
            cell.deadend = true;
            self.cells[i] = cell;
            proof {
                Maze::lemma_cells_update(
                    *old(self),
                    *self,
                    c,
                    Cell { deadend: true, ..old(self).cell_at(c) },
                );
            }
        }
    }

    /// Stamps the locked-reward marker onto `c`; a silent no-op out of
    /// bounds.
    pub fn add_flag_lockedchest(&mut self, c: Coord)
        requires
            old(self).wf(),
        ensures
            final(self).wf(),
            final(self).width == old(self).width,
            final(self).height == old(self).height,
            final(self).start == old(self).start,
            final(self).fixed_start == old(self).fixed_start,
            final(self).rng == old(self).rng,
            final(self).cells@.len() == old(self).cells@.len(),
            old(self).spec_in_bounds(c) ==> final(self).cells@ == old(self).cells@.update(
                old(self).idx_of(c),
                Cell { lockedchest: true, ..old(self).cell_at(c) },
            ),
            old(self).spec_in_bounds(c) ==> final(self).cell_at(c) == (Cell {
                lockedchest: true,
                ..old(self).cell_at(c)
            }),
            forall|d: Coord|
                old(self).spec_in_bounds(d) && d != c ==> final(self).cell_at(d) == old(
                    self,
                ).cell_at(d),
            !old(self).spec_in_bounds(c) ==> final(self).cells@ == old(self).cells@,
    {
        if self.is_inside(c) {
            let i = self.matrix_idx(c);
            let mut cell = self.cells[i];
            cell.lockedchest = true;
            self.cells[i] = cell;
            proof {
                Maze::lemma_cells_update(
                    *old(self),
                    *self,
                    c,
                    Cell { lockedchest: true, ..old(self).cell_at(c) },
                );
            }
        }
    }

    /// Rewrites every cell to plain wall.
    pub fn fill_walls(&mut self)
        requires
            old(self).wf(),
        ensures
            final(self).wf(),
            final(self).width == old(self).width,
            final(self).height == old(self).height,
            final(self).start == old(self).start,
            final(self).fixed_start == old(self).fixed_start,
            final(self).rng == old(self).rng,
            final(self).cells@.len() == old(self).cells@.len(),
            forall|c: Coord|
                final(self).spec_in_bounds(c) ==> #[trigger] final(self).cell_at(c)
                    == Cell::spec_wall_cell(),
    {
        let ghost pre = *self;
        let n = self.cells.len();
        let mut i: usize = 0;
        while i < n
            invariant
                self.wf(),
                self.width == pre.width,
                self.height == pre.height,
                self.start == pre.start,
                self.fixed_start == pre.fixed_start,
                self.rng == pre.rng,
                self.cells@.len() == n,
                n == pre.cells@.len(),
                i <= n,
                forall|j: int| 0 <= j < i ==> self.cells@[j] == Cell::spec_wall_cell(),
            decreases n - i,
        {
            self.cells[i] = Cell::wall_cell();
            i += 1;
        }
        proof {
            assert forall|c: Coord| self.spec_in_bounds(c) implies #[trigger] self.cell_at(c)
                == Cell::spec_wall_cell() by {
                self.lemma_idx_bounds(c);
            }
        }
    }

    /// The directions, in the fixed order South, East, West, North, whose
    /// neighbour of `c` is open space.
    pub open spec fn spec_sides_space(self, c: Coord) -> Seq<News> {
        (if self.spec_is_space(c.spec_step(News::South)) {
            seq![News::South]
        } else {
            Seq::<News>::empty()
        }) + (if self.spec_is_space(c.spec_step(News::East)) {
            seq![News::East]
        } else {
            Seq::<News>::empty()
        }) + (if self.spec_is_space(c.spec_step(News::West)) {
            seq![News::West]
        } else {
            Seq::<News>::empty()
        }) + (if self.spec_is_space(c.spec_step(News::North)) {
            seq![News::North]
        } else {
            Seq::<News>::empty()
        })
    }

    /// How many cardinal neighbours of `c` are open space.
    pub open spec fn open_sides_count(self, c: Coord) -> int {
        (if self.spec_is_space(c.spec_step(News::South)) {
            1int
        } else {
            0int
        }) + (if self.spec_is_space(c.spec_step(News::East)) {
            1int
        } else {
            0int
        }) + (if self.spec_is_space(c.spec_step(News::West)) {
            1int
        } else {
            0int
        }) + (if self.spec_is_space(c.spec_step(News::North)) {
            1int
        } else {
            0int
        })
    }

    /// Collects the directions whose neighbour of `c` is open space, in the
    /// fixed enumeration order South, East, West, North.
    pub fn get_sides_space(&self, c: Coord) -> (r: Vec<News>)
        requires
            self.wf(),
            i32::MIN < c.x < i32::MAX,
            i32::MIN < c.y < i32::MAX,
        ensures
            r@ == self.spec_sides_space(c),
            r@.len() == self.open_sides_count(c),
    {
        let mut r: Vec<News> = Vec::new();
        if self.is_space(c.step(News::South)) {
            r.push(News::South);
        }
        if self.is_space(c.step(News::East)) {
            r.push(News::East);
        }
        if self.is_space(c.step(News::West)) {
            r.push(News::West);
        }
        if self.is_space(c.step(News::North)) {
            r.push(News::North);
        }
        proof {
            assert(r@ =~= self.spec_sides_space(c));
        }
        r
    }

    /// Two grids with the same dimensions and the same cell storage agree on
    /// every per-cell predicate, whatever their start or stream state.
    pub proof fn lemma_same_cells(a: Maze, b: Maze)
        requires
            b.width == a.width,
            b.height == a.height,
            b.cells@ == a.cells@,
        ensures
            forall|c: Coord| #[trigger] b.cell_at(c) == a.cell_at(c),
            forall|c: Coord| #[trigger] b.spec_is_space(c) == a.spec_is_space(c),
            a.all_defined() ==> b.all_defined(),
            a.border_walled() ==> b.border_walled(),
            a.footprints_on_space() ==> b.footprints_on_space(),
            a.no_marks() ==> b.no_marks(),
    {
        assert forall|c: Coord| #[trigger] b.cell_at(c) == a.cell_at(c) by {}
        if a.all_defined() {
            assert forall|c: Coord| b.spec_in_bounds(c) implies (#[trigger] b.cell_at(c)).wall
                != b.cell_at(c).space by {
                assert(a.cell_at(c).wall != a.cell_at(c).space);
            }
        }
        if a.border_walled() {
            assert forall|c: Coord| b.on_border(c) implies (#[trigger] b.cell_at(c)).wall by {
                assert(a.cell_at(c).wall);
            }
        }
        if a.footprints_on_space() {
            assert forall|c: Coord|
                b.spec_in_bounds(c) && (#[trigger] b.cell_at(c)).footprints implies b.cell_at(
                c,
            ).space by {
                assert(a.cell_at(c).space);
            }
        }
        if a.no_marks() {
            assert forall|c: Coord| b.spec_in_bounds(c) implies {
                &&& !(#[trigger] b.cell_at(c)).noentry
                &&& !b.cell_at(c).deadend
                &&& !b.cell_at(c).lockedchest
            } by {
                assert(!a.cell_at(c).noentry && !a.cell_at(c).deadend && !a.cell_at(c).lockedchest);
            }
        }
    }

    /// Two grids that differ at most in their stream state satisfy the same
    /// generation invariants.
    pub proof fn lemma_same_grid(a: Maze, b: Maze)
        requires
            b.width == a.width,
            b.height == a.height,
            b.cells@ == a.cells@,
            b.start == a.start,
            b.fixed_start == a.fixed_start,
        ensures
            forall|c: Coord| #[trigger] b.cell_at(c) == a.cell_at(c),
            forall|c: Coord| #[trigger] b.spec_is_space(c) == a.spec_is_space(c),
            a.no_marks() ==> b.no_marks(),
            a.valid() ==> b.valid(),
    {
        Maze::lemma_same_cells(a, b);
        if a.valid() {
            if a.start_is_set() {
                assert(b.spec_is_space(b.start) == a.spec_is_space(a.start));
            }
            assert forall|e: Coord| #[trigger] b.spec_is_space(e) implies crate::reach::reachable(
                b,
                b.start,
                e,
            ) by {
                assert(a.spec_is_space(e));
                crate::reach::lemma_reachable_mono(a, b, a.start, e);
            }
            if !a.start_is_set() {
                assert forall|e: Coord| !(#[trigger] b.spec_is_space(e)) by {
                    assert(b.spec_is_space(e) == a.spec_is_space(e));
                }
            }
        }
    }

    /// Carving an interior wall cell that touches the open region preserves
    /// the generation invariant, grows the open region and shrinks the
    /// termination measure.
    pub proof fn lemma_valid_after_carve(pre: Maze, post: Maze, c: Coord, d: Coord)
        requires
            pre.valid(),
            pre.start_is_set(),
            pre.spec_interior(c),
            pre.cell_at(c).wall,
            pre.spec_is_space(d),
            crate::geometry::adjacent(d, c),
            post.width == pre.width,
            post.height == pre.height,
            post.start == pre.start,
            post.fixed_start == pre.fixed_start,
            post.cells@ == pre.cells@.update(pre.idx_of(c), Cell::spec_space_cell()),
        ensures
            post.valid(),
            post.start_is_set(),
            forall|e: Coord| #[trigger] pre.spec_is_space(e) ==> post.spec_is_space(e),
            pre.no_marks() ==> post.no_marks(),
            post.spec_is_space(c),
            !post.spec_is_footprints(c),
            crate::counting::grid_measure(post.cells@) < crate::counting::grid_measure(
                pre.cells@,
            ),
    {
        Maze::lemma_cells_update(pre, post, c, Cell::spec_space_cell());
        crate::reach::lemma_connected_after_carve(pre, post, c, d);
        assert(c != pre.start);
        assert(post.start_ok());
        assert forall|e: Coord| post.spec_in_bounds(e) implies (#[trigger] post.cell_at(e)).wall
            != post.cell_at(e).space by {
            if e != c {
                assert(post.cell_at(e) == pre.cell_at(e));
            }
        }
        assert forall|e: Coord| post.on_border(e) implies (#[trigger] post.cell_at(e)).wall by {
            assert(e != c);
            assert(post.cell_at(e) == pre.cell_at(e));
        }
        assert forall|e: Coord|
            post.spec_in_bounds(e) && (#[trigger] post.cell_at(e)).footprints implies post.cell_at(
            e,
        ).space by {
            if e != c {
                assert(post.cell_at(e) == pre.cell_at(e));
            }
        }
        if pre.no_marks() {
            assert forall|e: Coord| post.spec_in_bounds(e) implies {
                &&& !(#[trigger] post.cell_at(e)).noentry
                &&& !post.cell_at(e).deadend
                &&& !post.cell_at(e).lockedchest
            } by {
                if e != c {
                    assert(post.cell_at(e) == pre.cell_at(e));
                }
            }
        }
        pre.lemma_idx_bounds(c);
        crate::counting::lemma_measure_update(pre.cells@, pre.idx_of(c), Cell::spec_space_cell());
    }

    /// Stamping a footprint onto a fresh space cell preserves the generation
    /// invariant, leaves the open region unchanged and shrinks the
    /// termination measure.
    pub proof fn lemma_valid_after_footprint(pre: Maze, post: Maze, c: Coord)
        requires
            pre.valid(),
            pre.spec_in_bounds(c),
            pre.cell_at(c).space,
            post.width == pre.width,
            post.height == pre.height,
            post.start == pre.start,
            post.fixed_start == pre.fixed_start,
            post.cells@ == pre.cells@.update(
                pre.idx_of(c),
                Cell { footprints: true, ..pre.cell_at(c) },
            ),
        ensures
            post.valid(),
            forall|e: Coord| #[trigger] post.spec_is_space(e) == pre.spec_is_space(e),
            pre.no_marks() ==> post.no_marks(),
            pre.start_is_set() ==> post.start_is_set(),
            post.cell_at(c) == (Cell { footprints: true, ..pre.cell_at(c) }),
            forall|e: Coord| pre.spec_in_bounds(e) && e != c ==> post.cell_at(e) == pre.cell_at(e),
            !pre.cell_at(c).footprints ==> crate::counting::grid_measure(post.cells@)
                < crate::counting::grid_measure(pre.cells@),
            pre.cell_at(c).footprints ==> crate::counting::grid_measure(post.cells@)
                == crate::counting::grid_measure(pre.cells@),
    {
        Maze::lemma_cells_update(pre, post, c, Cell { footprints: true, ..pre.cell_at(c) });
        assert forall|e: Coord| #[trigger] post.spec_is_space(e) == pre.spec_is_space(e) by {
            if e != c && pre.spec_in_bounds(e) {
                assert(post.cell_at(e) == pre.cell_at(e));
            }
        }
        assert forall|e: Coord| post.spec_in_bounds(e) implies (#[trigger] post.cell_at(e)).wall
            != post.cell_at(e).space by {
            if e != c {
                assert(post.cell_at(e) == pre.cell_at(e));
            }
        }
        assert forall|e: Coord| post.on_border(e) implies (#[trigger] post.cell_at(e)).wall by {
            if e != c {
                assert(post.cell_at(e) == pre.cell_at(e));
            }
        }
        assert forall|e: Coord|
            post.spec_in_bounds(e) && (#[trigger] post.cell_at(e)).footprints implies post.cell_at(
            e,
        ).space by {
            if e != c {
                assert(post.cell_at(e) == pre.cell_at(e));
            }
        }
        if pre.no_marks() {
            assert forall|e: Coord| post.spec_in_bounds(e) implies {
                &&& !(#[trigger] post.cell_at(e)).noentry
                &&& !post.cell_at(e).deadend
                &&& !post.cell_at(e).lockedchest
            } by {
                if e != c {
                    assert(post.cell_at(e) == pre.cell_at(e));
                }
            }
        }
        if post.start_is_set() || pre.start_is_set() {
            assert(post.spec_is_space(post.start) == pre.spec_is_space(pre.start));
        }
        assert forall|e: Coord| #[trigger] post.spec_is_space(e) implies crate::reach::reachable(
            post,
            post.start,
            e,
        ) by {
            assert(pre.spec_is_space(e));
            crate::reach::lemma_reachable_mono(pre, post, pre.start, e);
        }
        pre.lemma_idx_bounds(c);
        crate::counting::lemma_measure_update(
            pre.cells@,
            pre.idx_of(c),
            Cell { footprints: true, ..pre.cell_at(c) },
        );
    }

    /// Carving the chosen start cell out of a grid with no open space yet
    /// establishes the generation invariant.
    pub proof fn lemma_valid_after_start_carve(pre: Maze, post: Maze, c: Coord)
        requires
            pre.wf(),
            pre.all_defined(),
            pre.border_walled(),
            pre.footprints_on_space(),
            pre.fixed_ok(),
            forall|e: Coord| !(#[trigger] pre.spec_is_space(e)),
            pre.spec_interior(c),
            post.start == c,
            post.width == pre.width,
            post.height == pre.height,
            post.fixed_start == pre.fixed_start,
            post.cells@ == pre.cells@.update(pre.idx_of(c), Cell::spec_space_cell()),
        ensures
            post.valid(),
            post.start_is_set(),
            post.spec_is_space(c),
            forall|e: Coord| #[trigger] post.spec_is_space(e) ==> e == c,
            pre.no_marks() ==> post.no_marks(),
            forall|e: Coord| post.spec_in_bounds(e) ==> !(#[trigger] post.cell_at(e)).footprints,
    {
        Maze::lemma_cells_update(pre, post, c, Cell::spec_space_cell());
        crate::reach::lemma_connected_after_first_carve(pre, post, c);
        assert forall|e: Coord| post.spec_in_bounds(e) implies !(
        #[trigger] post.cell_at(e)).footprints by {
            if e != c {
                assert(post.cell_at(e) == pre.cell_at(e));
                assert(!pre.spec_is_space(e));
            }
        }
        assert forall|e: Coord| post.spec_in_bounds(e) implies (#[trigger] post.cell_at(e)).wall
            != post.cell_at(e).space by {
            if e != c {
                assert(post.cell_at(e) == pre.cell_at(e));
            }
        }
        assert forall|e: Coord| post.on_border(e) implies (#[trigger] post.cell_at(e)).wall by {
            assert(e != c);
            assert(post.cell_at(e) == pre.cell_at(e));
        }
        assert forall|e: Coord|
            post.spec_in_bounds(e) && (#[trigger] post.cell_at(e)).footprints implies post.cell_at(
            e,
        ).space by {
            if e != c {
                assert(post.cell_at(e) == pre.cell_at(e));
            }
        }
        if pre.no_marks() {
            assert forall|e: Coord| post.spec_in_bounds(e) implies {
                &&& !(#[trigger] post.cell_at(e)).noentry
                &&& !post.cell_at(e).deadend
                &&& !post.cell_at(e).lockedchest
            } by {
                if e != c {
                    assert(post.cell_at(e) == pre.cell_at(e));
                }
            }
        }
    }

    /// Creates a grid of the given size, all wall, with its own stream
    /// seeded by `seed`.  A pinned start, when given, is carved immediately;
    /// otherwise the start stays unset until a carving strategy picks one.
    pub fn new(width: i32, height: i32, seed: u64, fixed_start: Option<Coord>) -> (r: Maze)
        requires
            3 <= width <= 4096,
            3 <= height <= 4096,
            match fixed_start {
                Option::Some(c) => 1 <= c.x <= width - 2 && 1 <= c.y <= height - 2,
                Option::None => true,
            },
        ensures
            r.valid(),
            r.no_marks(),
            r.width == width,
            r.height == height,
            r.fixed_start == fixed_start,
            r.rng.seed() == seed,
            r.rng.log() == Seq::<u64>::empty(),
            match fixed_start {
                Option::Some(c) => r.start == c && r.spec_is_space(c),
                Option::None => !r.start_is_set(),
            },
            forall|c: Coord| #[trigger] r.spec_is_space(c) ==> fixed_start == Option::Some(c),
            forall|c: Coord| r.spec_in_bounds(c) ==> !(#[trigger] r.cell_at(c)).footprints,
    {
        proof {
            assert(width * height <= 4096 * 4096) by (nonlinear_arith)
                requires
                    0 <= width <= 4096,
                    0 <= height <= 4096,
            ;
        }
        let n = (width as usize) * (height as usize);
        let mut cells: Vec<Cell> = Vec::new();
        let mut i: usize = 0;
        while i < n
            invariant
                i <= n,
                cells@.len() == i,
                forall|j: int| 0 <= j < i ==> cells@[j] == Cell::spec_wall_cell(),
            decreases n - i,
        {
            cells.push(Cell::wall_cell());
            i += 1;
        }
        let mut m = Maze {
            width,
            height,
            cells,
            start: Coord { x: -1, y: -1 },
            fixed_start,
            rng: MazeRng::from_seed(seed),
        };
        let ghost base = m;
        proof {
            assert(base.wf());
            assert forall|c: Coord| base.spec_in_bounds(c) implies #[trigger] base.cell_at(c)
                == Cell::spec_wall_cell() by {
                base.lemma_idx_bounds(c);
            }
            assert forall|c: Coord| !(#[trigger] base.spec_is_space(c)) by {
                if base.spec_in_bounds(c) {
                    assert(base.cell_at(c) == Cell::spec_wall_cell());
                }
            }
            assert forall|c: Coord| base.spec_in_bounds(c) implies {
                &&& (#[trigger] base.cell_at(c)).wall != base.cell_at(c).space
                &&& !base.cell_at(c).footprints
                &&& !base.cell_at(c).noentry
                &&& !base.cell_at(c).deadend
                &&& !base.cell_at(c).lockedchest
            } by {
                assert(base.cell_at(c) == Cell::spec_wall_cell());
            }
            assert forall|c: Coord| base.on_border(c) implies (#[trigger] base.cell_at(c)).wall by {
                assert(base.cell_at(c) == Cell::spec_wall_cell());
            }
        }
        match fixed_start {
            Option::Some(c) => {
                m.start = c;
                let ghost pre = m;
                proof {
                    Maze::lemma_same_cells(base, pre);
                    assert forall|e: Coord| !(#[trigger] pre.spec_is_space(e)) by {
                        assert(pre.spec_is_space(e) == base.spec_is_space(e));
                    }
                }
                m.set_space(c);
                proof {
                    Maze::lemma_valid_after_start_carve(pre, m, c);
                }
            },
            Option::None => {
                proof {
                    assert forall|e: Coord| #[trigger] m.spec_is_space(e)
                        implies crate::reach::reachable(m, m.start, e) by {}
                }
            },
        }
        m
    }

    /// Resets the grid for a fresh generation: every cell back to wall, the
    /// start back to the pinned coordinate (carved) or to unset.
    pub fn reset_grid(&mut self)
        requires
            old(self).wf(),
            old(self).fixed_ok(),
        ensures
            final(self).valid(),
            final(self).no_marks(),
            final(self).width == old(self).width,
            final(self).height == old(self).height,
            final(self).fixed_start == old(self).fixed_start,
            final(self).rng == old(self).rng,
            match old(self).fixed_start {
                Option::Some(c) => final(self).start == c && final(self).spec_is_space(c),
                Option::None => !final(self).start_is_set(),
            },
            forall|c: Coord|
                #[trigger] final(self).spec_is_space(c) ==> old(self).fixed_start == Option::Some(
                    c,
                ),
            forall|c: Coord|
                final(self).spec_in_bounds(c) ==> !(#[trigger] final(self).cell_at(c)).footprints,
    {
        self.fill_walls();
        let ghost filled = *self;
        proof {
            assert forall|c: Coord| filled.spec_in_bounds(c) implies {
                &&& (#[trigger] filled.cell_at(c)).wall != filled.cell_at(c).space
                &&& !filled.cell_at(c).footprints
                &&& !filled.cell_at(c).noentry
                &&& !filled.cell_at(c).deadend
                &&& !filled.cell_at(c).lockedchest
            } by {
                assert(filled.cell_at(c) == Cell::spec_wall_cell());
            }
            assert forall|c: Coord| !(#[trigger] filled.spec_is_space(c)) by {
                if filled.spec_in_bounds(c) {
                    assert(filled.cell_at(c) == Cell::spec_wall_cell());
                }
            }
            assert forall|c: Coord| filled.on_border(c) implies (
            #[trigger] filled.cell_at(c)).wall by {
                assert(filled.cell_at(c) == Cell::spec_wall_cell());
            }
        }
        self.start = Coord { x: -1, y: -1 };
        let fixed = self.fixed_start;
        match fixed {
            Option::Some(c) => {
                self.start = c;
                let ghost pre = *self;
                proof {
                    Maze::lemma_same_cells(filled, pre);
                    assert forall|e: Coord| !(#[trigger] pre.spec_is_space(e)) by {
                        assert(pre.spec_is_space(e) == filled.spec_is_space(e));
                    }
                }
                self.set_space(c);
                proof {
                    Maze::lemma_valid_after_start_carve(pre, *self, c);
                }
            },
            Option::None => {
                proof {
                    Maze::lemma_same_cells(filled, *self);
                    assert forall|e: Coord| !(#[trigger] self.spec_is_space(e)) by {
                        assert(self.spec_is_space(e) == filled.spec_is_space(e));
                    }
                    assert(!self.start_is_set());
                    assert forall|e: Coord| #[trigger] self.spec_is_space(e)
                        implies crate::reach::reachable(*self, self.start, e) by {}
                }
            },
        }
    }

    /// The reset state is a function of the dimensions and the pinned start
    /// alone: two grids that both look freshly reset — exclusively
    /// classified, unmarked, with open space exactly at the pinned start —
    /// agree cell for cell.
    pub proof fn lemma_reset_state_unique(m1: Maze, m2: Maze)
        requires
            m2.width == m1.width,
            m2.height == m1.height,
            m2.fixed_start == m1.fixed_start,
            m1.all_defined(),
            m2.all_defined(),
            m1.no_marks(),
            m2.no_marks(),
            forall|c: Coord| m1.spec_in_bounds(c) ==> !(#[trigger] m1.cell_at(c)).footprints,
            forall|c: Coord| m2.spec_in_bounds(c) ==> !(#[trigger] m2.cell_at(c)).footprints,
            forall|c: Coord|
                #[trigger] m1.spec_is_space(c) <==> m1.fixed_start == Option::Some(c),
            forall|c: Coord|
                #[trigger] m2.spec_is_space(c) <==> m2.fixed_start == Option::Some(c),
        ensures
            forall|c: Coord| m1.spec_in_bounds(c) ==> #[trigger] m1.cell_at(c) == m2.cell_at(c),
    {
        assert forall|c: Coord| m1.spec_in_bounds(c) implies #[trigger] m1.cell_at(c)
            == m2.cell_at(c) by {
            assert(m1.spec_is_space(c) == m2.spec_is_space(c));
            assert(m1.cell_at(c).space == m2.cell_at(c).space);
            assert(m1.cell_at(c).wall == m2.cell_at(c).wall);
        }
    }

    /// The interior coordinate a carving strategy picks as start, as a
    /// function of the stream's seed and draw history: one draw for each
    /// axis, offset past the border.
    pub open spec fn spec_start_choice(seed: u64, log: Seq<u64>, width: i32, height: i32) -> Coord {
        Coord {
            x: (1 + crate::rng::rng_draw(seed, log, (width - 2) as u64)) as i32,
            y: (1 + crate::rng::rng_draw(
                seed,
                log.push((width - 2) as u64),
                (height - 2) as u64,
            )) as i32,
        }
    }

    /// If no start has been chosen yet, picks a uniformly random interior
    /// coordinate, carves it and records it as the start.
    pub fn ensure_start(&mut self)
        requires
            old(self).valid(),
        ensures
            final(self).valid(),
            final(self).start_is_set(),
            final(self).width == old(self).width,
            final(self).height == old(self).height,
            final(self).fixed_start == old(self).fixed_start,
            final(self).rng.seed() == old(self).rng.seed(),
            old(self).start_is_set() ==> *final(self) == *old(self),
            forall|c: Coord| #[trigger] old(self).spec_is_space(c) ==> final(self).spec_is_space(c),
            old(self).no_marks() ==> final(self).no_marks(),
            // a freshly chosen start is a function of the seed and the draws
            // made so far, so regenerations replay identically
            !old(self).start_is_set() ==> final(self).start == Maze::spec_start_choice(
                old(self).rng.seed(),
                old(self).rng.log(),
                old(self).width,
                old(self).height,
            ),
            !old(self).start_is_set() ==> final(self).rng.log() == old(self).rng.log().push(
                (old(self).width - 2) as u64,
            ).push((old(self).height - 2) as u64),
            !old(self).start_is_set() ==> final(self).cells@ == old(self).cells@.update(
                old(self).idx_of(final(self).start),
                Cell::spec_space_cell(),
            ),
    {
        if self.start.x != -1 || self.start.y != -1 {
            return ;
        }
        let w = self.width;
        let h = self.height;
        let dx = self.rng.draw_below((w - 2) as u64);
        let dy = self.rng.draw_below((h - 2) as u64);
        let c = Coord { x: 1 + (dx as i32), y: 1 + (dy as i32) };
        self.start = c;
        let ghost pre = *self;
        proof {
            Maze::lemma_same_cells(*old(self), pre);
            assert forall|e: Coord| !(#[trigger] pre.spec_is_space(e)) by {
                assert(pre.spec_is_space(e) == old(self).spec_is_space(e));
            }
        }
        self.set_space(c);
        proof {
            Maze::lemma_valid_after_start_carve(pre, *self, c);
        }
    }
}

} // verus!
