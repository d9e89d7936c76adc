//! The random-walk digger: carve a corridor cell by cell, backtracking along
//! fresh footprint-free space when stuck, until the walk fully unwinds.

use vstd::prelude::*;

use crate::cell::Cell;
use crate::geometry::{adjacent, Coord, News};
use crate::maze::Maze;

verus! {

impl Maze {
    /// A wall at `c`, approached from direction `d`, may be carved only if
    /// the cells on the far side of the approach are still wall, which keeps
    /// corridors one cell wide and stops diagonal reconnections.
    pub open spec fn spec_is_digable(self, c: Coord, d: News) -> bool {
        match d {
            News::North => {
                &&& self.spec_is_wall(c.spec_step(News::North).spec_step(News::West))
                &&& self.spec_is_wall(c.spec_step(News::North))
                &&& self.spec_is_wall(c.spec_step(News::North).spec_step(News::East))
                &&& self.spec_is_wall(c.spec_step(News::West))
            },
            News::West => {
                &&& self.spec_is_wall(c.spec_step(News::North).spec_step(News::West))
                &&& self.spec_is_wall(c.spec_step(News::North))
                &&& self.spec_is_wall(c.spec_step(News::West))
                &&& self.spec_is_wall(c.spec_step(News::South).spec_step(News::West))
                &&& self.spec_is_wall(c.spec_step(News::South))
            },
            News::East => {
                &&& self.spec_is_wall(c.spec_step(News::North))
                &&& self.spec_is_wall(c.spec_step(News::North).spec_step(News::East))
                &&& self.spec_is_wall(c.spec_step(News::East))
                &&& self.spec_is_wall(c.spec_step(News::South))
                &&& self.spec_is_wall(c.spec_step(News::South).spec_step(News::East))
            },
            News::South => {
                &&& self.spec_is_wall(c.spec_step(News::West))
                &&& self.spec_is_wall(c.spec_step(News::East))
                &&& self.spec_is_wall(c.spec_step(News::South).spec_step(News::West))
                &&& self.spec_is_wall(c.spec_step(News::South))
                &&& self.spec_is_wall(c.spec_step(News::South).spec_step(News::East))
            },
        }
    }

    /// Decides whether the wall at `c`, approached from direction `d`, may
    /// be carved.
    pub fn is_digable(&self, c: Coord, d: News) -> (r: bool)
        requires
            self.wf(),
            self.spec_in_bounds(c),
        ensures
            r == self.spec_is_digable(c, d),
    {
        let n = c.step(News::North);
        let s = c.step(News::South);
        let w = c.step(News::West);
        let e = c.step(News::East);
        match d {
            News::North => {
                self.is_wall(n.step(News::West)) && self.is_wall(n) && self.is_wall(
                    n.step(News::East),
                ) && self.is_wall(w)
            },
            News::West => {
                self.is_wall(n.step(News::West)) && self.is_wall(n) && self.is_wall(w)
                    && self.is_wall(s.step(News::West)) && self.is_wall(s)
            },
            News::East => {
                self.is_wall(n) && self.is_wall(n.step(News::East)) && self.is_wall(e)
                    && self.is_wall(s) && self.is_wall(s.step(News::East))
            },
            News::South => {
                self.is_wall(w) && self.is_wall(e) && self.is_wall(s.step(News::West))
                    && self.is_wall(s) && self.is_wall(s.step(News::East))
            },
        }
    }

    /// The neighbour of `cur` in direction `d` is an interior wall the
    /// digger may carve, approaching along `d`.
    pub open spec fn spec_dig_option(self, cur: Coord, d: News) -> bool {
        let next = cur.spec_step(d);
        &&& self.spec_interior(next)
        &&& self.spec_is_wall(next)
        &&& self.spec_is_digable(next, d)
    }

    /// The neighbour of `cur` in direction `d` is fresh space the digger may
    /// back onto: interior, open, without a footprint.
    pub open spec fn spec_back_option(self, cur: Coord, d: News) -> bool {
        let next = cur.spec_step(d);
        &&& self.spec_interior(next)
        &&& !(self.spec_is_wall(next) && self.spec_is_digable(next, d))
        &&& self.spec_is_space(next)
        &&& !self.spec_is_footprints(next)
    }

    /// The carving candidates around `cur`, in the fixed enumeration order
    /// South, East, West, North.
    pub open spec fn spec_digger_cands(self, cur: Coord) -> Seq<Coord> {
        (if self.spec_dig_option(cur, News::South) {
            seq![cur.spec_step(News::South)]
        } else {
            Seq::<Coord>::empty()
        }) + (if self.spec_dig_option(cur, News::East) {
            seq![cur.spec_step(News::East)]
        } else {
            Seq::<Coord>::empty()
        }) + (if self.spec_dig_option(cur, News::West) {
            seq![cur.spec_step(News::West)]
        } else {
            Seq::<Coord>::empty()
        }) + (if self.spec_dig_option(cur, News::North) {
            seq![cur.spec_step(News::North)]
        } else {
            Seq::<Coord>::empty()
        })
    }

    /// The backtrack option around `cur`: the last direction in enumeration
    /// order whose neighbour is fresh space wins.
    pub open spec fn spec_digger_backtrack(self, cur: Coord) -> Option<Coord> {
        if self.spec_back_option(cur, News::North) {
            Option::Some(cur.spec_step(News::North))
        } else if self.spec_back_option(cur, News::West) {
            Option::Some(cur.spec_step(News::West))
        } else if self.spec_back_option(cur, News::East) {
            Option::Some(cur.spec_step(News::East))
        } else if self.spec_back_option(cur, News::South) {
            Option::Some(cur.spec_step(News::South))
        } else {
            Option::None
        }
    }

    /// The digger walk can go nowhere from `cur`: no carving candidate and
    /// no fresh space to back onto, so the walk is fully unwound.
    pub open spec fn spec_digger_stuck(self, cur: Coord) -> bool {
        &&& self.spec_digger_cands(cur) == Seq::<Coord>::empty()
        &&& self.spec_digger_backtrack(cur) == Option::<Coord>::None
    }

    /// The candidate the walk carves next from `cur`: the stream picks one
    /// index into the candidate list, so each step replays from the seed.
    pub open spec fn spec_digger_choice(self, cur: Coord) -> Coord {
        let cands = self.spec_digger_cands(cur);
        cands[crate::rng::rng_draw(self.rng.seed(), self.rng.log(), cands.len() as u64) as int]
    }

    /// Scans the four neighbours of `cur` in the fixed order South, East,
    /// West, North: interior diggable walls become candidates, and the last
    /// footprint-free space neighbour becomes the backtrack option.
    fn scan_for_digger(&self, cur: Coord) -> (r: (Vec<Coord>, Option<Coord>))
        requires
            self.wf(),
            self.spec_interior(cur),
        ensures
            r.0@ == self.spec_digger_cands(cur),
            r.1 == self.spec_digger_backtrack(cur),
            forall|k: int|
                0 <= k < r.0@.len() ==> {
                    &&& self.spec_interior(#[trigger] r.0@[k])
                    &&& self.cell_at(r.0@[k]).wall
                    &&& adjacent(cur, r.0@[k])
                },
            match r.1 {
                Option::Some(b) => {
                    &&& self.spec_interior(b)
                    &&& self.spec_is_space(b)
                    &&& !self.spec_is_footprints(b)
                    &&& adjacent(cur, b)
                    &&& b != cur
                },
                Option::None => true,
            },
    {
        let mut cands: Vec<Coord> = Vec::new();
        let mut backtrack: Option<Coord> = None;

        let next = cur.step(News::South);
        if self.is_interior(next) {
            if self.is_wall(next) && self.is_digable(next, News::South) {
                cands.push(next);
            } else if self.is_space(next) && !self.is_footprints(next) {
                backtrack = Some(next);
            }
        }
        let next = cur.step(News::East);
        if self.is_interior(next) {
            if self.is_wall(next) && self.is_digable(next, News::East) {
                cands.push(next);
            } else if self.is_space(next) && !self.is_footprints(next) {
                backtrack = Some(next);
            }
        }
        let next = cur.step(News::West);
        if self.is_interior(next) {
            if self.is_wall(next) && self.is_digable(next, News::West) {
                cands.push(next);
            } else if self.is_space(next) && !self.is_footprints(next) {
                backtrack = Some(next);
            }
        }
        let next = cur.step(News::North);
        if self.is_interior(next) {
            if self.is_wall(next) && self.is_digable(next, News::North) {
                cands.push(next);
            } else if self.is_space(next) && !self.is_footprints(next) {
                backtrack = Some(next);
            }
        }
        proof {
            assert(cands@ =~= self.spec_digger_cands(cur));
        }
        (cands, backtrack)
    }

    /// One iteration of the digger walk, shared by both variants: carve a
    /// random candidate and move onto it, or stamp a footprint and step back
    /// onto the backtrack option, or report the walk finished.  Returns the
    /// new cursor (`None` when the walk has fully unwound) and whether this
    /// step carved a fresh cell.
    fn digger_step(&mut self, cur: Coord) -> (r: (Option<Coord>, bool))
        requires
            old(self).valid(),
            old(self).start_is_set(),
            old(self).spec_interior(cur),
            old(self).spec_is_space(cur),
        ensures
            final(self).valid(),
            final(self).start_is_set(),
            final(self).width == old(self).width,
            final(self).height == old(self).height,
            final(self).start == old(self).start,
            final(self).fixed_start == old(self).fixed_start,
            final(self).rng.seed() == old(self).rng.seed(),
            forall|c: Coord| #[trigger] old(self).spec_is_space(c) ==> final(self).spec_is_space(c),
            old(self).no_marks() ==> final(self).no_marks(),
            match r.0 {
                Option::Some(c2) => {
                    &&& final(self).spec_interior(c2)
                    &&& final(self).spec_is_space(c2)
                    &&& !final(self).spec_is_footprints(c2)
                    &&& (crate::counting::grid_measure(final(self).cells@)
                        < crate::counting::grid_measure(old(self).cells@) || (
                    crate::counting::grid_measure(final(self).cells@)
                        == crate::counting::grid_measure(old(self).cells@) && old(
                        self,
                    ).spec_is_footprints(cur)))
                },
                Option::None => *final(self) == *old(self),
            },
            (r.0 == Option::<Coord>::None) == old(self).spec_digger_stuck(cur),
            // each step is pinned to the stream: a carve takes the drawn
            // candidate, a backtrack stamps the cursor and takes the scan's
            // backtrack option
            r.1 == (old(self).spec_digger_cands(cur).len() > 0),
            r.1 ==> {
                &&& r.0 == Option::Some(old(self).spec_digger_choice(cur))
                &&& final(self).cells@ == old(self).cells@.update(
                    old(self).idx_of(old(self).spec_digger_choice(cur)),
                    Cell::spec_space_cell(),
                )
                &&& final(self).rng.log() == old(self).rng.log().push(
                    old(self).spec_digger_cands(cur).len() as u64,
                )
            },
            !r.1 ==> final(self).rng == old(self).rng,
            !r.1 ==> r.0 == old(self).spec_digger_backtrack(cur),
            (!r.1 && r.0 is Some) ==> final(self).cells@ == old(self).cells@.update(
                old(self).idx_of(cur),
                Cell { footprints: true, ..old(self).cell_at(cur) },
            ),
    {
        let (cands, backtrack) = self.scan_for_digger(cur);
        if cands.len() > 0 {
            let k = self.rng.draw_below(cands.len() as u64) as usize;
            let c = cands[k];
            let ghost pre = *self;
            proof {
                Maze::lemma_same_grid(*old(self), pre);
            }
            self.set_space(c);
            proof {
                Maze::lemma_valid_after_carve(pre, *self, c, cur);
            }
            (Some(c), true)
        } else {
            match backtrack {
                Some(b) => {
                    let ghost pre = *self;
                    self.add_flag_footprints(cur);
                    proof {
                        Maze::lemma_valid_after_footprint(pre, *self, cur);
                        assert(self.cell_at(b) == pre.cell_at(b));
                    }
                    (Some(b), false)
                },
                None => (None, false),
            }
        }
    }

    /// Digger variant 1: hunt with backtrack until the walk fully unwinds at
    /// the start with no candidate and no backtrack left.
    pub fn build_maze_a_1(&mut self)
        requires
            old(self).valid(),
        ensures
            final(self).valid(),
            final(self).start_is_set(),
            final(self).width == old(self).width,
            final(self).height == old(self).height,
            final(self).fixed_start == old(self).fixed_start,
            final(self).rng.seed() == old(self).rng.seed(),
            old(self).start_is_set() ==> final(self).start == old(self).start,
            !old(self).start_is_set() ==> final(self).start == Maze::spec_start_choice(
                old(self).rng.seed(),
                old(self).rng.log(),
                old(self).width,
                old(self).height,
            ),
            forall|c: Coord| #[trigger] old(self).spec_is_space(c) ==> final(self).spec_is_space(c),
            old(self).no_marks() ==> final(self).no_marks(),
            // the walk ran until it fully unwound: somewhere on the carved
            // region it ended with no candidate and no backtrack left
            exists|cur: Coord|
                final(self).spec_interior(cur) && final(self).spec_is_space(cur)
                    && #[trigger] final(self).spec_digger_stuck(cur),
    {
        self.ensure_start();
        let ghost setup = *self;
        let mut cur = self.start;
        loop
            invariant
                self.valid(),
                self.start_is_set(),
                self.width == setup.width,
                self.height == setup.height,
                self.start == setup.start,
                self.fixed_start == setup.fixed_start,
                self.rng.seed() == setup.rng.seed(),
                forall|c: Coord| #[trigger] setup.spec_is_space(c) ==> self.spec_is_space(c),
                setup.no_marks() ==> self.no_marks(),
                self.spec_interior(cur),
                self.spec_is_space(cur),
            ensures
                self.valid(),
                self.start_is_set(),
                self.width == setup.width,
                self.height == setup.height,
                self.start == setup.start,
                self.fixed_start == setup.fixed_start,
                self.rng.seed() == setup.rng.seed(),
                forall|c: Coord| #[trigger] setup.spec_is_space(c) ==> self.spec_is_space(c),
                setup.no_marks() ==> self.no_marks(),
                exists|w: Coord|
                    self.spec_interior(w) && self.spec_is_space(w)
                        && #[trigger] self.spec_digger_stuck(w),
            decreases
                    crate::counting::grid_measure(self.cells@),
                    (if self.spec_is_footprints(cur) {
                        1int
                    } else {
                        0int
                    }),
        {
            let (step, _carved) = self.digger_step(cur);
            match step {
                Some(c2) => {
                    cur = c2;
                },
                None => {
                    proof {
                        assert(self.spec_digger_stuck(cur));
                    }
                    break ;
                },
            }
        }
    }

    /// Digger variant 2: as variant 1, but the walk stops early once carving
    /// has touched all four outer boundary bands.
    pub fn build_maze_a_2(&mut self)
        requires
            old(self).valid(),
        ensures
            final(self).valid(),
            final(self).start_is_set(),
            final(self).width == old(self).width,
            final(self).height == old(self).height,
            final(self).fixed_start == old(self).fixed_start,
            final(self).rng.seed() == old(self).rng.seed(),
            old(self).start_is_set() ==> final(self).start == old(self).start,
            !old(self).start_is_set() ==> final(self).start == Maze::spec_start_choice(
                old(self).rng.seed(),
                old(self).rng.log(),
                old(self).width,
                old(self).height,
            ),
            forall|c: Coord| #[trigger] old(self).spec_is_space(c) ==> final(self).spec_is_space(c),
            old(self).no_marks() ==> final(self).no_marks(),
            // the walk either fully unwound, or stopped early after carving
            // into all four outer boundary bands
            (exists|cur: Coord|
                final(self).spec_interior(cur) && final(self).spec_is_space(cur)
                    && #[trigger] final(self).spec_digger_stuck(cur)) || {
                &&& exists|c: Coord| #[trigger] final(self).spec_is_space(c) && c.y <= 1
                &&& exists|c: Coord|
                    #[trigger] final(self).spec_is_space(c) && c.x >= final(self).width - 2
                &&& exists|c: Coord| #[trigger] final(self).spec_is_space(c) && c.x <= 1
                &&& exists|c: Coord|
                    #[trigger] final(self).spec_is_space(c) && c.y >= final(self).height - 2
            },
    {
        self.ensure_start();
        let ghost setup = *self;
        let mut cur = self.start;
        let mut touched_north = false;
        let mut touched_east = false;
        let mut touched_west = false;
        let mut touched_south = false;
        loop
            invariant
                self.valid(),
                self.start_is_set(),
                self.width == setup.width,
                self.height == setup.height,
                self.start == setup.start,
                self.fixed_start == setup.fixed_start,
                self.rng.seed() == setup.rng.seed(),
                forall|c: Coord| #[trigger] setup.spec_is_space(c) ==> self.spec_is_space(c),
                setup.no_marks() ==> self.no_marks(),
                self.spec_interior(cur),
                self.spec_is_space(cur),
                touched_north ==> exists|c: Coord| #[trigger] self.spec_is_space(c) && c.y <= 1,
                touched_east ==> exists|c: Coord|
                    #[trigger] self.spec_is_space(c) && c.x >= self.width - 2,
                touched_west ==> exists|c: Coord| #[trigger] self.spec_is_space(c) && c.x <= 1,
                touched_south ==> exists|c: Coord|
                    #[trigger] self.spec_is_space(c) && c.y >= self.height - 2,
            ensures
                self.valid(),
                self.start_is_set(),
                self.width == setup.width,
                self.height == setup.height,
                self.start == setup.start,
                self.fixed_start == setup.fixed_start,
                self.rng.seed() == setup.rng.seed(),
                forall|c: Coord| #[trigger] setup.spec_is_space(c) ==> self.spec_is_space(c),
                setup.no_marks() ==> self.no_marks(),
                (exists|w: Coord|
                    self.spec_interior(w) && self.spec_is_space(w)
                        && #[trigger] self.spec_digger_stuck(w)) || {
                    &&& exists|c: Coord| #[trigger] self.spec_is_space(c) && c.y <= 1
                    &&& exists|c: Coord| #[trigger] self.spec_is_space(c) && c.x >= self.width - 2
                    &&& exists|c: Coord| #[trigger] self.spec_is_space(c) && c.x <= 1
                    &&& exists|c: Coord| #[trigger] self.spec_is_space(c) && c.y >= self.height - 2
                },
            decreases
                    crate::counting::grid_measure(self.cells@),
                    (if self.spec_is_footprints(cur) {
                        1int
                    } else {
                        0int
                    }),
        {
            let ghost pre_step = *self;
            let (step, carved) = self.digger_step(cur);
            match step {
                Some(c2) => {
                    proof {
                        assert forall|c: Coord|
                            #[trigger] pre_step.spec_is_space(c) implies self.spec_is_space(c) by {}
                    }
                    cur = c2;
                    if carved {
                        // a fresh carve may have touched a boundary band
                        if cur.y <= 1 {
                            touched_north = true;
                        }
                        if cur.x >= self.width - 2 {
                            touched_east = true;
                        }
                        if cur.x <= 1 {
                            touched_west = true;
                        }
                        if cur.y >= self.height - 2 {
                            touched_south = true;
                        }
                        if touched_north && touched_east && touched_west && touched_south {
                            break ;
                        }
                    }
                },
                None => {
                    proof {
                        assert(self.spec_digger_stuck(cur));
                    }
                    break ;
                },
            }
        }
    }
}

} // verus!
