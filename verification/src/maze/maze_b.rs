//! The pattern-driven wall remover: repeatedly rescan the whole interior
//! for expandable walls and carve one at random until none is left.

use vstd::prelude::*;

use crate::geometry::{adjacent, Coord, News};
use crate::maze::Maze;

verus! {

impl Maze {
    /// One of the four convex-corner patterns around wall cell `c`: exactly
    /// one diagonal quadrant (a corner and its two edge neighbours) is still
    /// wall while the remaining five neighbours are open, so carving `c`
    /// merely smooths a jutting corner.
    pub open spec fn spec_corner_case(self, c: Coord) -> bool {
        let nw = self.spec_is_wall(c.spec_step(News::North).spec_step(News::West));
        let nn = self.spec_is_wall(c.spec_step(News::North));
        let ne = self.spec_is_wall(c.spec_step(News::North).spec_step(News::East));
        let ww = self.spec_is_wall(c.spec_step(News::West));
        let ee = self.spec_is_wall(c.spec_step(News::East));
        let sw = self.spec_is_wall(c.spec_step(News::South).spec_step(News::West));
        let ss = self.spec_is_wall(c.spec_step(News::South));
        let se = self.spec_is_wall(c.spec_step(News::South).spec_step(News::East));
        ||| (nw && nn && ne && !ww && !ee && !sw && !ss && !se)
        ||| (nw && !nn && !ne && ww && !ee && sw && !ss && !se)
        ||| (!nw && !nn && ne && !ww && ee && !sw && !ss && se)
        ||| (!nw && !nn && !ne && !ww && !ee && sw && ss && se)
    }

    /// A wall cell the wall remover may carve: either a convex corner, or a
    /// wall none of whose exclusion rules fires (no straight vertical or
    /// horizontal through-passage, no diagonal-only elbow connection, and
    /// not an isolated pocket with all four edge neighbours wall).
    pub open spec fn spec_is_expandable(self, c: Coord) -> bool {
        let nw = self.spec_is_wall(c.spec_step(News::North).spec_step(News::West));
        let nn = self.spec_is_wall(c.spec_step(News::North));
        let ne = self.spec_is_wall(c.spec_step(News::North).spec_step(News::East));
        let ww = self.spec_is_wall(c.spec_step(News::West));
        let ee = self.spec_is_wall(c.spec_step(News::East));
        let sw = self.spec_is_wall(c.spec_step(News::South).spec_step(News::West));
        let ss = self.spec_is_wall(c.spec_step(News::South));
        let se = self.spec_is_wall(c.spec_step(News::South).spec_step(News::East));
        &&& self.spec_is_wall(c)
        &&& (self.spec_corner_case(c) || {
            &&& !(!nn && !ss)
            &&& !(!ww && !ee)
            &&& !(!nw && nn && ww)
            &&& !(!ne && nn && ee)
            &&& !(!sw && ww && ss)
            &&& !(!se && ee && ss)
            &&& !(nn && ww && ee && ss)
        })
    }

    /// Decides whether the wall remover may carve `c`.
    pub fn is_expandable(&self, c: Coord) -> (r: bool)
        requires
            self.wf(),
            self.spec_in_bounds(c),
        ensures
            r == self.spec_is_expandable(c),
    {
        if !self.is_wall(c) {
            return false;
        }
        let n = c.step(News::North);
        let s = c.step(News::South);
        let nw = self.is_wall(n.step(News::West));
        let nn = self.is_wall(n);
        let ne = self.is_wall(n.step(News::East));
        let ww = self.is_wall(c.step(News::West));
        let ee = self.is_wall(c.step(News::East));
        let sw = self.is_wall(s.step(News::West));
        let ss = self.is_wall(s);
        let se = self.is_wall(s.step(News::East));

        // the four convex-corner cases, one per quadrant
        if nw && nn && ne && !ww && !ee && !sw && !ss && !se {
            return true;
        }
        if nw && !nn && !ne && ww && !ee && sw && !ss && !se {
            return true;
        }
        if !nw && !nn && ne && !ww && ee && !sw && !ss && se {
            return true;
        }
        if !nw && !nn && !ne && !ww && !ee && sw && ss && se {
            return true;
        }
        // straight through-passages
        if !nn && !ss {
            return false;
        }
        if !ww && !ee {
            return false;
        }
        // diagonal-only elbow connections
        if !nw && nn && ww {
            return false;
        }
        if !ne && nn && ee {
            return false;
        }
        if !sw && ww && ss {
            return false;
        }
        if !se && ee && ss {
            return false;
        }
        // isolated pocket
        if nn && ww && ee && ss {
            return false;
        }
        true
    }

    /// Outside the convex-corner patterns, an expandable wall never has both
    /// vertical neighbours open nor both horizontal neighbours open, so
    /// carving it cannot punch a straight through-passage.
    pub proof fn lemma_no_through_passage(self, c: Coord)
        requires
            self.spec_is_expandable(c),
            !self.spec_corner_case(c),
        ensures
            self.spec_is_wall(c.spec_step(News::North)) || self.spec_is_wall(
                c.spec_step(News::South),
            ),
            self.spec_is_wall(c.spec_step(News::West)) || self.spec_is_wall(
                c.spec_step(News::East),
            ),
    {
    }

    /// A wall cell whose four edge neighbours are all wall is never
    /// expandable: carving it would open an isolated pocket.
    pub proof fn lemma_isolated_not_expandable(self, c: Coord)
        requires
            self.spec_is_wall(c.spec_step(News::North)),
            self.spec_is_wall(c.spec_step(News::South)),
            self.spec_is_wall(c.spec_step(News::West)),
            self.spec_is_wall(c.spec_step(News::East)),
        ensures
            !self.spec_is_expandable(c),
    {
    }

    /// An expandable wall touches the open region through at least one edge
    /// neighbour, so carving it keeps the open region connected.
    pub proof fn lemma_expandable_touches_space(self, c: Coord)
        requires
            self.wf(),
            self.all_defined(),
            self.spec_is_expandable(c),
        ensures
            self.spec_is_space(c.spec_step(News::North)) || self.spec_is_space(
                c.spec_step(News::South),
            ) || self.spec_is_space(c.spec_step(News::West)) || self.spec_is_space(
                c.spec_step(News::East),
            ),
    {
        if self.spec_is_wall(c.spec_step(News::North)) && self.spec_is_wall(
            c.spec_step(News::South),
        ) && self.spec_is_wall(c.spec_step(News::West)) && self.spec_is_wall(
            c.spec_step(News::East),
        ) {
            self.lemma_isolated_not_expandable(c);
        } else {
            let d = if !self.spec_is_wall(c.spec_step(News::North)) {
                c.spec_step(News::North)
            } else if !self.spec_is_wall(c.spec_step(News::South)) {
                c.spec_step(News::South)
            } else if !self.spec_is_wall(c.spec_step(News::West)) {
                c.spec_step(News::West)
            } else {
                c.spec_step(News::East)
            };
            assert(!self.spec_is_wall(d));
            assert(self.spec_in_bounds(d));
            assert(self.cell_at(d).wall != self.cell_at(d).space);
        }
    }

    /// The expandable walls of the interior from scan position `(x, y)`
    /// onward, in the row-major order the rescan visits them.
    pub open spec fn spec_expandable_from(self, x: int, y: int) -> Seq<Coord>
        decreases self.width - x, self.height - y,
    {
        if x > self.width - 2 {
            Seq::<Coord>::empty()
        } else if y > self.height - 2 {
            self.spec_expandable_from(x + 1, 1)
        } else {
            (if self.spec_is_expandable(Coord { x: x as i32, y: y as i32 }) {
                seq![Coord { x: x as i32, y: y as i32 }]
            } else {
                Seq::<Coord>::empty()
            }) + self.spec_expandable_from(x, y + 1)
        }
    }

    /// The full candidate list of one rescan: every expandable interior
    /// wall, in row-major order.
    pub open spec fn spec_expandable_cands(self) -> Seq<Coord> {
        self.spec_expandable_from(1, 1)
    }

    /// Rescans the whole interior and collects every expandable wall, in
    /// row-major order.
    fn collect_expandable(&self) -> (r: Vec<Coord>)
        requires
            self.wf(),
        ensures
            r@ == self.spec_expandable_cands(),
            forall|k: int|
                0 <= k < r@.len() ==> {
                    &&& self.spec_interior(#[trigger] r@[k])
                    &&& self.spec_is_expandable(r@[k])
                },
            forall|c: Coord|
                self.spec_interior(c) && #[trigger] self.spec_is_expandable(c) ==> r@.contains(c),
    {
        let mut r: Vec<Coord> = Vec::new();
        let mut x: i32 = 1;
        proof {
            assert(r@ + self.spec_expandable_from(1, 1) =~= self.spec_expandable_cands());
        }
        while x <= self.width - 2
            invariant
                self.wf(),
                1 <= x <= self.width - 1,
                r@ + self.spec_expandable_from(x as int, 1) == self.spec_expandable_cands(),
                forall|k: int|
                    0 <= k < r@.len() ==> {
                        &&& self.spec_interior(#[trigger] r@[k])
                        &&& self.spec_is_expandable(r@[k])
                    },
                forall|c: Coord|
                    self.spec_interior(c) && c.x < x && #[trigger] self.spec_is_expandable(c)
                        ==> r@.contains(c),
            decreases self.width - x,
        {
            let mut y: i32 = 1;
            while y <= self.height - 2
                invariant
                    self.wf(),
                    1 <= x <= self.width - 2,
                    1 <= y <= self.height - 1,
                    r@ + self.spec_expandable_from(x as int, y as int)
                        == self.spec_expandable_cands(),
                    forall|k: int|
                        0 <= k < r@.len() ==> {
                            &&& self.spec_interior(#[trigger] r@[k])
                            &&& self.spec_is_expandable(r@[k])
                        },
                    forall|c: Coord|
                        self.spec_interior(c) && (c.x < x || (c.x == x && c.y < y))
                            && #[trigger] self.spec_is_expandable(c) ==> r@.contains(c),
                decreases self.height - y,
            {
                let c = Coord { x, y };
                let ghost r_old = r@;
                if self.is_expandable(c) {
                    r.push(c);
                    proof {
                        assert(self.spec_expandable_from(x as int, y as int) == seq![c]
                            + self.spec_expandable_from(x as int, y as int + 1));
                        assert(r@ =~= r_old + seq![c]);
                        assert(r@ + self.spec_expandable_from(x as int, y as int + 1) =~= r_old
                            + self.spec_expandable_from(x as int, y as int));
                        assert forall|d: Coord|
                            self.spec_interior(d) && (d.x < x || (d.x == x && d.y < y + 1))
                                && #[trigger] self.spec_is_expandable(d) implies r@.contains(d) by {
                            if d == c {
                                assert(r@[r@.len() - 1] == c);
                            } else {
                                let i = choose|i: int| 0 <= i < r_old.len() && r_old[i] == d;
                                assert(r@[i] == d);
                            }
                        }
                    }
                } else {
                    proof {
                        assert(self.spec_expandable_from(x as int, y as int)
                            =~= self.spec_expandable_from(x as int, y as int + 1));
                    }
                }
                y += 1;
            }
            proof {
                assert(self.spec_expandable_from(x as int, y as int)
                    == self.spec_expandable_from(x as int + 1, 1));
            }
            x += 1;
        }
        proof {
            assert(self.spec_expandable_from(x as int, 1) =~= Seq::<Coord>::empty());
            assert(r@ =~= self.spec_expandable_cands());
            assert forall|c: Coord|
                self.spec_interior(c) && #[trigger] self.spec_is_expandable(c) implies r@.contains(
                c,
            ) by {
                assert(c.x < x);
            }
        }
        r
    }

    /// Growth strategy: pick a random start if none is set, then repeatedly
    /// carve one random expandable wall, rescanning the whole interior after
    /// every carve, until no expandable wall remains.
    pub fn build_maze_b(&mut self)
        requires
            old(self).valid(),
        ensures
            final(self).valid(),
            final(self).start_is_set(),
            final(self).width == old(self).width,
            final(self).height == old(self).height,
            final(self).fixed_start == old(self).fixed_start,
            final(self).rng.seed() == old(self).rng.seed(),
            old(self).start_is_set() ==> final(self).start == old(self).start,
            !old(self).start_is_set() ==> final(self).start == Maze::spec_start_choice(
                old(self).rng.seed(),
                old(self).rng.log(),
                old(self).width,
                old(self).height,
            ),
            forall|c: Coord| #[trigger] old(self).spec_is_space(c) ==> final(self).spec_is_space(c),
            old(self).no_marks() ==> final(self).no_marks(),
            forall|c: Coord|
                final(self).spec_interior(c) ==> !(#[trigger] final(self).spec_is_expandable(c)),
    {
        self.ensure_start();
        let ghost setup = *self;
        loop
            invariant
                self.valid(),
                self.start_is_set(),
                self.width == setup.width,
                self.height == setup.height,
                self.start == setup.start,
                self.fixed_start == setup.fixed_start,
                self.rng.seed() == setup.rng.seed(),
                forall|c: Coord| #[trigger] setup.spec_is_space(c) ==> self.spec_is_space(c),
                setup.no_marks() ==> self.no_marks(),
            ensures
                self.valid(),
                self.start_is_set(),
                self.width == setup.width,
                self.height == setup.height,
                self.start == setup.start,
                self.fixed_start == setup.fixed_start,
                self.rng.seed() == setup.rng.seed(),
                forall|c: Coord| #[trigger] setup.spec_is_space(c) ==> self.spec_is_space(c),
                setup.no_marks() ==> self.no_marks(),
                forall|c: Coord|
                    self.spec_interior(c) ==> !(#[trigger] self.spec_is_expandable(c)),
            decreases crate::counting::grid_measure(self.cells@),
        {
            let ghost head = *self;
            let cands = self.collect_expandable();
            if cands.len() == 0 {
                proof {
                    assert forall|c: Coord| self.spec_interior(c) implies !(
                    #[trigger] self.spec_is_expandable(c)) by {
                        if self.spec_is_expandable(c) {
                            assert(cands@.contains(c));
                        }
                    }
                }
                break ;
            }
            let k = self.rng.draw_below(cands.len() as u64) as usize;
            let c = cands[k];
            let ghost pre = *self;
            proof {
                Maze::lemma_same_grid(head, pre);
            }
            self.set_space(c);
            proof {
                head.lemma_expandable_touches_space(c);
                let ghost d = if head.spec_is_space(c.spec_step(News::North)) {
                    c.spec_step(News::North)
                } else if head.spec_is_space(c.spec_step(News::South)) {
                    c.spec_step(News::South)
                } else if head.spec_is_space(c.spec_step(News::West)) {
                    c.spec_step(News::West)
                } else {
                    c.spec_step(News::East)
                };
                crate::geometry::lemma_step_adjacent(c, News::North);
                crate::geometry::lemma_step_adjacent(c, News::South);
                crate::geometry::lemma_step_adjacent(c, News::West);
                crate::geometry::lemma_step_adjacent(c, News::East);
                assert(adjacent(c, d));
                assert(adjacent(d, c));
                assert(pre.spec_is_space(d) == head.spec_is_space(d));
                assert(pre.cell_at(c) == head.cell_at(c));
                assert(head.cell_at(c).wall);
                Maze::lemma_valid_after_carve(pre, *self, c, d);
            }
        }
    }
}

} // verus!
