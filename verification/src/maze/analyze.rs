//! The analysis pass after carving: wall cells become no-entry, stale
//! footprints are cleared, dead-ends are marked, and a random third of the
//! dead-ends (never the start) receive a locked reward.

use vstd::prelude::*;

use crate::cell::Cell;
use crate::geometry::{Coord, News};
use crate::maze::Maze;

verus! {

impl Maze {
    /// What one cell looks like after the dead-end pass, given the grid `pre`
    /// it ran over: a space cell is rewritten clean with its dead-end mark, a
    /// wall cell keeps its markers and gains no-entry.
    pub open spec fn spec_analyzed_cell(pre: Maze, c: Coord) -> Cell {
        if pre.cell_at(c).space {
            Cell {
                space: true,
                wall: false,
                footprints: false,
                noentry: false,
                deadend: pre.open_sides_count(c) == 1,
                lockedchest: false,
            }
        } else {
            Cell { noentry: true, ..pre.cell_at(c) }
        }
    }

    /// Two grids with the same open cells agree on every neighbour count.
    pub proof fn lemma_same_spaces_same_sides(a: Maze, b: Maze, c: Coord)
        requires
            forall|e: Coord| #[trigger] b.spec_is_space(e) == a.spec_is_space(e),
        ensures
            b.open_sides_count(c) == a.open_sides_count(c),
    {
        assert(b.spec_is_space(c.spec_step(News::South)) == a.spec_is_space(
            c.spec_step(News::South),
        ));
        assert(b.spec_is_space(c.spec_step(News::East)) == a.spec_is_space(
            c.spec_step(News::East),
        ));
        assert(b.spec_is_space(c.spec_step(News::West)) == a.spec_is_space(
            c.spec_step(News::West),
        ));
        assert(b.spec_is_space(c.spec_step(News::North)) == a.spec_is_space(
            c.spec_step(News::North),
        ));
    }

    /// Walks the whole grid once: every wall cell is marked no-entry, every
    /// space cell is rewritten clean (dropping any stale footprint) and
    /// marked dead-end exactly when one cardinal neighbour is open.
    pub fn search_deadend(&mut self)
        requires
            old(self).valid(),
        ensures
            final(self).valid(),
            final(self).width == old(self).width,
            final(self).height == old(self).height,
            final(self).start == old(self).start,
            final(self).fixed_start == old(self).fixed_start,
            final(self).rng == old(self).rng,
            forall|c: Coord|
                old(self).spec_in_bounds(c) ==> #[trigger] final(self).cell_at(c)
                    == Maze::spec_analyzed_cell(*old(self), c),
            forall|c: Coord| #[trigger] final(self).spec_is_space(c) == old(self).spec_is_space(c),
            forall|c: Coord| !(#[trigger] final(self).spec_is_footprints(c)),
            forall|c: Coord|
                #[trigger] final(self).spec_is_noentry(c) == (final(self).spec_in_bounds(c)
                    && !final(self).spec_is_space(c)),
            forall|c: Coord|
                #[trigger] final(self).spec_is_deadend(c) == (final(self).spec_is_space(c)
                    && final(self).open_sides_count(c) == 1) || (!old(self).spec_is_space(c)
                    && old(self).spec_is_deadend(c)),
            old(self).no_marks() ==> forall|c: Coord|
                #[trigger] final(self).spec_is_deadend(c) == (final(self).spec_is_space(c)
                    && final(self).open_sides_count(c) == 1),
            old(self).no_marks() ==> forall|c: Coord| !(#[trigger] final(self).spec_is_lockedchest(
                c,
            )),
    {
        let ghost pre = *self;
        let mut x: i32 = 0;
        while x < self.width
            invariant
                self.wf(),
                pre.valid(),
                0 <= x <= self.width,
                self.width == pre.width,
                self.height == pre.height,
                self.start == pre.start,
                self.fixed_start == pre.fixed_start,
                self.rng == pre.rng,
                self.cells@.len() == pre.cells@.len(),
                forall|e: Coord|
                    pre.spec_in_bounds(e) ==> (#[trigger] self.cell_at(e)).space == pre.cell_at(
                        e,
                    ).space && self.cell_at(e).wall == pre.cell_at(e).wall,
                forall|e: Coord|
                    pre.spec_in_bounds(e) && e.x < x ==> #[trigger] self.cell_at(e)
                        == Maze::spec_analyzed_cell(pre, e),
                forall|e: Coord|
                    pre.spec_in_bounds(e) && e.x >= x ==> #[trigger] self.cell_at(e) == pre.cell_at(
                        e,
                    ),
            decreases self.width - x,
        {
            let mut y: i32 = 0;
            while y < self.height
                invariant
                    self.wf(),
                    pre.valid(),
                    0 <= x < self.width,
                    0 <= y <= self.height,
                    self.width == pre.width,
                    self.height == pre.height,
                    self.start == pre.start,
                    self.fixed_start == pre.fixed_start,
                    self.rng == pre.rng,
                    self.cells@.len() == pre.cells@.len(),
                    forall|e: Coord|
                        pre.spec_in_bounds(e) ==> (#[trigger] self.cell_at(e)).space == pre.cell_at(
                            e,
                        ).space && self.cell_at(e).wall == pre.cell_at(e).wall,
                    forall|e: Coord|
                        pre.spec_in_bounds(e) && (e.x < x || (e.x == x && e.y < y))
                            ==> #[trigger] self.cell_at(e) == Maze::spec_analyzed_cell(pre, e),
                    forall|e: Coord|
                        pre.spec_in_bounds(e) && (e.x > x || (e.x == x && e.y >= y))
                            ==> #[trigger] self.cell_at(e) == pre.cell_at(e),
                decreases self.height - y,
            {
                let c = Coord { x, y };
                proof {
                    assert(self.cell_at(c) == pre.cell_at(c));
                }
                if !self.is_space(c) {
                    self.add_flag_noentry(c);
                } else {
                    self.set_space(c);
                    proof {
                        assert forall|e: Coord| #[trigger] self.spec_is_space(e)
                            == pre.spec_is_space(e) by {
                            if pre.spec_in_bounds(e) {
                                if e == c {
                                } else {
                                }
                            }
                        }
                        Maze::lemma_same_spaces_same_sides(pre, *self, c);
                    }
                    let sides = self.get_sides_space(c);
                    if sides.len() == 1 {
                        self.add_flag_deadend(c);
                    }
                }
                y += 1;
            }
            x += 1;
        }
        proof {
            self.lemma_after_deadend_pass(pre);
        }
    }

    /// Packages the properties of the grid after the dead-end pass: the
    /// generation invariant and the per-marker characterisations.
    proof fn lemma_after_deadend_pass(self, pre: Maze)
        requires
            pre.valid(),
            self.wf(),
            self.width == pre.width,
            self.height == pre.height,
            self.start == pre.start,
            self.fixed_start == pre.fixed_start,
            forall|e: Coord|
                pre.spec_in_bounds(e) ==> #[trigger] self.cell_at(e) == Maze::spec_analyzed_cell(
                    pre,
                    e,
                ),
        ensures
            self.valid(),
            forall|c: Coord| #[trigger] self.spec_is_space(c) == pre.spec_is_space(c),
            forall|c: Coord| !(#[trigger] self.spec_is_footprints(c)),
            forall|c: Coord|
                #[trigger] self.spec_is_noentry(c) == (self.spec_in_bounds(c)
                    && !self.spec_is_space(c)),
            forall|c: Coord|
                #[trigger] self.spec_is_deadend(c) == (self.spec_is_space(c)
                    && self.open_sides_count(c) == 1) || (!pre.spec_is_space(c)
                    && pre.spec_is_deadend(c)),
            pre.no_marks() ==> forall|c: Coord|
                #[trigger] self.spec_is_deadend(c) == (self.spec_is_space(c)
                    && self.open_sides_count(c) == 1),
            pre.no_marks() ==> forall|c: Coord| !(#[trigger] self.spec_is_lockedchest(c)),
    {
        assert forall|c: Coord| #[trigger] self.spec_is_space(c) == pre.spec_is_space(c) by {
            if pre.spec_in_bounds(c) {
                assert(self.cell_at(c) == Maze::spec_analyzed_cell(pre, c));
            }
        }
        assert forall|c: Coord|
            self.spec_in_bounds(c) implies (#[trigger] self.cell_at(c)).wall != self.cell_at(
            c,
        ).space by {
            assert(pre.cell_at(c).wall != pre.cell_at(c).space);
        }
        assert forall|c: Coord| self.on_border(c) implies (#[trigger] self.cell_at(c)).wall by {
            assert(pre.cell_at(c).wall);
        }
        if pre.start_is_set() {
            assert(self.spec_is_space(self.start) == pre.spec_is_space(pre.start));
        } else {
            assert forall|c: Coord| !(#[trigger] self.spec_is_space(c)) by {
                assert(self.spec_is_space(c) == pre.spec_is_space(c));
            }
        }
        assert forall|c: Coord| #[trigger] self.spec_is_space(c) implies crate::reach::reachable(
            self,
            self.start,
            c,
        ) by {
            assert(pre.spec_is_space(c));
            crate::reach::lemma_reachable_mono(pre, self, pre.start, c);
        }
        assert forall|c: Coord| #[trigger] self.spec_is_deadend(c) == (self.spec_is_space(c)
            && self.open_sides_count(c) == 1) || (!pre.spec_is_space(c) && pre.spec_is_deadend(
            c,
        )) by {
            if pre.spec_in_bounds(c) {
                Maze::lemma_same_spaces_same_sides(pre, self, c);
            }
        }
        if pre.no_marks() {
            assert forall|c: Coord| #[trigger] self.spec_is_deadend(c) == (self.spec_is_space(c)
                && self.open_sides_count(c) == 1) by {
                if pre.spec_in_bounds(c) {
                    Maze::lemma_same_spaces_same_sides(pre, self, c);
                    assert(!pre.cell_at(c).deadend);
                }
            }
        }
    }

    /// The dead-end pass is deterministic: over two grids that agree cell
    /// for cell it prescribes the same result for every cell, so analysing
    /// equal grids yields equal grids.
    pub proof fn lemma_analysis_deterministic(pre1: Maze, pre2: Maze, c: Coord)
        requires
            pre2.width == pre1.width,
            pre2.height == pre1.height,
            forall|e: Coord| #[trigger] pre2.cell_at(e) == pre1.cell_at(e),
        ensures
            Maze::spec_analyzed_cell(pre1, c) == Maze::spec_analyzed_cell(pre2, c),
    {
        assert forall|e: Coord| #[trigger] pre2.spec_is_space(e) == pre1.spec_is_space(e) by {
            assert(pre2.cell_at(e) == pre1.cell_at(e));
        }
        Maze::lemma_same_spaces_same_sides(pre1, pre2, c);
        assert(pre2.cell_at(c) == pre1.cell_at(c));
    }

    /// Applies one reward decision to `c`: when the drawn boolean is true,
    /// `c` is a dead-end and `c` is not the start, the cell is marked
    /// no-entry and locked-reward; otherwise nothing changes.
    pub fn apply_reward(&mut self, c: Coord, take: bool)
        requires
            old(self).wf(),
        ensures
            final(self).wf(),
            final(self).width == old(self).width,
            final(self).height == old(self).height,
            final(self).start == old(self).start,
            final(self).fixed_start == old(self).fixed_start,
            final(self).rng == old(self).rng,
            final(self).cells@.len() == old(self).cells@.len(),
            (take && old(self).spec_is_deadend(c) && c != old(self).start) ==> {
                &&& final(self).cells@ == old(self).cells@.update(
                    old(self).idx_of(c),
                    Cell { noentry: true, lockedchest: true, ..old(self).cell_at(c) },
                )
                &&& final(self).cell_at(c) == (Cell {
                    noentry: true,
                    lockedchest: true,
                    ..old(self).cell_at(c)
                })
                &&& forall|d: Coord|
                    old(self).spec_in_bounds(d) && d != c ==> final(self).cell_at(d) == old(
                        self,
                    ).cell_at(d)
            },
            !(take && old(self).spec_is_deadend(c) && c != old(self).start) ==> final(self).cells@
                == old(self).cells@,
    {
        if take && self.is_deadend(c) {
            let s = self.start;
            if c != s {
                self.add_flag_noentry(c);
                self.add_flag_lockedchest(c);
                proof {
                    old(self).lemma_idx_bounds(c);
                    assert(self.cells@ =~= old(self).cells@.update(
                        old(self).idx_of(c),
                        Cell { noentry: true, lockedchest: true, ..old(self).cell_at(c) },
                    ));
                }
            }
        }
    }

    /// The draw history after the reward pass has walked the first `i`
    /// cells of `pre` in storage order, starting from history `log0`: every
    /// dead-end cell consumes exactly one draw.
    pub open spec fn spec_reward_log(pre: Maze, log0: Seq<u64>, i: int) -> Seq<u64>
        decreases i,
    {
        if i <= 0 {
            log0
        } else if pre.cells@[i - 1].deadend {
            Maze::spec_reward_log(pre, log0, i - 1).push(0)
        } else {
            Maze::spec_reward_log(pre, log0, i - 1)
        }
    }

    /// The cell at storage index `i` after the reward pass over `pre` with
    /// seed `seed` and initial history `log0`: a dead-end away from the
    /// start whose one-in-three draw came up true is locked, everything
    /// else is untouched.  Together with the dead-end pass this pins the
    /// whole analysis phase to the seed and the draw history.
    pub open spec fn spec_rewarded_cell(pre: Maze, seed: u64, log0: Seq<u64>, i: int) -> Cell {
        let cell = pre.cells@[i];
        if cell.deadend && crate::rng::rng_chance(seed, Maze::spec_reward_log(pre, log0, i)) && i
            != pre.idx_of(pre.start) {
            Cell { noentry: true, lockedchest: true, ..cell }
        } else {
            cell
        }
    }

    /// The reward pass consumes draws deterministically: over two grids
    /// that agree cell for cell its draw history is the same.
    pub proof fn lemma_reward_log_deterministic(a: Maze, b: Maze, log0: Seq<u64>, i: int)
        requires
            b.cells@ == a.cells@,
        ensures
            Maze::spec_reward_log(a, log0, i) == Maze::spec_reward_log(b, log0, i),
        decreases i,
    {
        if i > 0 {
            Maze::lemma_reward_log_deterministic(a, b, log0, i - 1);
        }
    }

    /// The reward pass is deterministic: over two grids that agree cell for
    /// cell, with the same dimensions and start, the same seed and draw
    /// history prescribe the same outcome for every cell.
    pub proof fn lemma_reward_deterministic(
        a: Maze,
        b: Maze,
        seed: u64,
        log0: Seq<u64>,
        i: int,
    )
        requires
            b.cells@ == a.cells@,
            b.height == a.height,
            b.start == a.start,
        ensures
            Maze::spec_rewarded_cell(a, seed, log0, i) == Maze::spec_rewarded_cell(
                b,
                seed,
                log0,
                i,
            ),
    {
        Maze::lemma_reward_log_deterministic(a, b, log0, i);
    }

    /// The reward pass: every dead-end except the start draws one boolean
    /// with probability one third; winners are marked no-entry and
    /// locked-reward.  The outcome is pinned: every cell and the final draw
    /// history are functions of the grid walked over, the seed and the
    /// history at entry.
    pub fn place_rewards(&mut self)
        requires
            old(self).valid(),
        ensures
            final(self).valid(),
            final(self).width == old(self).width,
            final(self).height == old(self).height,
            final(self).start == old(self).start,
            final(self).fixed_start == old(self).fixed_start,
            final(self).rng.seed() == old(self).rng.seed(),
            forall|i: int|
                0 <= i < old(self).cells@.len() ==> #[trigger] final(self).cells@[i]
                    == Maze::spec_rewarded_cell(
                    *old(self),
                    old(self).rng.seed(),
                    old(self).rng.log(),
                    i,
                ),
            final(self).rng.log() == Maze::spec_reward_log(
                *old(self),
                old(self).rng.log(),
                old(self).cells@.len() as int,
            ),
            forall|c: Coord|
                old(self).spec_in_bounds(c) ==> {
                    ||| #[trigger] final(self).cell_at(c) == old(self).cell_at(c)
                    ||| (old(self).cell_at(c).deadend && c != old(self).start
                        && final(self).cell_at(c) == (Cell {
                        noentry: true,
                        lockedchest: true,
                        ..old(self).cell_at(c)
                    }))
                },
            forall|c: Coord| #[trigger] final(self).spec_is_space(c) == old(self).spec_is_space(c),
            forall|c: Coord|
                #[trigger] final(self).spec_is_deadend(c) == old(self).spec_is_deadend(c),
            forall|c: Coord|
                #[trigger] final(self).spec_is_footprints(c) == old(self).spec_is_footprints(c),
            old(self).spec_in_bounds(old(self).start) ==> final(self).cell_at(old(self).start)
                == old(self).cell_at(old(self).start),
    {
        let ghost pre = *self;
        let mut x: i32 = 0;
        while x < self.width
            invariant
                self.wf(),
                pre.valid(),
                0 <= x <= self.width,
                self.width == pre.width,
                self.height == pre.height,
                self.start == pre.start,
                self.fixed_start == pre.fixed_start,
                self.rng.seed() == pre.rng.seed(),
                self.cells@.len() == pre.cells@.len(),
                0 <= x * pre.height <= pre.cells@.len(),
                self.rng.log() == Maze::spec_reward_log(pre, pre.rng.log(), x * pre.height),
                forall|j: int|
                    0 <= j < x * pre.height ==> #[trigger] self.cells@[j]
                        == Maze::spec_rewarded_cell(pre, pre.rng.seed(), pre.rng.log(), j),
                forall|j: int|
                    x * pre.height <= j < pre.cells@.len() ==> #[trigger] self.cells@[j]
                        == pre.cells@[j],
                forall|e: Coord|
                    pre.spec_in_bounds(e) ==> (#[trigger] self.cell_at(e) == pre.cell_at(e) || (
                    pre.cell_at(e).deadend && e != pre.start && self.cell_at(e) == (Cell {
                        noentry: true,
                        lockedchest: true,
                        ..pre.cell_at(e)
                    }))),
                forall|e: Coord|
                    pre.spec_in_bounds(e) && e.x >= x ==> #[trigger] self.cell_at(e) == pre.cell_at(
                        e,
                    ),
            decreases self.width - x,
        {
            proof {
                assert((x + 1) * pre.height <= pre.width * pre.height) by (nonlinear_arith)
                    requires
                        0 <= x,
                        x < pre.width,
                        0 <= pre.height,
                ;
                assert((x + 1) * pre.height == x * pre.height + pre.height) by (nonlinear_arith);
            }
            let mut y: i32 = 0;
            while y < self.height
                invariant
                    self.wf(),
                    pre.valid(),
                    0 <= x < self.width,
                    0 <= y <= self.height,
                    self.width == pre.width,
                    self.height == pre.height,
                    self.start == pre.start,
                    self.fixed_start == pre.fixed_start,
                    self.rng.seed() == pre.rng.seed(),
                    self.cells@.len() == pre.cells@.len(),
                    0 <= x * pre.height,
                    x * pre.height + pre.height <= pre.cells@.len(),
                    self.rng.log() == Maze::spec_reward_log(
                        pre,
                        pre.rng.log(),
                        x * pre.height + y,
                    ),
                    forall|j: int|
                        0 <= j < x * pre.height + y ==> #[trigger] self.cells@[j]
                            == Maze::spec_rewarded_cell(pre, pre.rng.seed(), pre.rng.log(), j),
                    forall|j: int|
                        x * pre.height + y <= j < pre.cells@.len() ==> #[trigger] self.cells@[j]
                            == pre.cells@[j],
                    forall|e: Coord|
                        pre.spec_in_bounds(e) ==> (#[trigger] self.cell_at(e) == pre.cell_at(e) || (
                        pre.cell_at(e).deadend && e != pre.start && self.cell_at(e) == (Cell {
                            noentry: true,
                            lockedchest: true,
                            ..pre.cell_at(e)
                        }))),
                    forall|e: Coord|
                        pre.spec_in_bounds(e) && (e.x > x || (e.x == x && e.y >= y))
                            ==> #[trigger] self.cell_at(e) == pre.cell_at(e),
                decreases self.height - y,
            {
                let c = Coord { x, y };
                let ghost i: int = x * pre.height + y;
                proof {
                    assert(pre.idx_of(c) == i);
                    assert(0 <= i < pre.cells@.len());
                    assert(self.cells@[i] == pre.cells@[i]);
                    assert(self.cell_at(c) == self.cells@[i]);
                }
                if self.is_deadend(c) {
                    let ghost head = *self;
                    let take = self.rng.chance_one_in_three();
                    let ghost drawn = *self;
                    proof {
                        Maze::lemma_same_cells(head, drawn);
                        assert(drawn.cell_at(c) == pre.cell_at(c));
                        assert(pre.cells@[i].deadend);
                        assert(drawn.rng.log() == Maze::spec_reward_log(
                            pre,
                            pre.rng.log(),
                            i + 1,
                        ));
                        assert(take == crate::rng::rng_chance(
                            pre.rng.seed(),
                            Maze::spec_reward_log(pre, pre.rng.log(), i),
                        ));
                    }
                    self.apply_reward(c, take);
                    proof {
                        assert forall|e: Coord|
                            pre.spec_in_bounds(e) && e != c implies #[trigger] self.cell_at(e)
                            == drawn.cell_at(e) by {
                            if !(take && drawn.spec_is_deadend(c) && c != drawn.start) {
                                assert(self.cells@ == drawn.cells@);
                            }
                        }
                        assert forall|e: Coord| pre.spec_in_bounds(e) implies {
                            ||| #[trigger] self.cell_at(e) == pre.cell_at(e)
                            ||| (pre.cell_at(e).deadend && e != pre.start && self.cell_at(e)
                                == (Cell { noentry: true, lockedchest: true, ..pre.cell_at(e) }))
                        } by {
                            if e != c {
                                assert(self.cell_at(e) == drawn.cell_at(e));
                                assert(drawn.cell_at(e) == head.cell_at(e));
                            } else {
                                if take && drawn.spec_is_deadend(c) && c != drawn.start {
                                    assert(self.cell_at(c) == (Cell {
                                        noentry: true,
                                        lockedchest: true,
                                        ..pre.cell_at(c)
                                    }));
                                    assert(pre.cell_at(c).deadend);
                                } else {
                                    assert(self.cells@ == drawn.cells@);
                                    assert(self.cell_at(c) == drawn.cell_at(c));
                                }
                            }
                        }
                        // the processed cell matches its pinned outcome
                        assert(self.cells@[i] == Maze::spec_rewarded_cell(
                            pre,
                            pre.rng.seed(),
                            pre.rng.log(),
                            i,
                        )) by {
                            if take && drawn.spec_is_deadend(c) && c != drawn.start {
                                assert(drawn.idx_of(c) == i);
                                assert(self.cells@ == drawn.cells@.update(
                                    i,
                                    Cell {
                                        noentry: true,
                                        lockedchest: true,
                                        ..drawn.cell_at(c)
                                    },
                                ));
                                if pre.start_is_set() {
                                    if i == pre.idx_of(pre.start) {
                                        pre.lemma_idx_inj(c, pre.start);
                                    }
                                } else {
                                    assert(pre.idx_of(pre.start) < 0);
                                }
                            } else {
                                assert(self.cells@ == drawn.cells@);
                                if take && c == drawn.start {
                                    assert(i == pre.idx_of(pre.start));
                                }
                            }
                        }
                        assert forall|j: int|
                            0 <= j < i + 1 && j != i implies #[trigger] self.cells@[j]
                            == Maze::spec_rewarded_cell(pre, pre.rng.seed(), pre.rng.log(), j) by {
                            if take && drawn.spec_is_deadend(c) && c != drawn.start {
                                assert(self.cells@ == drawn.cells@.update(
                                    i,
                                    Cell {
                                        noentry: true,
                                        lockedchest: true,
                                        ..drawn.cell_at(c)
                                    },
                                ));
                            } else {
                                assert(self.cells@ == drawn.cells@);
                            }
                        }
                        assert forall|j: int|
                            i + 1 <= j < pre.cells@.len() implies #[trigger] self.cells@[j]
                            == pre.cells@[j] by {
                            if !(take && drawn.spec_is_deadend(c) && c != drawn.start) {
                                assert(self.cells@ == drawn.cells@);
                            }
                        }
                        assert(self.rng.log() == Maze::spec_reward_log(
                            pre,
                            pre.rng.log(),
                            i + 1,
                        ));
                    }
                } else {
                    proof {
                        assert(!pre.cells@[i].deadend);
                        assert(Maze::spec_reward_log(pre, pre.rng.log(), i + 1)
                            == Maze::spec_reward_log(pre, pre.rng.log(), i));
                        assert(Maze::spec_rewarded_cell(pre, pre.rng.seed(), pre.rng.log(), i)
                            == pre.cells@[i]);
                    }
                }
                y += 1;
            }
            proof {
                assert((x + 1) * pre.height == x * pre.height + pre.height) by (nonlinear_arith);
                assert(0 <= (x + 1) * pre.height) by (nonlinear_arith)
                    requires
                        0 <= x + 1,
                        0 <= pre.height,
                ;
            }
            x += 1;
        }
        proof {
            assert(x * pre.height == pre.cells@.len()) by {
                assert(x == pre.width);
                assert(pre.cells@.len() == pre.width * pre.height);
            }
            assert forall|c: Coord| #[trigger] self.spec_is_space(c) == pre.spec_is_space(c) by {}
            assert forall|c: Coord| #[trigger] self.spec_is_deadend(c) == pre.spec_is_deadend(
                c,
            ) by {}
            assert forall|c: Coord| #[trigger] self.spec_is_footprints(c)
                == pre.spec_is_footprints(c) by {}
            assert forall|c: Coord|
                self.spec_in_bounds(c) implies (#[trigger] self.cell_at(c)).wall != self.cell_at(
                c,
            ).space by {
                assert(pre.cell_at(c).wall != pre.cell_at(c).space);
            }
            assert forall|c: Coord| self.on_border(c) implies (#[trigger] self.cell_at(c)).wall by {
                assert(pre.cell_at(c).wall);
            }
            assert forall|c: Coord|
                self.spec_in_bounds(c) && (#[trigger] self.cell_at(c)).footprints
                implies self.cell_at(c).space by {
                assert(pre.cell_at(c).footprints == self.cell_at(c).footprints);
                assert(pre.cell_at(c).space == self.cell_at(c).space);
            }
            if pre.start_is_set() {
                assert(self.spec_is_space(self.start) == pre.spec_is_space(pre.start));
            } else {
                assert forall|c: Coord| !(#[trigger] self.spec_is_space(c)) by {
                    assert(self.spec_is_space(c) == pre.spec_is_space(c));
                }
            }
            assert forall|c: Coord| #[trigger] self.spec_is_space(c)
                implies crate::reach::reachable(*self, self.start, c) by {
                assert(pre.spec_is_space(c));
                crate::reach::lemma_reachable_mono(pre, *self, pre.start, c);
            }
        }
    }

    /// Regenerates the maze in place: reset to all wall, pick one of the
    /// three pipelines at random, run it, then analyse the result.  The
    /// resulting grid has a walled border, exclusively classified cells, an
    /// open start from which every space cell is reachable, exact dead-end
    /// marks, and rewards only on dead-ends away from the start.
    pub fn make_new_data(&mut self)
        requires
            old(self).wf(),
            old(self).fixed_ok(),
        ensures
            final(self).valid(),
            final(self).width == old(self).width,
            final(self).height == old(self).height,
            final(self).fixed_start == old(self).fixed_start,
            final(self).rng.seed() == old(self).rng.seed(),
            final(self).start_is_set(),
            final(self).spec_interior(final(self).start),
            final(self).spec_is_space(final(self).start),
            match old(self).fixed_start {
                Option::Some(c) => final(self).start == c,
                Option::None => true,
            },
            forall|c: Coord| final(self).on_border(c) ==> #[trigger] final(self).spec_is_wall(c),
            forall|c: Coord|
                final(self).spec_in_bounds(c) ==> (#[trigger] final(self).spec_is_wall(c)
                    != final(self).spec_is_space(c)),
            forall|c: Coord|
                #[trigger] final(self).spec_is_space(c) ==> crate::reach::reachable(
                    *final(self),
                    final(self).start,
                    c,
                ),
            forall|c: Coord|
                #[trigger] final(self).spec_is_deadend(c) == (final(self).spec_is_space(c)
                    && final(self).open_sides_count(c) == 1),
            !final(self).spec_is_noentry(final(self).start),
            !final(self).spec_is_lockedchest(final(self).start),
            forall|c: Coord| !(#[trigger] final(self).spec_is_footprints(c)),
            forall|c: Coord|
                final(self).spec_in_bounds(c) && !final(self).spec_is_space(c)
                    ==> #[trigger] final(self).spec_is_noentry(c),
            forall|c: Coord|
                #[trigger] final(self).spec_is_noentry(c) ==> (!final(self).spec_is_space(c)
                    || final(self).spec_is_deadend(c)),
            forall|c: Coord|
                #[trigger] final(self).spec_is_lockedchest(c) ==> (final(self).spec_is_deadend(c)
                    && final(self).spec_is_noentry(c) && c != final(self).start),
    {
        self.reset_grid();
        let ghost fresh = *self;
        let k = self.rng.draw_below(3);
        proof {
            Maze::lemma_same_grid(fresh, *self);
        }
        if k == 0 {
            self.build_maze_a_1();
            self.build_maze_b();
        } else if k == 1 {
            self.build_maze_a_2();
            self.build_maze_b();
        } else {
            self.build_maze_b();
        }
        let ghost built = *self;
        self.search_deadend();
        let ghost analyzed = *self;
        self.place_rewards();
        proof {
            // the dead-end pass ran on an unmarked grid, so its marks are exact
            assert(built.no_marks());
            // the reward pass preserves terrain, dead-ends and neighbour counts
            assert forall|c: Coord| #[trigger] self.spec_is_deadend(c) == (self.spec_is_space(c)
                && self.open_sides_count(c) == 1) by {
                Maze::lemma_same_spaces_same_sides(analyzed, *self, c);
                assert(analyzed.spec_is_deadend(c) == (analyzed.spec_is_space(c)
                    && analyzed.open_sides_count(c) == 1));
            }
            // the start keeps its clean space cell through the reward pass
            assert(analyzed.spec_is_space(analyzed.start));
            assert(self.cell_at(self.start) == analyzed.cell_at(analyzed.start));
            // no-entry only on walls or dead-ends
            assert forall|c: Coord| #[trigger] self.spec_is_noentry(c) implies (
            !self.spec_is_space(c) || self.spec_is_deadend(c)) by {
                if self.spec_in_bounds(c) {
                    if self.cell_at(c) == analyzed.cell_at(c) {
                        assert(analyzed.spec_is_noentry(c) == (analyzed.spec_in_bounds(c)
                            && !analyzed.spec_is_space(c)));
                    }
                }
            }
            // rewards sit on dead-ends away from the start, and lock them
            assert forall|c: Coord| #[trigger] self.spec_is_lockedchest(c) implies (
            self.spec_is_deadend(c) && self.spec_is_noentry(c) && c != self.start) by {
                if self.spec_in_bounds(c) {
                    assert(!analyzed.spec_is_lockedchest(c));
                }
            }
            // footprints were cleared by the dead-end pass and never return
            assert forall|c: Coord| !(#[trigger] self.spec_is_footprints(c)) by {
                assert(self.spec_is_footprints(c) == analyzed.spec_is_footprints(c));
            }
            // walls all carry no-entry
            assert forall|c: Coord|
                self.spec_in_bounds(c) && !self.spec_is_space(c)
                implies #[trigger] self.spec_is_noentry(c) by {
                assert(analyzed.spec_is_noentry(c) == (analyzed.spec_in_bounds(c)
                    && !analyzed.spec_is_space(c)));
                assert(self.spec_is_space(c) == analyzed.spec_is_space(c));
                if self.cell_at(c) == analyzed.cell_at(c) {
                } else {
                    assert(self.cell_at(c).noentry);
                }
            }
            // exclusivity, border and connectivity come with the invariant
            assert forall|c: Coord|
                self.spec_in_bounds(c) implies (#[trigger] self.spec_is_wall(c)
                    != self.spec_is_space(c)) by {
                assert(self.cell_at(c).wall != self.cell_at(c).space);
            }
        }
    }
}

} // verus!
