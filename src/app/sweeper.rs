//! The first form of the game: bombs are placed when the game is made, and
//! a click on a bomb loses at once. It shares the engine's cells and board.

use crate::clock::instant_now;
use crate::counting::{count_where, lemma_count_le_len, lemma_count_take, lemma_count_update, lemma_count_zero};
use crate::model::sweeper::{bomb_p, flagged_p, lemma_neighbors, revealed_p};
use crate::random::{choose_multiple, thread_rng};
use std::time::Instant;
use vstd::prelude::*;

pub use crate::model::sweeper::{Board, Cell, GameState};

verus! {

#[derive(Debug)]
pub struct SweeperGame {
    pub board: Board,
    pub num_bombs: usize,
    pub num_revealed: usize,
    pub num_flags: usize,
    pub state: GameState,
    pub start_time: Instant,
    pub cursor: (isize, isize),
}

/// The indices of `nb` whose cells are not revealed, in order.
pub open spec fn unopened(b: &Board, nb: Seq<usize>) -> Seq<usize>
    decreases nb.len(),
{
    if nb.len() == 0 {
        seq![]
    } else {
        let prev = unopened(b, nb.drop_last());
        if !b.cells@[nb.last() as int].is_revealed {
            prev.push(nb.last())
        } else {
            prev
        }
    }
}

pub proof fn lemma_unopened(b: &Board, nb: Seq<usize>)
    ensures
        unopened(b, nb).len() <= nb.len(),
        forall|k: int|
            0 <= k < unopened(b, nb).len() ==> nb.contains(#[trigger] unopened(b, nb)[k])
                && !b.cells@[unopened(b, nb)[k] as int].is_revealed,
    decreases nb.len(),
{
    if nb.len() > 0 {
        let p = nb.drop_last();
        lemma_unopened(b, p);
        assert forall|k: int| 0 <= k < unopened(b, p).len() implies nb.contains(#[trigger] unopened(b, p)[k]) by {
            let j = choose|j: int| 0 <= j < p.len() && p[j] == unopened(b, p)[k];
            assert(nb[j] == p[j]);
        }
        assert(nb[nb.len() - 1] == nb.last());
    }
}

/// `v` brought into `[0, hi]`.
pub open spec fn clamp(v: int, hi: int) -> int {
    if v < 0 {
        0
    } else if v > hi {
        hi
    } else {
        v
    }
}

impl SweeperGame {
    pub open spec fn wf(&self) -> bool {
        &&& self.board.wf()
        &&& self.num_bombs <= self.board.num_cells()
        &&& self.num_revealed == count_where(self.board.cells@, revealed_p())
        &&& self.num_flags == count_where(self.board.cells@, flagged_p())
        &&& 0 <= self.cursor.0 < self.board.width
        &&& 0 <= self.cursor.1 < self.board.height
    }

    /// Bombs and flags are those of `o`, and what `o` revealed stays so.
    pub open spec fn grows_from(&self, o: &SweeperGame) -> bool {
        &&& self.board.width == o.board.width
        &&& self.board.height == o.board.height
        &&& self.board.num_cells() == o.board.num_cells()
        &&& self.num_bombs == o.num_bombs
        &&& self.num_flags == o.num_flags
        &&& self.start_time == o.start_time
        &&& self.cursor == o.cursor
        &&& forall|i: int|
            0 <= i < self.board.num_cells() ==> {
                &&& (#[trigger] self.board.cells@[i]).is_bomb == o.board.cells@[i].is_bomb
                &&& self.board.cells@[i].is_flagged == o.board.cells@[i].is_flagged
                &&& o.board.cells@[i].is_revealed ==> self.board.cells@[i].is_revealed
            }
    }

    /// A new running game with `num_bombs` bombs on distinct random cells.
    pub fn new(width: usize, height: usize, num_bombs: usize) -> (r: Self)
        requires
            0 < width,
            0 < height,
            width * height <= isize::MAX,
            num_bombs <= width * height,
        ensures
            r.wf(),
            r.board.width == width,
            r.board.height == height,
            r.num_bombs == num_bombs,
            r.num_revealed == 0,
            r.num_flags == 0,
            r.state == GameState::Running,
            r.cursor == (0isize, 0isize),
            count_where(r.board.cells@, bomb_p()) == num_bombs,
            forall|i: int|
                0 <= i < r.board.num_cells() ==> !(#[trigger] r.board.cells@[i]).is_revealed
                    && !r.board.cells@[i].is_flagged,
    {
        let n = width * height;
        let blank = Cell { is_bomb: false, is_flagged: false, is_revealed: false, mine_count: 0 };
        let mut cells: Vec<Cell> = Vec::new();
        let mut pool: Vec<usize> = Vec::new();
        let mut i: usize = 0;
        while i < n
            invariant
                i <= n,
                cells@.len() == i,
                pool@.len() == i,
                forall|k: int| 0 <= k < i ==> #[trigger] cells@[k] == blank,
                forall|k: int| 0 <= k < i ==> #[trigger] pool@[k] == k,
            decreases n - i,
        {
            cells.push(blank);
            pool.push(i);
            i = i + 1;
        }
        proof {
            assert forall|a: int, b: int| 0 <= a < pool@.len() && 0 <= b < pool@.len() && a != b implies pool@[a] != pool@[b] by {}
            lemma_count_zero(cells@, bomb_p());
        }
        let ghost pool_v = pool@;
        let mut rng = thread_rng();
        let chosen = choose_multiple(pool, &mut rng, num_bombs);
        let mut k: usize = 0;
        while k < chosen.len()
            invariant
                n == cells@.len(),
                chosen@.len() == num_bombs,
                chosen@.no_duplicates(),
                forall|m: int| 0 <= m < chosen@.len() ==> pool_v.contains(#[trigger] chosen@[m]),
                forall|m: int| 0 <= m < pool_v.len() ==> #[trigger] pool_v[m] < n,
                pool_v.len() == n,
                k <= chosen@.len(),
                count_where(cells@, bomb_p()) == k,
                forall|m: int| k <= m < chosen@.len() ==> !cells@[#[trigger] chosen@[m] as int].is_bomb,
                forall|i: int|
                    0 <= i < n ==> !(#[trigger] cells@[i]).is_revealed && !cells@[i].is_flagged,
            decreases chosen@.len() - k,
        {
            let j = chosen[k];
            proof {
                assert(pool_v.contains(j));
            }
            let ghost s0 = cells@;
            let mut c = cells[j];
            c.is_bomb = true;
            cells.set(j, c);
            proof {
                lemma_count_update(s0, j as int, c, bomb_p());
                assert forall|m: int| k + 1 <= m < chosen@.len() implies !cells@[#[trigger] chosen@[m] as int].is_bomb by {
                    assert(chosen@[m] != chosen@[k as int]);
                }
            }
            k = k + 1;
        }
        proof {
            lemma_count_zero(cells@, revealed_p());
            lemma_count_zero(cells@, flagged_p());
        }
        let board = Board { width, height, cells };
        SweeperGame {
            board,
            num_bombs,
            num_revealed: 0,
            num_flags: 0,
            state: GameState::Running,
            start_time: instant_now(),
            cursor: (0, 0),
        }
    }

    /// Move the cursor by the given offset, keeping it on the board.
    pub fn move_cursor(&mut self, x: isize, y: isize)
        requires
            old(self).wf(),
            isize::MIN <= old(self).cursor.0 + x <= isize::MAX,
            isize::MIN <= old(self).cursor.1 + y <= isize::MAX,
        ensures
            final(self).wf(),
            final(self).cursor == (
                clamp(old(self).cursor.0 + x, old(self).board.width - 1) as isize,
                clamp(old(self).cursor.1 + y, old(self).board.height - 1) as isize,
            ),
            final(self).board == old(self).board,
            final(self).num_revealed == old(self).num_revealed,
            final(self).num_flags == old(self).num_flags,
            final(self).state == old(self).state,
    {
        proof {
            crate::model::sweeper::lemma_board_dims(&self.board);
        }
        let cx = clamp_to(self.cursor.0 + x, (self.board.width - 1) as isize);
        let cy = clamp_to(self.cursor.1 + y, (self.board.height - 1) as isize);
        self.cursor = (cx, cy);
    }

    /// Unveil the cell at the given coordinate: a bomb loses the game, any
    /// other hidden cell is revealed with its surroundings.
    pub fn open(&mut self, x: isize, y: isize) -> (r: GameState)
        requires
            old(self).wf(),
        ensures
            final(self).wf(),
            r == final(self).state,
            final(self).grows_from(old(self)),
            final(self).num_revealed <= final(self).board.num_cells(),
            forall|i: int|
                0 <= i < final(self).board.num_cells() && #[trigger] final(
                    self).board.cells@[i].is_revealed && !old(self).board.cells@[i].is_revealed
                    ==> !final(self).board.cells@[i].is_bomb,
            ({
                let i = old(self).board.index_of(x as int, y as int);
                &&& !old(self).board.valid(x as int, y as int) || old(self).board.cells@[i].is_revealed
                    ==> final(self).board.cells@ == old(self).board.cells@ && final(self).state
                    == old(self).state
                &&& old(self).board.valid(x as int, y as int) && !old(self).board.cells@[i].is_revealed
                    && old(self).board.cells@[i].is_bomb ==> final(self).board.cells@
                    == old(self).board.cells@ && final(self).state == GameState::Lose
                &&& old(self).board.valid(x as int, y as int) && !old(self).board.cells@[i].is_revealed
                    && !old(self).board.cells@[i].is_bomb ==> final(self).board.cells@[i].is_revealed
                    && final(self).state == if final(self).num_revealed
                    >= final(self).board.num_cells() - final(self).num_bombs {
                    GameState::Win
                } else {
                    old(self).state
                }
            }),
    {
        if let Some(ci) = self.cell_index(x, y) {
            let cell = self.board.cells[ci];
            if !cell.is_revealed {
                if cell.is_bomb {
                    self.state = GameState::Lose;
                } else {
                    self.reveal_cell(ci);
                }
            }
        }
        proof {
            lemma_count_le_len(self.board.cells@, revealed_p());
        }
        self.state
    }

    /// Toggle the flag on the cell at the given coordinate, unless it is
    /// revealed.
    pub fn flag(&mut self, x: isize, y: isize)
        requires
            old(self).wf(),
        ensures
            final(self).wf(),
            final(self).board.width == old(self).board.width,
            final(self).board.height == old(self).board.height,
            final(self).num_revealed == old(self).num_revealed,
            final(self).state == old(self).state,
            ({
                let i = old(self).board.index_of(x as int, y as int);
                if old(self).board.valid(x as int, y as int) && !old(self).board.cells@[i].is_revealed {
                    &&& final(self).board.cells@ == old(self).board.cells@.update(
                        i,
                        Cell { is_flagged: !old(self).board.cells@[i].is_flagged, ..old(self).board.cells@[i] },
                    )
                    &&& final(self).num_flags == if old(self).board.cells@[i].is_flagged {
                        old(self).num_flags - 1
                    } else {
                        old(self).num_flags + 1
                    }
                } else {
                    &&& final(self).board.cells@ == old(self).board.cells@
                    &&& final(self).num_flags == old(self).num_flags
                }
            }),
    {
        if let Some(ci) = self.cell_index(x, y) {
            let mut cell = self.board.cells[ci];
            if !cell.is_revealed {
                let ghost s0 = self.board.cells@;
                cell.is_flagged = !cell.is_flagged;
                self.board.cells.set(ci, cell);
                proof {
                    lemma_count_update(s0, ci as int, cell, revealed_p());
                    lemma_count_update(s0, ci as int, cell, flagged_p());
                    lemma_count_le_len(s0, flagged_p());
                }
                if cell.is_flagged {
                    self.num_flags = self.num_flags + 1;
                } else {
                    self.num_flags = self.num_flags - 1;
                }
            }
        }
    }

    /// The index of the cell at `(x, y)`, or `None` off the board.
    pub fn cell_index(&self, x: isize, y: isize) -> (r: Option<usize>)
        requires
            self.board.wf(),
        ensures
            r == if self.board.valid(x as int, y as int) {
                Some(self.board.index_of(x as int, y as int) as usize)
            } else {
                None::<usize>
            },
            r matches Some(i) ==> i < self.board.num_cells(),
            self.board.valid(x as int, y as int) ==> 0 <= self.board.index_of(x as int, y as int)
                < self.board.num_cells(),
    {
        self.board.cell_index(x, y)
    }

    /// The indices of the unrevealed cells around cell `cell_index`, row by
    /// row.
    pub fn adjacent_unopened_cells(&self, cell_index: usize) -> (r: Vec<usize>)
        requires
            self.board.wf(),
            cell_index < self.board.num_cells(),
        ensures
            r@ == unopened(&self.board, self.board.neighbors(cell_index as int)),
            r@.len() <= 8,
            forall|k: int|
                0 <= k < r@.len() ==> #[trigger] r@[k] < self.board.num_cells()
                    && !self.board.cells@[r@[k] as int].is_revealed,
    {
        let all = self.board.adjacent_cells(cell_index);
        proof {
            lemma_neighbors(&self.board, cell_index as int);
        }
        let mut r: Vec<usize> = Vec::new();
        let mut k: usize = 0;
        while k < all.len()
            invariant
                self.board.wf(),
                all@ == self.board.neighbors(cell_index as int),
                forall|j: int| 0 <= j < all@.len() ==> #[trigger] all@[j] < self.board.num_cells(),
                k <= all@.len(),
                r@ == unopened(&self.board, all@.take(k as int)),
            decreases all@.len() - k,
        {
            let j = all[k];
            proof {
                assert(all@.take(k + 1).drop_last() =~= all@.take(k as int));
            }
            if !self.board.cells[j].is_revealed {
                r.push(j);
            }
            k = k + 1;
        }
        proof {
            assert(all@.take(k as int) =~= all@);
            lemma_unopened(&self.board, all@);
            assert forall|k: int| 0 <= k < r@.len() implies #[trigger] r@[k] < self.board.num_cells() by {
                let j = choose|j: int| 0 <= j < all@.len() && all@[j] == r@[k];
            }
        }
        r
    }

    /// How many of the listed cells hold a bomb.
    fn count_bombs(&self, idx: &Vec<usize>) -> (r: usize)
        requires
            forall|k: int| 0 <= k < idx@.len() ==> #[trigger] idx@[k] < self.board.num_cells(),
        ensures
            r == count_where(idx@.map_values(|j: usize| self.board.cells@[j as int]), bomb_p()),
            r <= idx@.len(),
    {
        let ghost cs = idx@.map_values(|j: usize| self.board.cells@[j as int]);
        let mut n: usize = 0;
        let mut k: usize = 0;
        while k < idx.len()
            invariant
                forall|k: int| 0 <= k < idx@.len() ==> #[trigger] idx@[k] < self.board.num_cells(),
                cs == idx@.map_values(|j: usize| self.board.cells@[j as int]),
                k <= idx@.len(),
                n == count_where(cs.take(k as int), bomb_p()),
                n <= k,
            decreases idx@.len() - k,
        {
            proof {
                lemma_count_take(cs, bomb_p(), k as int);
            }
            if self.board.cells[idx[k]].is_bomb {
                n = n + 1;
            }
            k = k + 1;
        }
        proof {
            assert(cs.take(k as int) =~= cs);
        }
        n
    }

    /// Reveal from the safe cell `cell_index` with a stack of cells to visit:
    /// each newly visited cell is revealed and counts the bombs among its
    /// unrevealed neighbours; with none, those neighbours are visited too.
    /// The game is won, and the walk stops, once enough cells are revealed.
    fn reveal_cell(&mut self, cell_index: usize)
        requires
            old(self).wf(),
            cell_index < old(self).board.num_cells(),
            !old(self).board.cells@[cell_index as int].is_bomb,
            !old(self).board.cells@[cell_index as int].is_revealed,
        ensures
            final(self).wf(),
            final(self).grows_from(old(self)),
            final(self).num_revealed <= final(self).board.num_cells(),
            final(self).board.cells@[cell_index as int].is_revealed,
            final(self).state == if final(self).num_revealed >= final(self).board.num_cells()
                - final(self).num_bombs {
                GameState::Win
            } else {
                old(self).state
            },
            forall|i: int|
                0 <= i < final(self).board.num_cells() && #[trigger] final(
                    self).board.cells@[i].is_revealed && !old(self).board.cells@[i].is_revealed
                    ==> !final(self).board.cells@[i].is_bomb,
    {
        let ghost g0 = *self;
        let ghost n = self.board.num_cells();
        let target = self.board.width * self.board.height - self.num_bombs;
        let mut cell_stack: Vec<usize> = Vec::new();
        cell_stack.push(cell_index);
        let mut done = false;
        proof {
            lemma_count_le_len(self.board.cells@, revealed_p());
        }
        while !done && cell_stack.len() > 0
            invariant
                self.wf(),
                self.grows_from(&g0),
                n == self.board.num_cells(),
                target == n - self.num_bombs,
                cell_index < n,
                self.num_revealed <= n,
                forall|k: int|
                    0 <= k < cell_stack@.len() ==> #[trigger] cell_stack@[k] < n
                        && !self.board.cells@[cell_stack@[k] as int].is_bomb,
                forall|i: int|
                    0 <= i < n && #[trigger] self.board.cells@[i].is_revealed
                        && !g0.board.cells@[i].is_revealed ==> !self.board.cells@[i].is_bomb,
                !done ==> self.state == g0.state,
                done ==> self.state == GameState::Win && self.num_revealed >= target,
                self.board.cells@[cell_index as int].is_revealed || cell_stack@ == seq![cell_index],
                !done && self.board.cells@[cell_index as int].is_revealed ==> self.num_revealed < target,
                done ==> self.board.cells@[cell_index as int].is_revealed,
            decreases 9 * (n - self.num_revealed) + cell_stack@.len(),
        {
            let ci = cell_stack.pop().unwrap();
            if !self.board.cells[ci].is_revealed {
                let ghost s0 = self.board.cells@;
                let mut c = self.board.cells[ci];
                c.is_revealed = true;
                self.board.cells.set(ci, c);
                proof {
                    lemma_count_update(s0, ci as int, c, revealed_p());
                    lemma_count_update(s0, ci as int, c, flagged_p());
                    lemma_count_le_len(s0, revealed_p());
                    lemma_count_le_len(self.board.cells@, revealed_p());
                }
                self.num_revealed = self.num_revealed + 1;
                if self.num_revealed >= target {
                    self.state = GameState::Win;
                    done = true;
                } else {
                    let adjacent = self.adjacent_unopened_cells(ci);
                    let mine_count = self.count_bombs(&adjacent);
                    let ghost s1 = self.board.cells@;
                    let mut c2 = self.board.cells[ci];
                    c2.mine_count = mine_count as u8;
                    self.board.cells.set(ci, c2);
                    proof {
                        lemma_count_update(s1, ci as int, c2, revealed_p());
                        lemma_count_update(s1, ci as int, c2, flagged_p());
                    }
                    if mine_count == 0 {
                        proof {
                            let ac = adjacent@.map_values(|j: usize| s1[j as int]);
                            lemma_count_zero(ac, bomb_p());
                            assert forall|k: int| 0 <= k < adjacent@.len() implies !self.board.cells@[#[trigger] adjacent@[k] as int].is_bomb by {
                                assert(!bomb_p()(ac[k]));
                            }
                        }
                        let ghost l0 = cell_stack@.len();
                        let mut k: usize = 0;
                        while k < adjacent.len()
                            invariant
                                self.wf(),
                                self.grows_from(&g0),
                                n == self.board.num_cells(),
                                self.num_revealed <= n,
                                adjacent@.len() <= 8,
                                forall|m: int| 0 <= m < adjacent@.len() ==> #[trigger] adjacent@[m] < n
                                    && !self.board.cells@[adjacent@[m] as int].is_bomb,
                                k <= adjacent@.len(),
                                cell_stack@.len() == l0 + k,
                                forall|m: int|
                                    0 <= m < cell_stack@.len() ==> #[trigger] cell_stack@[m] < n
                                        && !self.board.cells@[cell_stack@[m] as int].is_bomb,
                            decreases adjacent@.len() - k,
                        {
                            cell_stack.push(adjacent[k]);
                            k = k + 1;
                        }
                    }
                }
            }
        }
    }
}

/// `v` brought into `[0, hi]`.
pub(crate) fn clamp_to(v: isize, hi: isize) -> (r: isize)
    requires
        0 <= hi,
    ensures
        r == clamp(v as int, hi as int),
{
    if v < 0 {
        0
    } else if v > hi {
        hi
    } else {
        v
    }
}

} // verus!
