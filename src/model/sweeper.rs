//! The game engine: board, mine placement, flood-fill and chord reveal,
//! win/lose rules and the game's timer.

use crate::clock::{duration_from_secs, duration_of_secs, elapsed_since, instant_now};
use crate::counting::{
    count_where, lemma_count_le_len, lemma_count_mono, lemma_count_same, lemma_count_split,
    lemma_count_take, lemma_count_update, lemma_count_zero,
};
use crate::random::{choose_multiple, thread_rng};
use std::collections::VecDeque;
use std::time::{Duration, Instant};
use vstd::prelude::*;

verus! {

/// One square of the board. `mine_count` is meaningful once the cell is
/// revealed: the number of bombs among its neighbours.
#[derive(Debug, Clone, Copy, Default)]
pub struct Cell {
    pub is_bomb: bool,
    pub is_flagged: bool,
    pub is_revealed: bool,
    pub mine_count: u8,
}

/// A rectangular grid of cells stored row by row: the cell at `(x, y)` is
/// `cells[y * width + x]`.
#[derive(Debug, Clone, Default)]
pub struct Board {
    pub width: usize,
    pub height: usize,
    pub cells: Vec<Cell>,
}

/// Where a game stands: `NotRunning` until it starts, then `Running` until
/// it is won or lost, which are final.
#[derive(Debug, Clone, Copy, PartialEq, Eq, Structural)]
pub enum GameState {
    NotRunning,
    Running,
    Win,
    Lose,
}

/// Why a game configuration or a mine placement was refused.
#[derive(Debug, Clone, Copy, PartialEq, Eq, Structural)]
pub enum BoardError {
    /// A side is zero, or the board has too many cells to address.
    InvalidSize,
    /// There are not enough cells besides a safe one for all the bombs.
    TooManyBombs,
    /// The safe coordinate lies outside the board.
    InvalidCoordinate,
    /// The game has started, a cell is revealed or a bomb is already placed.
    AlreadyPlaced,
}

/// A game: its board, the counters that follow the board, its state and
/// its timer. `start_time` is set when play starts; `total_time` is fixed
/// when the game ends.
#[derive(Debug)]
pub struct SweeperGame {
    pub board: Board,
    pub num_bombs: usize,
    pub num_revealed: usize,
    pub num_flags: usize,
    pub state: GameState,
    pub start_time: Option<Instant>,
    pub total_time: Duration,
}

pub open spec fn revealed_p() -> spec_fn(Cell) -> bool {
    |c: Cell| c.is_revealed
}

pub open spec fn flagged_p() -> spec_fn(Cell) -> bool {
    |c: Cell| c.is_flagged
}

pub open spec fn bomb_p() -> spec_fn(Cell) -> bool {
    |c: Cell| c.is_bomb
}

pub open spec fn safe_p() -> spec_fn(Cell) -> bool {
    |c: Cell| !c.is_bomb
}

/// Horizontal offset of the `k`-th neighbour, neighbours taken row by row.
pub open spec fn offset_dx(k: int) -> int {
    if k == 0 || k == 3 || k == 5 {
        -1
    } else if k == 1 || k == 6 {
        0
    } else {
        1
    }
}

/// Vertical offset of the `k`-th neighbour.
pub open spec fn offset_dy(k: int) -> int {
    if k < 3 {
        -1
    } else if k < 5 {
        0
    } else {
        1
    }
}

fn offset(k: usize) -> (r: (isize, isize))
    requires
        k < 8,
    ensures
        r.0 == offset_dx(k as int),
        r.1 == offset_dy(k as int),
{
    let dy: isize = if k < 3 {
        -1
    } else if k < 5 {
        0
    } else {
        1
    };
    let dx: isize = if k == 0 || k == 3 || k == 5 {
        -1
    } else if k == 1 || k == 6 {
        0
    } else {
        1
    };
    (dx, dy)
}

impl Board {
    pub open spec fn wf(&self) -> bool {
        &&& 0 < self.width
        &&& 0 < self.height
        &&& self.width * self.height <= isize::MAX
        &&& self.cells@.len() == self.width * self.height
    }

    pub open spec fn valid(&self, x: int, y: int) -> bool {
        0 <= x < self.width && 0 <= y < self.height
    }

    pub open spec fn index_of(&self, x: int, y: int) -> int {
        y * self.width + x
    }

    /// The valid neighbours among the first `k` offsets of cell `i`.
    pub open spec fn neighbors_upto(&self, i: int, k: nat) -> Seq<usize>
        decreases k,
    {
        if k == 0 {
            seq![]
        } else {
            let prev = self.neighbors_upto(i, (k - 1) as nat);
            let nx = i % (self.width as int) + offset_dx(k - 1);
            let ny = i / (self.width as int) + offset_dy(k - 1);
            if self.valid(nx, ny) {
                prev.push(self.index_of(nx, ny) as usize)
            } else {
                prev
            }
        }
    }

    /// The indices of the up to eight cells around cell `i`, row by row.
    pub open spec fn neighbors(&self, i: int) -> Seq<usize> {
        self.neighbors_upto(i, 8)
    }

    /// The cells around cell `i`, in the order of `neighbors`.
    pub open spec fn neighbor_cells(&self, i: int) -> Seq<Cell> {
        self.neighbors(i).map_values(|j: usize| self.cells@[j as int])
    }

    /// The number of bombs around cell `i`.
    pub open spec fn bombs_around(&self, i: int) -> nat {
        count_where(self.neighbor_cells(i), bomb_p())
    }

    /// The number of flags around cell `i`.
    pub open spec fn flags_around(&self, i: int) -> nat {
        count_where(self.neighbor_cells(i), flagged_p())
    }

    /// Cell `i` knows its mine count and, where that count is zero, every
    /// neighbour is revealed or flagged.
    pub open spec fn settled(&self, i: int) -> bool {
        &&& self.cells@[i].mine_count == self.bombs_around(i)
        &&& self.cells@[i].mine_count == 0 ==> forall|k: int|
            0 <= k < self.neighbors(i).len() ==> {
                ||| (#[trigger] self.cells@[self.neighbors(i)[k] as int]).is_revealed
                ||| self.cells@[self.neighbors(i)[k] as int].is_flagged
            }
    }

    pub open spec fn num_cells(&self) -> int {
        self.cells@.len() as int
    }

    pub fn is_valid_coordinate(&self, x: isize, y: isize) -> (r: bool)
        requires
            self.wf(),
        ensures
            r == self.valid(x as int, y as int),
    {
        proof {
            lemma_board_dims(self);
        }
        x >= 0 && x < self.width as isize && y >= 0 && y < self.height as isize
    }

    /// The index of the cell at `(x, y)`, or `None` off the board.
    pub fn cell_index(&self, x: isize, y: isize) -> (r: Option<usize>)
        requires
            self.wf(),
        ensures
            r == if self.valid(x as int, y as int) {
                Some(self.index_of(x as int, y as int) as usize)
            } else {
                None::<usize>
            },
            r matches Some(i) ==> i < self.num_cells(),
            self.valid(x as int, y as int) ==> 0 <= self.index_of(x as int, y as int)
                < self.num_cells(),
    {
        proof {
            if self.valid(x as int, y as int) {
                lemma_index_in_bounds(
                    self.width as int,
                    self.height as int,
                    x as int,
                    y as int,
                );
            }
        }
        if self.is_valid_coordinate(x, y) {
            proof {
                lemma_index_in_bounds(
                    self.width as int,
                    self.height as int,
                    x as int,
                    y as int,
                );
            }
            Some(y as usize * self.width + x as usize)
        } else {
            None
        }
    }

    /// The indices of the cells around cell `cell_index`, row by row.
    pub fn adjacent_cells(&self, cell_index: usize) -> (r: Vec<usize>)
        requires
            self.wf(),
            cell_index < self.num_cells(),
        ensures
            r@ == self.neighbors(cell_index as int),
    {
        proof {
            lemma_board_dims(self);
        }
        let w = self.width;
        let x = cell_index % w;
        let y = cell_index / w;
        proof {
            assert(y * w <= cell_index) by (nonlinear_arith)
                requires
                    y == cell_index / w,
                    w > 0,
            ;
            assert(y < self.height) by (nonlinear_arith)
                requires
                    y == cell_index / w,
                    w > 0,
                    cell_index < w * self.height,
            ;
        }
        let mut r: Vec<usize> = Vec::new();
        let mut k: usize = 0;
        while k < 8
            invariant
                self.wf(),
                w == self.width,
                x == cell_index % w,
                y == cell_index / w,
                x < w,
                y < self.height,
                w <= isize::MAX,
                self.height <= isize::MAX,
                k <= 8,
                r@ == self.neighbors_upto(cell_index as int, k as nat),
            decreases 8 - k,
        {
            let (dx, dy) = offset(k);
            if let Some(j) = self.cell_index(x as isize + dx, y as isize + dy) {
                r.push(j);
            }
            k = k + 1;
        }
        r
    }
}

pub proof fn lemma_index_in_bounds(w: int, h: int, x: int, y: int)
    requires
        0 <= x < w,
        0 <= y < h,
    ensures
        0 <= y * w + x < w * h,
{
    assert(y * w + x < w * h) by (nonlinear_arith)
        requires
            0 <= x < w,
            0 <= y < h,
    ;
    assert(0 <= y * w) by (nonlinear_arith)
        requires
            0 <= x < w,
            0 <= y < h,
    ;
}

pub proof fn lemma_board_dims(b: &Board)
    requires
        b.wf(),
    ensures
        b.width <= b.num_cells(),
        b.height <= b.num_cells(),
{
    assert(b.width <= b.width * b.height && b.height <= b.width * b.height) by (nonlinear_arith)
        requires
            0 < b.width,
            0 < b.height,
    ;
}

/// Neighbours lie on the board, and there are at most `k` of them.
pub proof fn lemma_neighbors_upto(b: &Board, i: int, k: nat)
    requires
        b.wf(),
    ensures
        b.neighbors_upto(i, k).len() <= k,
        forall|j: int|
            0 <= j < b.neighbors_upto(i, k).len() ==> #[trigger] b.neighbors_upto(i, k)[j]
                < b.num_cells(),
    decreases k,
{
    if k > 0 {
        lemma_neighbors_upto(b, i, (k - 1) as nat);
        let nx = i % (b.width as int) + offset_dx(k - 1);
        let ny = i / (b.width as int) + offset_dy(k - 1);
        if b.valid(nx, ny) {
            lemma_index_in_bounds(b.width as int, b.height as int, nx, ny);
        }
    }
}

pub proof fn lemma_neighbors(b: &Board, i: int)
    requires
        b.wf(),
    ensures
        b.neighbors(i).len() <= 8,
        b.neighbor_cells(i).len() == b.neighbors(i).len(),
        forall|j: int| 0 <= j < b.neighbors(i).len() ==> #[trigger] b.neighbors(i)[j] < b.num_cells(),
        forall|j: int|
            0 <= j < b.neighbors(i).len() ==> #[trigger] b.neighbor_cells(i)[j] == b.cells@[b.neighbors(
                i,
            )[j] as int],
{
    lemma_neighbors_upto(b, i, 8);
}

impl SweeperGame {
    /// The structure of a game: the board's shape and the counters that
    /// follow its cells.
    pub open spec fn wf(&self) -> bool {
        &&& self.board.wf()
        &&& self.num_bombs < self.board.num_cells()
        &&& self.num_revealed == count_where(self.board.cells@, revealed_p())
        &&& self.num_flags == count_where(self.board.cells@, flagged_p())
        &&& forall|i: int|
            0 <= i < self.board.num_cells() ==> !(#[trigger] self.board.cells@[i].is_flagged
                && self.board.cells@[i].is_revealed)
    }

    /// The number of cells without a bomb.
    pub open spec fn safe_total(&self) -> int {
        self.board.num_cells() - self.num_bombs
    }

    pub open spec fn is_live(&self) -> bool {
        self.state == GameState::NotRunning || self.state == GameState::Running
    }

    /// Every revealed cell is free of bombs and knows its mine count.
    pub open spec fn revealed_sound(&self) -> bool {
        forall|i: int|
            0 <= i < self.board.num_cells() && #[trigger] self.board.cells@[i].is_revealed ==> {
                &&& !self.board.cells@[i].is_bomb
                &&& self.board.cells@[i].mine_count == self.board.bombs_around(i)
            }
    }

    /// What holds of every game reachable from a new one with its bombs
    /// placed: the bomb counter is exact, a game in play has revealed no
    /// bomb, and the game is won exactly when all safe cells are revealed.
    pub open spec fn inv(&self) -> bool {
        &&& self.wf()
        &&& count_where(self.board.cells@, bomb_p()) == self.num_bombs
        &&& self.num_revealed <= self.safe_total()
        &&& (self.state == GameState::Win <==> self.num_revealed == self.safe_total())
        &&& self.is_live() ==> self.revealed_sound()
    }

    /// The index of the cell at `(x, y)`.
    pub open spec fn spec_index(&self, x: isize, y: isize) -> int {
        self.board.index_of(x as int, y as int)
    }

    /// Cells, revealed counter, state and timer are those of `o`.
    pub open spec fn unchanged_from(&self, o: &SweeperGame) -> bool {
        &&& self.board.cells@ == o.board.cells@
        &&& self.num_revealed == o.num_revealed
        &&& self.state == o.state
        &&& self.total_time == o.total_time
    }

    /// The cells after a flag toggle at `(x, y)`: the flag of a cell in play
    /// that is not revealed flips, anything else stays.
    pub open spec fn flag_cells(&self, x: isize, y: isize) -> Seq<Cell> {
        let i = self.spec_index(x, y);
        if self.state == GameState::Running && self.board.valid(x as int, y as int)
            && !self.board.cells@[i].is_revealed {
            self.board.cells@.update(
                i,
                Cell { is_flagged: !self.board.cells@[i].is_flagged, ..self.board.cells@[i] },
            )
        } else {
            self.board.cells@
        }
    }

    /// The flag counter after a flag toggle at `(x, y)`.
    pub open spec fn flag_count(&self, x: isize, y: isize) -> int {
        let i = self.spec_index(x, y);
        if self.state == GameState::Running && self.board.valid(x as int, y as int)
            && !self.board.cells@[i].is_revealed {
            if self.board.cells@[i].is_flagged {
                self.num_flags - 1
            } else {
                self.num_flags + 1
            }
        } else {
            self.num_flags as int
        }
    }

    /// Where a flood fill from `open(x, y)` starts: the neighbours of a
    /// revealed cell (a chord), else the cell itself.
    pub open spec fn open_seeds(&self, x: isize, y: isize) -> Seq<usize> {
        let i = self.spec_index(x, y);
        if self.board.cells@[i].is_revealed {
            self.board.neighbors(i)
        } else {
            seq![i as usize]
        }
    }

    /// Initialize a new game with no bomb placed.
    pub fn new(width: usize, height: usize, num_bombs: usize) -> (r: Self)
        requires
            0 < width,
            0 < height,
            width * height <= isize::MAX,
            num_bombs < width * height,
        ensures
            r.wf(),
            r.board.width == width,
            r.board.height == height,
            r.num_bombs == num_bombs,
            r.num_revealed == 0,
            r.num_flags == 0,
            r.state == GameState::NotRunning,
            r.start_time.is_none(),
            r.total_time == duration_of_secs(0),
            forall|i: int| 0 <= i < r.board.num_cells() ==> #[trigger] r.board.cells@[i] == (Cell {
                is_bomb: false,
                is_flagged: false,
                is_revealed: false,
                mine_count: 0,
            }),
            num_bombs == 0 ==> r.inv(),
    {
        let n = width * height;
        let blank = Cell { is_bomb: false, is_flagged: false, is_revealed: false, mine_count: 0 };
        let mut cells: Vec<Cell> = Vec::new();
        let mut i: usize = 0;
        while i < n
            invariant
                i <= n,
                cells@.len() == i,
                forall|k: int| 0 <= k < i ==> #[trigger] cells@[k] == blank,
            decreases n - i,
        {
            cells.push(blank);
            i = i + 1;
        }
        proof {
            lemma_count_zero(cells@, revealed_p());
            lemma_count_zero(cells@, flagged_p());
            lemma_count_zero(cells@, bomb_p());
        }
        let board = Board { width, height, cells };
        SweeperGame {
            board,
            num_bombs,
            num_revealed: 0,
            num_flags: 0,
            state: GameState::NotRunning,
            start_time: None,
            total_time: duration_from_secs(0),
        }
    }

    /// A new game, or the reason why its configuration is refused: a board
    /// with an empty side or too many cells, or no safe cell left once all
    /// bombs are placed.
    pub fn try_new(width: usize, height: usize, num_bombs: usize) -> (r: Result<Self, BoardError>)
        ensures
            (width == 0 || height == 0 || width * height > isize::MAX) <==> r == Err::<
                Self,
                BoardError,
            >(BoardError::InvalidSize),
            (0 < width && 0 < height && width * height <= isize::MAX && num_bombs >= width
                * height) <==> r == Err::<Self, BoardError>(BoardError::TooManyBombs),
            r matches Ok(g) ==> {
                &&& g.wf()
                &&& g.board.width == width
                &&& g.board.height == height
                &&& g.num_bombs == num_bombs
                &&& g.num_revealed == 0
                &&& g.num_flags == 0
                &&& g.state == GameState::NotRunning
            },
    {
        if width == 0 || height == 0 || width > isize::MAX as usize / height {
            proof {
                if width > 0 && height > 0 {
                    assert(width * height > isize::MAX) by (nonlinear_arith)
                        requires
                            width > isize::MAX as int / height as int,
                            height > 0,
                    ;
                }
            }
            return Err(BoardError::InvalidSize);
        }
        proof {
            assert(width * height <= isize::MAX) by (nonlinear_arith)
                requires
                    width <= isize::MAX as int / height as int,
                    height > 0,
            ;
        }
        if num_bombs >= width * height {
            return Err(BoardError::TooManyBombs);
        }
        Ok(SweeperGame::new(width, height, num_bombs))
    }

    /// Place the bombs at random, on distinct cells other than the safe
    /// one at `(x, y)`. Refused off the board, and once the game has
    /// started, a cell is revealed or a bomb is placed.
    pub fn generate_board(&mut self, x: isize, y: isize) -> (r: Result<(), BoardError>)
        requires
            old(self).wf(),
        ensures
            final(self).wf(),
            final(self).board.width == old(self).board.width,
            final(self).board.height == old(self).board.height,
            final(self).num_bombs == old(self).num_bombs,
            final(self).num_revealed == old(self).num_revealed,
            final(self).num_flags == old(self).num_flags,
            final(self).state == old(self).state,
            final(self).start_time == old(self).start_time,
            final(self).total_time == old(self).total_time,
            !old(self).board.valid(x as int, y as int) <==> r == Err::<(), BoardError>(
                BoardError::InvalidCoordinate,
            ),
            (old(self).board.valid(x as int, y as int) && (old(self).state != GameState::NotRunning
                || old(self).num_revealed != 0 || count_where(old(self).board.cells@, bomb_p()) != 0))
                <==> r == Err::<(), BoardError>(BoardError::AlreadyPlaced),
            r is Err ==> final(self).board.cells@ == old(self).board.cells@,
            r is Err ==> r == Err::<(), BoardError>(BoardError::InvalidCoordinate) || r == Err::<
                (),
                BoardError,
            >(BoardError::AlreadyPlaced),
            r is Ok ==> {
                &&& final(self).inv()
                &&& !final(self).board.cells@[old(self).spec_index(x, y)].is_bomb
                &&& forall|i: int|
                    0 <= i < final(self).board.num_cells() ==> (#[trigger] final(
                        self).board.cells@[i]) == (Cell {
                        is_bomb: final(self).board.cells@[i].is_bomb,
                        ..old(self).board.cells@[i]
                    })
            },
    {
        let safe = match self.cell_index(x, y) {
            Some(i) => i,
            None => {
                return Err(BoardError::InvalidCoordinate);
            },
        };
        let n = self.board.cells.len();
        let mut any_bomb = false;
        let mut i: usize = 0;
        while i < n
            invariant
                n == self.board.cells@.len(),
                i <= n,
                any_bomb == (count_where(self.board.cells@.take(i as int), bomb_p()) != 0),
            decreases n - i,
        {
            proof {
                lemma_count_take(self.board.cells@, bomb_p(), i as int);
            }
            if self.board.cells[i].is_bomb {
                any_bomb = true;
            }
            i = i + 1;
        }
        proof {
            assert(self.board.cells@.take(n as int) =~= self.board.cells@);
        }
        if !matches!(self.state, GameState::NotRunning) || self.num_revealed != 0 || any_bomb {
            return Err(BoardError::AlreadyPlaced);
        }
        let mut pool: Vec<usize> = Vec::new();
        let mut i: usize = 0;
        while i < n
            invariant
                i <= n,
                safe < n,
                pool@.len() == if safe < i {
                    i - 1
                } else {
                    i as int
                },
                forall|a: int, b: int| 0 <= a < b < pool@.len() ==> pool@[a] < pool@[b],
                forall|a: int| 0 <= a < pool@.len() ==> #[trigger] pool@[a] < i && pool@[a] != safe,
            decreases n - i,
        {
            if i != safe {
                pool.push(i);
            }
            i = i + 1;
        }
        proof {
            assert forall|a: int, b: int| 0 <= a < pool@.len() && 0 <= b < pool@.len() && a != b implies pool@[a] != pool@[b] by {
                if a < b {
                    assert(pool@[a] < pool@[b]);
                } else {
                    assert(pool@[b] < pool@[a]);
                }
            }
            assert(pool@.no_duplicates());
        }
        let mut rng = thread_rng();
        let ghost pool_v = pool@;
        let chosen = choose_multiple(pool, &mut rng, self.num_bombs);
        proof {
            assert forall|k: int| 0 <= k < chosen@.len() implies #[trigger] chosen@[k] < n && chosen@[k] != safe by {
                assert(pool_v.contains(chosen@[k]));
            }
            lemma_count_zero(self.board.cells@, bomb_p());
        }
        let ghost g0 = *self;
        let mut k: usize = 0;
        while k < chosen.len()
            invariant
                self.wf(),
                self.same_frame(&g0),
                self.state == g0.state,
                self.num_revealed == g0.num_revealed,
                *old(self) == g0,
                n == self.board.num_cells(),
                safe < n,
                chosen@.len() == g0.num_bombs,
                chosen@.no_duplicates(),
                forall|m: int| 0 <= m < chosen@.len() ==> #[trigger] chosen@[m] < n && chosen@[m] != safe,
                k <= chosen@.len(),
                count_where(self.board.cells@, bomb_p()) == k,
                forall|m: int| k <= m < chosen@.len() ==> !self.board.cells@[#[trigger] chosen@[m] as int].is_bomb,
                !self.board.cells@[safe as int].is_bomb,
                forall|i: int|
                    0 <= i < n ==> (#[trigger] self.board.cells@[i]) == (Cell {
                        is_bomb: self.board.cells@[i].is_bomb,
                        ..g0.board.cells@[i]
                    }),
            decreases chosen@.len() - k,
        {
            let j = chosen[k];
            let ghost s0 = self.board.cells@;
            let mut c = self.board.cells[j];
            c.is_bomb = true;
            self.board.cells.set(j, c);
            proof {
                lemma_count_update(s0, j as int, c, bomb_p());
                lemma_count_update(s0, j as int, c, revealed_p());
                lemma_count_update(s0, j as int, c, flagged_p());
                assert forall|m: int| k + 1 <= m < chosen@.len() implies !self.board.cells@[#[trigger] chosen@[m] as int].is_bomb by {
                    assert(chosen@[m] != chosen@[k as int]);
                }
            }
            k = k + 1;
        }
        proof {
            lemma_count_zero(self.board.cells@, revealed_p());
        }
        Ok(())
    }

    pub fn get_width(&self) -> (r: usize)
        ensures
            r == self.board.width,
    {
        self.board.width
    }

    pub fn get_height(&self) -> (r: usize)
        ensures
            r == self.board.height,
    {
        self.board.height
    }

    pub fn is_valid_coordinate(&self, x: isize, y: isize) -> (r: bool)
        requires
            self.board.wf(),
        ensures
            r == self.board.valid(x as int, y as int),
    {
        self.board.is_valid_coordinate(x, y)
    }

    /// The index of the cell at `(x, y)`, or `None` off the board.
    pub fn cell_index(&self, x: isize, y: isize) -> (r: Option<usize>)
        requires
            self.board.wf(),
        ensures
            r == if self.board.valid(x as int, y as int) {
                Some(self.board.index_of(x as int, y as int) as usize)
            } else {
                None::<usize>
            },
            r matches Some(i) ==> i < self.board.num_cells(),
            self.board.valid(x as int, y as int) ==> 0 <= self.board.index_of(x as int, y as int)
                < self.board.num_cells(),
    {
        self.board.cell_index(x, y)
    }

    /// The indices of the cells around cell `cell_index`, row by row.
    pub fn adjacent_cells(&self, cell_index: usize) -> (r: Vec<usize>)
        requires
            self.board.wf(),
            cell_index < self.board.num_cells(),
        ensures
            r@ == self.board.neighbors(cell_index as int),
    {
        self.board.adjacent_cells(cell_index)
    }

    /// The fields other than the cells and the revealed counter are those of `o`.
    pub open spec fn same_frame(&self, o: &SweeperGame) -> bool {
        &&& self.board.width == o.board.width
        &&& self.board.height == o.board.height
        &&& self.num_bombs == o.num_bombs
        &&& self.num_flags == o.num_flags
        &&& self.start_time == o.start_time
        &&& self.total_time == o.total_time
    }

    /// Bombs and flags of every cell are those of `o`, and what was revealed
    /// in `o` still is.
    pub open spec fn grows_from(&self, o: &SweeperGame) -> bool {
        &&& self.board.num_cells() == o.board.num_cells()
        &&& forall|i: int|
            0 <= i < self.board.num_cells() ==> {
                &&& (#[trigger] self.board.cells@[i]).is_bomb == o.board.cells@[i].is_bomb
                &&& self.board.cells@[i].is_flagged == o.board.cells@[i].is_flagged
                &&& o.board.cells@[i].is_revealed ==> self.board.cells@[i].is_revealed
            }
    }

    /// How many of the cells listed in `adjacent` (the neighbours of cell
    /// `ci`) hold a bomb, or a flag where `flags` is set.
    fn count_marked(&self, ci: usize, adjacent: &Vec<usize>, flags: bool) -> (r: usize)
        requires
            self.board.wf(),
            ci < self.board.num_cells(),
            adjacent@ == self.board.neighbors(ci as int),
        ensures
            r == if flags {
                self.board.flags_around(ci as int)
            } else {
                self.board.bombs_around(ci as int)
            },
            r <= 8,
    {
        let ghost nc = self.board.neighbor_cells(ci as int);
        let ghost p = if flags {
            flagged_p()
        } else {
            bomb_p()
        };
        proof {
            lemma_neighbors(&self.board, ci as int);
        }
        let mut n: usize = 0;
        let mut k: usize = 0;
        while k < adjacent.len()
            invariant
                self.board.wf(),
                adjacent@ == self.board.neighbors(ci as int),
                nc == self.board.neighbor_cells(ci as int),
                p == if flags {
                    flagged_p()
                } else {
                    bomb_p()
                },
                nc.len() == adjacent@.len(),
                adjacent@.len() <= 8,
                forall|j: int| 0 <= j < adjacent@.len() ==> #[trigger] adjacent@[j] < self.board.num_cells(),
                forall|j: int| 0 <= j < adjacent@.len() ==> #[trigger] nc[j] == self.board.cells@[adjacent@[j] as int],
                k <= adjacent@.len(),
                n == count_where(nc.take(k as int), p),
                n <= k,
            decreases adjacent@.len() - k,
        {
            proof {
                lemma_count_take(nc, p, k as int);
            }
            let c = self.board.cells[adjacent[k]];
            proof {
                assert(nc[k as int] == c);
                assert(p(c) == if flags {
                    c.is_flagged
                } else {
                    c.is_bomb
                });
            }
            if (flags && c.is_flagged) || (!flags && c.is_bomb) {
                n = n + 1;
            }
            k = k + 1;
        }
        proof {
            assert(nc.take(k as int) =~= nc);
        }
        n
    }

    /// Flood fill from the queued cells. Each dequeued cell gets its mine
    /// count; one with no bomb around reveals and enqueues the neighbours
    /// that are neither revealed nor flagged.
    fn reveal_cell_queue(&mut self, cell_q: VecDeque<usize>)
        requires
            old(self).wf(),
            forall|k: int|
                0 <= k < cell_q@.len() ==> #[trigger] cell_q@[k] < old(self).board.num_cells()
                    && old(self).board.cells@[cell_q@[k] as int].is_revealed,
            forall|i: int|
                0 <= i < old(self).board.num_cells() && #[trigger] old(self).board.cells@[i].is_revealed && !old(self).board.cells@[i].is_bomb
                    && !cell_q@.contains(i as usize) ==> old(self).board.cells@[i].mine_count
                    == old(self).board.bombs_around(i),
        ensures
            final(self).wf(),
            final(self).same_frame(old(self)),
            final(self).state == old(self).state,
            final(self).grows_from(old(self)),
            forall|i: int|
                0 <= i < final(self).board.num_cells() && #[trigger] final(self).board.cells@[i].is_revealed && !old(self).board.cells@[i].is_revealed
                    ==> !final(self).board.cells@[i].is_bomb,
            forall|i: int|
                0 <= i < final(self).board.num_cells() && #[trigger] final(self).board.cells@[i].is_revealed && !final(self).board.cells@[i].is_bomb
                    ==> final(self).board.cells@[i].mine_count == final(self).board.bombs_around(i),
            forall|i: int|
                0 <= i < final(self).board.num_cells() && ((#[trigger] final(self).board.cells@[i].is_revealed && !old(self).board.cells@[i].is_revealed)
                    || cell_q@.contains(i as usize)) ==> final(self).board.settled(i),
            reached_from(&final(self).board, &old(self).board, cell_q@),
            forall|i: int|
                0 <= i < final(self).board.num_cells() && !cell_q@.contains(i as usize) && !(
                #[trigger] final(self).board.cells@[i].is_revealed
                    && !old(self).board.cells@[i].is_revealed) ==> final(self).board.cells@[i]
                    == old(self).board.cells@[i],
    {
        let mut cell_q = cell_q;
        let ghost q0 = cell_q@;
        let ghost g0 = *self;
        let ghost n = self.board.num_cells();
        proof {
            lemma_count_le_len(self.board.cells@, revealed_p());
            lemma_pending_start(&self.board, q0);
        }
        let ghost mut trail: Seq<usize> = Seq::empty();
        proof {
            assert(chained(&self.board, &g0.board, q0, trail));
        }
        while cell_q.len() > 0
            invariant
                self.wf(),
                n == self.board.num_cells(),
                self.num_revealed <= n,
                self.same_frame(&g0),
                self.state == g0.state,
                self.grows_from(&g0),
                forall|k: int|
                    0 <= k < cell_q@.len() ==> #[trigger] cell_q@[k] < n
                        && self.board.cells@[cell_q@[k] as int].is_revealed,
                forall|i: int|
                    0 <= i < n && #[trigger] self.board.cells@[i].is_revealed
                        && !g0.board.cells@[i].is_revealed ==> !self.board.cells@[i].is_bomb,
                forall|i: int|
                    0 <= i < n && #[trigger] self.board.cells@[i].is_revealed
                        && !self.board.cells@[i].is_bomb && !cell_q@.contains(i as usize)
                        ==> self.board.cells@[i].mine_count == self.board.bombs_around(i),
                pending_settled(&self.board, &g0.board, q0, cell_q@, -1),
                chained(&self.board, &g0.board, q0, trail),
                forall|k: int|
                    0 <= k < cell_q@.len() ==> q0.contains(#[trigger] cell_q@[k]) || trail.contains(
                        cell_q@[k],
                    ),
                forall|p: int| 0 <= p < trail.len() ==> !g0.board.cells@[#[trigger] trail[p] as int].is_revealed,
                forall|i: int|
                    0 <= i < n && !q0.contains(i as usize) && !(#[trigger] self.board.cells@[i].is_revealed
                        && !g0.board.cells@[i].is_revealed) ==> self.board.cells@[i] == g0.board.cells@[i],
            decreases 2 * (n - self.num_revealed) + cell_q@.len(),
        {
            let ghost m0 = 2 * (n - self.num_revealed) + cell_q@.len();
            let ghost qa = cell_q@;
            let ci = match cell_q.pop_front() {
                Some(v) => v,
                None => {
                    return;
                },
            };
            assert(qa[0] == ci);
            assert forall|i: usize| qa.contains(i) && i != ci implies cell_q@.contains(i) by {
                let k = choose|k: int| 0 <= k < qa.len() && qa[k] == i;
                assert(cell_q@[k - 1] == i);
            }
            let adjacent = self.adjacent_cells(ci);
            let mine_count = self.count_marked(ci, &adjacent, false);
            let ghost b1 = self.board;
            let mut c = self.board.cells[ci];
            c.mine_count = mine_count as u8;
            self.board.cells.set(ci, c);
            proof {
                lemma_count_update(b1.cells@, ci as int, c, revealed_p());
                lemma_count_update(b1.cells@, ci as int, c, flagged_p());
                lemma_around_stable(&b1, &self.board);
                lemma_neighbors(&self.board, ci as int);
                lemma_neighbors_same(&b1, &self.board, ci as int, 8);
                lemma_pending_settled_step(&b1, &self.board, &g0.board, q0, qa, cell_q@, -1, ci as int);
                lemma_chain_step(&b1, &self.board, &g0.board, q0, trail, trail, ci as int, -1);
                assert(q0.contains(qa[0]) || trail.contains(qa[0]));
                if !q0.contains(ci) {
                    let p = choose|p: int| 0 <= p < trail.len() && trail[p] == ci;
                    assert(!g0.board.cells@[trail[p] as int].is_revealed);
                }
                assert forall|i: int|
                    0 <= i < n && !q0.contains(i as usize) && !(#[trigger] self.board.cells@[i].is_revealed
                        && !g0.board.cells@[i].is_revealed) implies self.board.cells@[i]
                        == g0.board.cells@[i] by {
                    assert(b1.cells@[i].is_revealed == self.board.cells@[i].is_revealed);
                }
                assert forall|k: int| 0 <= k < cell_q@.len() implies q0.contains(#[trigger] cell_q@[k])
                    || trail.contains(cell_q@[k]) by {
                    assert(cell_q@[k] == qa[k + 1]);
                }
            }
            if mine_count == 0 {
                proof {
                    let nc = self.board.neighbor_cells(ci as int);
                    lemma_count_zero(nc, bomb_p());
                    assert forall|j: int|
                        0 <= j < adjacent@.len() implies !(#[trigger] self.board.cells@[adjacent@[j] as int]).is_bomb by {
                        assert(nc[j] == self.board.cells@[adjacent@[j] as int]);
                        assert(!bomb_p()(nc[j]));
                    }
                }
                let mut k: usize = 0;
                while k < adjacent.len()
                    invariant
                        self.wf(),
                        n == self.board.num_cells(),
                        self.num_revealed <= n,
                        self.same_frame(&g0),
                        self.state == g0.state,
                        self.grows_from(&g0),
                        ci < n,
                        adjacent@ == self.board.neighbors(ci as int),
                        adjacent@.len() <= 8,
                        forall|j: int| 0 <= j < adjacent@.len() ==> #[trigger] adjacent@[j] < n,
                        forall|j: int|
                            0 <= j < adjacent@.len() ==> !(#[trigger] self.board.cells@[adjacent@[j] as int]).is_bomb,
                        self.board.cells@[ci as int].mine_count == 0,
                        self.board.bombs_around(ci as int) == 0,
                        k <= adjacent@.len(),
                        forall|j: int|
                            0 <= j < k ==> (#[trigger] self.board.cells@[adjacent@[j] as int]).is_revealed
                                || self.board.cells@[adjacent@[j] as int].is_flagged,
                        2 * (n - self.num_revealed) + cell_q@.len() < m0,
                        forall|k: int|
                            0 <= k < cell_q@.len() ==> #[trigger] cell_q@[k] < n
                                && self.board.cells@[cell_q@[k] as int].is_revealed,
                        forall|i: int|
                            0 <= i < n && #[trigger] self.board.cells@[i].is_revealed
                                && !g0.board.cells@[i].is_revealed ==> !self.board.cells@[i].is_bomb,
                        forall|i: int|
                            0 <= i < n && #[trigger] self.board.cells@[i].is_revealed
                                && !self.board.cells@[i].is_bomb && i != ci && !cell_q@.contains(i as usize)
                                ==> self.board.cells@[i].mine_count == self.board.bombs_around(i),
                        pending_settled(&self.board, &g0.board, q0, cell_q@, ci as int),
                        chained(&self.board, &g0.board, q0, trail),
                        forall|k: int|
                            0 <= k < cell_q@.len() ==> q0.contains(#[trigger] cell_q@[k])
                                || trail.contains(cell_q@[k]),
                        q0.contains(ci) || trail.contains(ci),
                        forall|p: int| 0 <= p < trail.len() ==> !g0.board.cells@[#[trigger] trail[p] as int].is_revealed,
                        forall|i: int|
                            0 <= i < n && !q0.contains(i as usize) && !(#[trigger] self.board.cells@[i].is_revealed
                                && !g0.board.cells@[i].is_revealed) ==> self.board.cells@[i] == g0.board.cells@[i],
                    decreases adjacent@.len() - k,
                {
                    let j = adjacent[k];
                    let cj = self.board.cells[j];
                    if !(cj.is_revealed || cj.is_flagged) {
                        let ghost b2 = self.board;
                        let ghost qb = cell_q@;
                        self.set_revealed(j);
                        cell_q.push_back(j);
                        proof {
                            lemma_around_stable(&b2, &self.board);
                            lemma_neighbors_same(&b2, &self.board, ci as int, 8);
                            lemma_count_le_len(self.board.cells@, revealed_p());
                            assert forall|i: usize| qb.contains(i) implies cell_q@.contains(i) by {
                                let k = choose|k: int| 0 <= k < qb.len() && qb[k] == i;
                                assert(cell_q@[k] == i);
                            }
                            assert(cell_q@[cell_q@.len() - 1] == j);
                            lemma_pending_settled_step(
                                &b2,
                                &self.board,
                                &g0.board,
                                q0,
                                qb,
                                cell_q@,
                                ci as int,
                                ci as int,
                            );
                            assert(adjacent@[k as int] == j);
                            assert(b2.neighbors(ci as int).contains(j));
                            let t_old = trail;
                            trail = trail.push(j);
                            lemma_chain_step(
                                &b2,
                                &self.board,
                                &g0.board,
                                q0,
                                t_old,
                                trail,
                                ci as int,
                                j as int,
                            );
                            assert forall|v: usize| t_old.contains(v) implies trail.contains(v) by {
                                let p = choose|p: int| 0 <= p < t_old.len() && t_old[p] == v;
                                assert(trail[p] == v);
                            }
                            assert(trail[trail.len() - 1] == j);
                            assert forall|p: int| 0 <= p < trail.len() implies !g0.board.cells@[#[trigger] trail[p] as int].is_revealed by {
                                if p < t_old.len() {
                                    assert(trail[p] == t_old[p]);
                                }
                            }
                            assert forall|i: int|
                                0 <= i < n && !q0.contains(i as usize) && !(#[trigger] self.board.cells@[i].is_revealed
                                    && !g0.board.cells@[i].is_revealed) implies self.board.cells@[i]
                                    == g0.board.cells@[i] by {
                                assert(b2.cells@[i].is_revealed == self.board.cells@[i].is_revealed || i == j);
                            }
                            assert forall|m: int| 0 <= m < cell_q@.len() implies q0.contains(#[trigger] cell_q@[m])
                                || trail.contains(cell_q@[m]) by {
                                if m < qb.len() {
                                    assert(cell_q@[m] == qb[m]);
                                }
                            }
                        }
                    }
                    k = k + 1;
                }
            }
            proof {
                assert(self.board.settled(ci as int));
                lemma_pending_include(&self.board, &g0.board, q0, cell_q@, ci as int);
            }
        }
        proof {
            lemma_pending_done(&self.board, &g0.board, q0, cell_q@);
            assert(chained(&self.board, &g0.board, q0, trail));
        }
    }

    /// Some cell revealed in `self` but not in `o` holds a bomb.
    pub open spec fn hit_bomb(&self, o: &SweeperGame) -> bool {
        exists|i: int|
            0 <= i < self.board.num_cells() && #[trigger] self.board.cells@[i].is_revealed
                && !o.board.cells@[i].is_revealed && self.board.cells@[i].is_bomb
    }

    /// Every cell revealed in `self` but not in `o` is settled.
    pub open spec fn new_cells_settled(&self, o: &SweeperGame) -> bool {
        forall|i: int|
            0 <= i < self.board.num_cells() && #[trigger] self.board.cells@[i].is_revealed
                && !o.board.cells@[i].is_revealed ==> self.board.settled(i)
    }

    /// Reveal the unrevealed, unflagged cell `ci`: a bomb loses the game,
    /// anything else starts a flood fill there.
    fn reveal_cell(&mut self, ci: usize)
        requires
            old(self).inv(),
            old(self).state == GameState::Running,
            ci < old(self).board.num_cells(),
            !old(self).board.cells@[ci as int].is_revealed,
            !old(self).board.cells@[ci as int].is_flagged,
        ensures
            final(self).wf(),
            final(self).same_frame(old(self)),
            final(self).grows_from(old(self)),
            count_where(final(self).board.cells@, bomb_p()) == final(self).num_bombs,
            final(self).board.cells@[ci as int].is_revealed,
            final(self).state == if old(self).board.cells@[ci as int].is_bomb {
                GameState::Lose
            } else {
                GameState::Running
            },
            final(self).num_revealed <= final(self).safe_total(),
            final(self).state == GameState::Running ==> final(self).revealed_sound(),
            final(self).hit_bomb(old(self)) <==> old(self).board.cells@[ci as int].is_bomb,
            forall|i: int|
                0 <= i < final(self).board.num_cells() && #[trigger] final(
                    self).board.cells@[i].is_revealed && !old(self).board.cells@[i].is_revealed
                    && i != ci ==> !final(self).board.cells@[i].is_bomb,
            !final(self).hit_bomb(old(self)) ==> final(self).new_cells_settled(old(self)),
            !old(self).board.cells@[ci as int].is_bomb ==> reached_from(
                &final(self).board,
                &old(self).board,
                seq![ci],
            ),
            old(self).board.cells@[ci as int].is_bomb ==> final(self).board.cells@ == old(self).board.cells@.update(ci as int, Cell { is_revealed: true, ..old(self).board.cells@[ci as int] })
                && final(self).num_revealed == old(self).num_revealed + 1,
            forall|i: int|
                0 <= i < final(self).board.num_cells() && i != ci && !(#[trigger] final(self).board.cells@[i].is_revealed && !old(self).board.cells@[i].is_revealed) ==> final(self).board.cells@[i] == old(self).board.cells@[i],
    {
        let ghost g0 = *self;
        self.set_revealed(ci);
        let ghost g1 = *self;
        proof {
            lemma_count_same(g0.board.cells@, self.board.cells@, bomb_p());
            lemma_around_stable(&g0.board, &self.board);
        }
        if self.board.cells[ci].is_bomb {
            self.state = GameState::Lose;
            proof {
                assert(self.board.cells@[ci as int].is_revealed);
            }
            return;
        }
        let mut q: VecDeque<usize> = VecDeque::new();
        q.push_back(ci);
        proof {
            assert(q@[0] == ci);
            assert(q@.contains(ci));
        }
        let ghost q1 = q@;
        self.reveal_cell_queue(q);
        proof {
            lemma_count_same(g0.board.cells@, self.board.cells@, bomb_p());
            lemma_revealed_bound(self);
            assert(q1 =~= seq![ci]);
            assert forall|i: int|
                0 <= i < self.board.num_cells() && i != ci && !(#[trigger] self.board.cells@[i].is_revealed
                    && !g0.board.cells@[i].is_revealed) implies self.board.cells@[i] == g0.board.cells@[i] by {
                assert(!q1.contains(i as usize));
                assert(g1.board.cells@[i] == g0.board.cells@[i]);
            }
            lemma_reached_rebase(&self.board, &g1.board, &g0.board, seq![ci]);
        }
    }

    /// Chord reveal on the revealed cell `ci`: where as many neighbours are
    /// flagged as the cell counts bombs, reveal the unflagged neighbours in
    /// order, losing at the first bomb, else flood fill from them.
    fn reveal_adjacent_cells(&mut self, ci: usize)
        requires
            old(self).inv(),
            old(self).state == GameState::Running,
            ci < old(self).board.num_cells(),
            old(self).board.cells@[ci as int].is_revealed,
        ensures
            final(self).wf(),
            final(self).same_frame(old(self)),
            final(self).grows_from(old(self)),
            count_where(final(self).board.cells@, bomb_p()) == final(self).num_bombs,
            old(self).board.flags_around(ci as int) != old(self).board.cells@[ci as int].mine_count
                ==> final(self).board.cells@ == old(self).board.cells@ && final(self).num_revealed
                == old(self).num_revealed && final(self).state == old(self).state,
            final(self).state == GameState::Running || final(self).state == GameState::Lose,
            final(self).num_revealed <= final(self).safe_total(),
            final(self).state == GameState::Running ==> final(self).revealed_sound(),
            final(self).hit_bomb(old(self)) <==> final(self).state == GameState::Lose,
            forall|i: int|
                0 <= i < final(self).board.num_cells() && #[trigger] final(
                    self).board.cells@[i].is_revealed && !old(self).board.cells@[i].is_revealed
                    && final(self).board.cells@[i].is_bomb ==> old(self).board.neighbors(
                    ci as int,
                ).contains(i as usize),
            final(self).state != GameState::Lose && old(self).board.flags_around(ci as int)
                == old(self).board.cells@[ci as int].mine_count ==> forall|k: int|
                0 <= k < old(self).board.neighbors(ci as int).len() ==> {
                    ||| (#[trigger] final(self).board.cells@[old(self).board.neighbors(
                        ci as int,
                    )[k] as int]).is_revealed
                    ||| final(self).board.cells@[old(self).board.neighbors(ci as int)[k] as int].is_flagged
                },
            !final(self).hit_bomb(old(self)) ==> final(self).new_cells_settled(old(self)),
            final(self).state != GameState::Lose ==> reached_from(
                &final(self).board,
                &old(self).board,
                old(self).board.neighbors(ci as int),
            ),
            final(self).state == GameState::Lose ==> exists|kb: int|
                0 <= kb < old(self).board.neighbors(ci as int).len() && #[trigger] chord_stop(
                    &old(self).board,
                    &final(self).board,
                    ci as int,
                    kb,
                ),
            forall|i: int|
                0 <= i < final(self).board.num_cells() && !old(self).board.neighbors(ci as int).contains(
                    i as usize,
                ) && !(#[trigger] final(self).board.cells@[i].is_revealed
                    && !old(self).board.cells@[i].is_revealed) ==> final(self).board.cells@[i]
                    == old(self).board.cells@[i],
    {
        let ghost g0 = *self;
        proof {
            lemma_reached_start(&self.board, self.board.neighbors(ci as int));
        }
        let adjacent = self.adjacent_cells(ci);
        let flag_count = self.count_marked(ci, &adjacent, true);
        if flag_count != self.board.cells[ci].mine_count as usize {
            return;
        }
        proof {
            lemma_neighbors(&self.board, ci as int);
        }
        let ghost nb = adjacent@;
        let ghost mut pos: Seq<int> = Seq::empty();
        let mut cell_q: VecDeque<usize> = VecDeque::new();
        let mut k: usize = 0;
        while k < adjacent.len()
            invariant
                *self == g0,
                self.wf(),
                adjacent@ == nb,
                nb == self.board.neighbors(ci as int),
                forall|j: int| 0 <= j < nb.len() ==> #[trigger] nb[j] < self.board.num_cells(),
                k <= nb.len(),
                forall|m: int|
                    0 <= m < cell_q@.len() ==> nb.contains(#[trigger] cell_q@[m])
                        && !self.board.cells@[cell_q@[m] as int].is_flagged,
                forall|j: int|
                    0 <= j < k && !(#[trigger] self.board.cells@[nb[j] as int]).is_flagged
                        ==> cell_q@.contains(nb[j]),
                pos.len() == cell_q@.len(),
                forall|q: int| 0 <= q < pos.len() ==> 0 <= #[trigger] pos[q] < k && cell_q@[q] == nb[pos[q]],
                forall|q1: int, q2: int| 0 <= q1 < q2 < pos.len() ==> pos[q1] < pos[q2],
                forall|j: int|
                    0 <= j < k && !(#[trigger] self.board.cells@[nb[j] as int]).is_flagged
                        ==> pos.contains(j),
            decreases nb.len() - k,
        {
            let j = adjacent[k];
            if !self.board.cells[j].is_flagged {
                let ghost qb = cell_q@;
                let ghost pb = pos;
                cell_q.push_back(j);
                proof {
                    pos = pos.push(k as int);
                    assert(pos[pos.len() - 1] == k);
                    assert forall|v: int| pb.contains(v) implies pos.contains(v) by {
                        let q = choose|q: int| 0 <= q < pb.len() && pb[q] == v;
                        assert(pos[q] == v);
                    }
                    assert(cell_q@[cell_q@.len() - 1] == j);
                    assert forall|i: usize| qb.contains(i) implies cell_q@.contains(i) by {
                        let m = choose|m: int| 0 <= m < qb.len() && qb[m] == i;
                        assert(cell_q@[m] == i);
                    }
                    assert(nb[k as int] == j);
                }
            }
            k = k + 1;
        }
        let mut m: usize = 0;
        while m < cell_q.len()
            invariant
                self.wf(),
                self.same_frame(&g0),
                self.grows_from(&g0),
                self.state == GameState::Running,
                *old(self) == g0,
                g0.inv(),
                g0.state == GameState::Running,
                ci < g0.board.num_cells(),
                g0.board.cells@[ci as int].is_revealed,
                g0.board.flags_around(ci as int) == g0.board.cells@[ci as int].mine_count,
                nb == g0.board.neighbors(ci as int),
                forall|j: int| 0 <= j < nb.len() ==> #[trigger] nb[j] < g0.board.num_cells(),
                m <= cell_q@.len(),
                forall|q: int|
                    0 <= q < cell_q@.len() ==> nb.contains(#[trigger] cell_q@[q])
                        && !g0.board.cells@[cell_q@[q] as int].is_flagged,
                forall|j: int|
                    0 <= j < nb.len() && !(#[trigger] g0.board.cells@[nb[j] as int]).is_flagged
                        ==> cell_q@.contains(nb[j]),
                forall|q: int| 0 <= q < m ==> (#[trigger] self.board.cells@[cell_q@[q] as int]).is_revealed,
                forall|i: int|
                    0 <= i < self.board.num_cells() && #[trigger] self.board.cells@[i].is_revealed
                        ==> !self.board.cells@[i].is_bomb,
                forall|i: int|
                    0 <= i < self.board.num_cells() && #[trigger] self.board.cells@[i].is_revealed
                        && !g0.board.cells@[i].is_revealed ==> cell_q@.contains(i as usize),
                forall|i: int|
                    0 <= i < self.board.num_cells() && !(#[trigger] self.board.cells@[i].is_revealed
                        && !g0.board.cells@[i].is_revealed) ==> self.board.cells@[i] == g0.board.cells@[i],
                pos.len() == cell_q@.len(),
                forall|q: int| 0 <= q < pos.len() ==> 0 <= #[trigger] pos[q] < nb.len() && cell_q@[q] == nb[pos[q]],
                forall|q1: int, q2: int| 0 <= q1 < q2 < pos.len() ==> pos[q1] < pos[q2],
                forall|j: int|
                    0 <= j < nb.len() && !(#[trigger] g0.board.cells@[nb[j] as int]).is_flagged
                        ==> pos.contains(j),
                forall|i: int|
                    0 <= i < self.board.num_cells() ==> #[trigger] self.board.cells@[i] == g0.board.cells@[i]
                        || (self.board.cells@[i] == (Cell { is_revealed: true, ..g0.board.cells@[i] })
                        && exists|q: int| 0 <= q < m && cell_q@[q] == i),
            decreases cell_q@.len() - m,
        {
            let i = cell_q[m];
            let ghost g1 = *self;
            proof {
                assert(nb.contains(i));
            }
            self.set_revealed(i);
            if self.board.cells[i].is_bomb {
                proof {
                    let nc = g0.board.neighbor_cells(ci as int);
                    lemma_neighbors(&g0.board, ci as int);
                    let kb = choose|kb: int| 0 <= kb < nb.len() && nb[kb] == i;
                    assert(nc[kb] == g0.board.cells@[i as int]);
                    assert(bomb_p()(nc[kb]) && !flagged_p()(nc[kb]));
                    if forall|kf: int| 0 <= kf < nc.len() && flagged_p()(#[trigger] nc[kf]) ==> bomb_p()(nc[kf]) {
                        lemma_count_mono(nc, flagged_p(), bomb_p());
                        assert(false);
                    }
                    let kf = choose|kf: int| 0 <= kf < nc.len() && flagged_p()(#[trigger] nc[kf]) && !bomb_p()(nc[kf]);
                    let f = nb[kf] as int;
                    assert(nc[kf] == g0.board.cells@[f]);
                    assert(!g1.board.cells@[f].is_revealed && !g1.board.cells@[f].is_bomb);
                    lemma_count_same(g0.board.cells@, g1.board.cells@, bomb_p());
                    lemma_count_same(g0.board.cells@, self.board.cells@, bomb_p());
                    lemma_revealed_bound(&g1);
                    assert(self.board.cells@[i as int].is_revealed);
                    assert(!g0.board.cells@[i as int].is_revealed);
                    let kb = pos[m as int];
                    assert forall|mm: int|
                        0 <= mm < kb && !(#[trigger] g0.board.cells@[nb[mm] as int]).is_flagged
                            implies !g0.board.cells@[nb[mm] as int].is_bomb
                            && self.board.cells@[nb[mm] as int].is_revealed by {
                        assert(pos.contains(mm));
                        let q = choose|q: int| 0 <= q < pos.len() && pos[q] == mm;
                        if q >= m {
                            assert(pos[m as int] <= pos[q]);
                        }
                        assert(g1.board.cells@[cell_q@[q] as int].is_revealed);
                    }
                    assert forall|ii: int| 0 <= ii < self.board.num_cells() implies #[trigger] self.board.cells@[ii]
                        == g0.board.cells@[ii] || (self.board.cells@[ii] == (Cell {
                        is_revealed: true,
                        ..g0.board.cells@[ii]
                    }) && exists|mm: int| 0 <= mm <= kb && nb[mm] == ii) by {
                        if ii != i && g1.board.cells@[ii] != g0.board.cells@[ii] {
                            let q = choose|q: int| 0 <= q < m && cell_q@[q] == ii;
                            assert(pos[q] < pos[m as int]);
                            assert(nb[pos[q]] == ii);
                        }
                        if ii == i {
                            assert(nb[kb] == ii);
                        }
                    }
                    assert(chord_stop(&g0.board, &self.board, ci as int, kb));
                }
                self.state = GameState::Lose;
                return;
            }
            proof {
                lemma_count_same(g0.board.cells@, self.board.cells@, bomb_p());
                assert forall|ii: int| 0 <= ii < self.board.num_cells() implies #[trigger] self.board.cells@[ii]
                    == g0.board.cells@[ii] || (self.board.cells@[ii] == (Cell {
                    is_revealed: true,
                    ..g0.board.cells@[ii]
                }) && exists|q: int| 0 <= q < m + 1 && cell_q@[q] == ii) by {
                    if ii != i && g1.board.cells@[ii] != g0.board.cells@[ii] {
                        let q = choose|q: int| 0 <= q < m && cell_q@[q] == ii;
                    }
                    if ii == i {
                        assert(cell_q@[m as int] == ii);
                    }
                }
            }
            m = m + 1;
        }
        proof {
            lemma_around_stable(&g0.board, &self.board);
            lemma_neighbors_same(&g0.board, &self.board, ci as int, 8);
            assert forall|i: int|
                0 <= i < self.board.num_cells() && #[trigger] self.board.cells@[i].is_revealed
                    && !self.board.cells@[i].is_bomb && !cell_q@.contains(i as usize)
                    implies self.board.cells@[i].mine_count == self.board.bombs_around(i) by {
                assert(g0.board.cells@[i].is_revealed);
            }
        }
        let ghost qf = cell_q@;
        let ghost gm = *self;
        self.reveal_cell_queue(cell_q);
        proof {
            lemma_reached_rebase(&self.board, &gm.board, &g0.board, qf);
            assert forall|v: usize| #[trigger] qf.contains(v) implies nb.contains(v) by {
                let q = choose|q: int| 0 <= q < qf.len() && qf[q] == v;
            }
            lemma_reached_seeds_mono(&self.board, &g0.board, qf, nb);
            assert forall|i: int|
                0 <= i < self.board.num_cells() && !nb.contains(i as usize) && !(
                #[trigger] self.board.cells@[i].is_revealed && !g0.board.cells@[i].is_revealed)
                    implies self.board.cells@[i] == g0.board.cells@[i] by {
                assert(!qf.contains(i as usize));
                assert(gm.board.cells@[i].is_revealed ==> self.board.cells@[i].is_revealed);
                if gm.board.cells@[i].is_revealed && !g0.board.cells@[i].is_revealed {
                    assert(qf.contains(i as usize));
                }
            }
        }
        proof {
            lemma_count_same(g0.board.cells@, self.board.cells@, bomb_p());
            lemma_revealed_bound(self);
            assert forall|k: int| 0 <= k < nb.len() implies {
                ||| (#[trigger] self.board.cells@[nb[k] as int]).is_revealed
                ||| self.board.cells@[nb[k] as int].is_flagged
            } by {
                if !g0.board.cells@[nb[k] as int].is_flagged {
                    assert(qf.contains(nb[k]));
                    let q = choose|q: int| 0 <= q < qf.len() && qf[q] == nb[k];
                }
            }
        }
    }

    /// Unveil the cell at `(x, y)` while the game is in play: a hidden,
    /// unflagged cell is revealed (flood filling from it when it is safe), a
    /// revealed one gets a chord reveal. The game is won once every safe
    /// cell is revealed. Returns the resulting state.
    pub fn open(&mut self, x: isize, y: isize) -> (r: GameState)
        requires
            old(self).wf(),
            old(self).state != GameState::NotRunning ==> old(self).inv(),
        ensures
            final(self).wf(),
            old(self).inv() ==> final(self).inv(),
            r == final(self).state,
            final(self).state == old(self).state || final(self).state == GameState::Win
                || final(self).state == GameState::Lose,
            final(self).board.width == old(self).board.width,
            final(self).board.height == old(self).board.height,
            final(self).num_bombs == old(self).num_bombs,
            final(self).num_flags == old(self).num_flags,
            final(self).start_time == old(self).start_time,
            final(self).state == old(self).state ==> final(self).total_time == old(self).total_time,
            final(self).grows_from(old(self)),
            ({
                let i = old(self).spec_index(x, y);
                &&& old(self).state != GameState::Running || !old(self).board.valid(x as int, y as int)
                    || (!old(self).board.cells@[i].is_revealed && old(self).board.cells@[i].is_flagged)
                    ==> final(self).unchanged_from(old(self))
                &&& old(self).state == GameState::Running && old(self).board.valid(x as int, y as int)
                    && !old(self).board.cells@[i].is_flagged ==> final(self).board.cells@[i].is_revealed
                &&& old(self).state == GameState::Running && old(self).board.valid(x as int, y as int)
                    && old(self).board.cells@[i].is_revealed && old(self).board.flags_around(i)
                    != old(self).board.cells@[i].mine_count ==> final(self).unchanged_from(old(self))
                &&& forall|j: int|
                    0 <= j < final(self).board.num_cells() && #[trigger] final(
                        self).board.cells@[j].is_revealed && !old(self).board.cells@[j].is_revealed
                        && final(self).board.cells@[j].is_bomb ==> j == i || (
                    old(self).board.cells@[i].is_revealed && old(self).board.neighbors(i).contains(
                        j as usize,
                    ))
            }),
            old(self).state == GameState::Running ==> (final(self).state == GameState::Lose <==> (
            final(self).hit_bomb(old(self)) && final(self).num_revealed < final(self).safe_total())),
            !final(self).hit_bomb(old(self)) ==> final(self).new_cells_settled(old(self)),
            !final(self).hit_bomb(old(self)) ==> reached_from(
                &final(self).board,
                &old(self).board,
                old(self).open_seeds(x, y),
            ),
            forall|j: int|
                0 <= j < final(self).board.num_cells() && !old(self).open_seeds(x, y).contains(
                    j as usize,
                ) && !(#[trigger] final(self).board.cells@[j].is_revealed
                    && !old(self).board.cells@[j].is_revealed) ==> final(self).board.cells@[j]
                    == old(self).board.cells@[j],
            ({
                let i = old(self).spec_index(x, y);
                &&& old(self).state == GameState::Running && old(self).board.valid(x as int, y as int)
                    && !old(self).board.cells@[i].is_revealed && !old(self).board.cells@[i].is_flagged
                    && old(self).board.cells@[i].is_bomb ==> final(self).board.cells@
                    == old(self).board.cells@.update(
                    i,
                    Cell { is_revealed: true, ..old(self).board.cells@[i] },
                ) && final(self).num_revealed == old(self).num_revealed + 1
                &&& old(self).state == GameState::Running && old(self).board.valid(x as int, y as int)
                    && old(self).board.cells@[i].is_revealed && old(self).board.flags_around(i)
                    == old(self).board.cells@[i].mine_count && final(self).hit_bomb(old(self))
                    ==> exists|kb: int|
                    0 <= kb < old(self).board.neighbors(i).len() && #[trigger] chord_stop(
                        &old(self).board,
                        &final(self).board,
                        i,
                        kb,
                    )
                &&& old(self).state == GameState::Running && old(self).board.valid(x as int, y as int)
                    && old(self).board.cells@[i].is_revealed && old(self).board.flags_around(i)
                    == old(self).board.cells@[i].mine_count ==> final(self).hit_bomb(old(self))
                    || forall|k: int|
                    0 <= k < old(self).board.neighbors(i).len() ==> {
                        ||| (#[trigger] final(self).board.cells@[old(self).board.neighbors(i)[k] as int]).is_revealed
                        ||| final(self).board.cells@[old(self).board.neighbors(i)[k] as int].is_flagged
                    }
            }),
    {
        proof {
            lemma_reached_start(&self.board, self.open_seeds(x, y));
        }
        if !matches!(self.state, GameState::Running) {
            return self.state;
        }
        if let Some(ci) = self.cell_index(x, y) {
            let cell = self.board.cells[ci];
            if cell.is_revealed {
                self.reveal_adjacent_cells(ci);
            } else if !cell.is_flagged {
                self.reveal_cell(ci);
            }
        }
        if self.num_revealed >= self.board.width * self.board.height - self.num_bombs {
            self.state = GameState::Win;
        }
        if !matches!(self.state, GameState::Running) {
            self.end_game();
        }
        self.state
    }

    /// Toggle the flag on the cell at `(x, y)` while the game is in play;
    /// revealed cells and coordinates off the board are left alone.
    pub fn flag(&mut self, x: isize, y: isize)
        requires
            old(self).wf(),
        ensures
            final(self).wf(),
            old(self).inv() ==> final(self).inv(),
            final(self).board.cells@ == old(self).flag_cells(x, y),
            final(self).num_flags == old(self).flag_count(x, y),
            final(self).board.width == old(self).board.width,
            final(self).board.height == old(self).board.height,
            final(self).num_bombs == old(self).num_bombs,
            final(self).num_revealed == old(self).num_revealed,
            final(self).state == old(self).state,
            final(self).start_time == old(self).start_time,
            final(self).total_time == old(self).total_time,
    {
        if !matches!(self.state, GameState::Running) {
            return;
        }
        if let Some(ci) = self.cell_index(x, y) {
            let mut cell = self.board.cells[ci];
            if !cell.is_revealed {
                let ghost g0 = *self;
                cell.is_flagged = !cell.is_flagged;
                self.board.cells.set(ci, cell);
                proof {
                    lemma_count_update(g0.board.cells@, ci as int, cell, revealed_p());
                    lemma_count_update(g0.board.cells@, ci as int, cell, flagged_p());
                    lemma_count_update(g0.board.cells@, ci as int, cell, bomb_p());
                    lemma_count_le_len(g0.board.cells@, flagged_p());
                    lemma_around_stable(&g0.board, &self.board);
                }
                if cell.is_flagged {
                    self.num_flags = self.num_flags + 1;
                } else {
                    self.num_flags = self.num_flags - 1;
                }
            }
        }
    }

    /// Start play and the timer; only a game that has not started does so.
    pub fn start(&mut self)
        ensures
            final(self).board == old(self).board,
            final(self).num_bombs == old(self).num_bombs,
            final(self).num_revealed == old(self).num_revealed,
            final(self).num_flags == old(self).num_flags,
            final(self).total_time == old(self).total_time,
            old(self).state == GameState::NotRunning ==> final(self).state == GameState::Running
                && final(self).start_time.is_some(),
            old(self).state != GameState::NotRunning ==> final(self).state == old(self).state
                && final(self).start_time == old(self).start_time,
            old(self).inv() ==> final(self).inv(),
    {
        if matches!(self.state, GameState::NotRunning) {
            self.state = GameState::Running;
            self.start_time = Some(instant_now());
        }
    }

    /// Give up a game that is not over: it is lost at once and its timer
    /// stops.
    pub fn resign(&mut self)
        ensures
            final(self).board == old(self).board,
            final(self).num_bombs == old(self).num_bombs,
            final(self).num_revealed == old(self).num_revealed,
            final(self).num_flags == old(self).num_flags,
            final(self).start_time == old(self).start_time,
            final(self).state == if old(self).is_live() {
                GameState::Lose
            } else {
                old(self).state
            },
            final(self).state == old(self).state ==> final(self).total_time == old(self).total_time,
            old(self).inv() ==> final(self).inv(),
    {
        if matches!(self.state, GameState::Running | GameState::NotRunning) {
            self.state = GameState::Lose;
            self.end_game();
        }
    }

    /// The time played: the running timer while in play, the time at which
    /// the game ended once it has, zero before it starts.
    pub fn get_elapsed_time(&self) -> (r: Duration)
        ensures
            (self.state == GameState::Win || self.state == GameState::Lose) ==> r == self.total_time,
            self.state == GameState::NotRunning ==> r == duration_of_secs(0),
            self.state == GameState::Running && self.start_time.is_none() ==> r == duration_of_secs(
                0,
            ),
    {
        match self.state {
            GameState::Running => match &self.start_time {
                Some(start_time) => elapsed_since(start_time),
                None => duration_from_secs(0),
            },
            GameState::Win | GameState::Lose => self.total_time,
            GameState::NotRunning => duration_from_secs(0),
        }
    }

    /// The cell at `(x, y)`, or `None` off the board.
    pub fn get_cell(&self, x: isize, y: isize) -> (r: Option<&Cell>)
        requires
            self.board.wf(),
        ensures
            match r {
                Some(c) => self.board.valid(x as int, y as int) && *c == self.board.cells@[self.spec_index(x, y)],
                None => !self.board.valid(x as int, y as int),
            },
    {
        match self.cell_index(x, y) {
            Some(i) => Some(&self.board.cells[i]),
            None => None,
        }
    }

    /// The rows of the board, top to bottom, each a copy of its cells.
    pub fn cell_row_iter(&self) -> (r: Vec<Vec<Cell>>)
        requires
            self.board.wf(),
        ensures
            r@.len() == self.board.height,
            forall|y: int|
                0 <= y < self.board.height ==> (#[trigger] r@[y])@ == self.board.cells@.subrange(
                    y * self.board.width,
                    (y + 1) * self.board.width,
                ),
    {
        let w = self.board.width;
        let h = self.board.height;
        let mut rows: Vec<Vec<Cell>> = Vec::new();
        let mut y: usize = 0;
        while y < h
            invariant
                self.board.wf(),
                w == self.board.width,
                h == self.board.height,
                y <= h,
                rows@.len() == y,
                forall|r: int|
                    0 <= r < y ==> (#[trigger] rows@[r])@ == self.board.cells@.subrange(r * w, (r + 1) * w),
            decreases h - y,
        {
            proof {
                assert((y + 1) * w <= w * h) by (nonlinear_arith)
                    requires
                        y < h,
                ;
                assert((y + 1) * w == y * w + w) by (nonlinear_arith);
            }
            let start = y * w;
            let mut row: Vec<Cell> = Vec::new();
            let mut x: usize = 0;
            while x < w
                invariant
                    self.board.wf(),
                    w == self.board.width,
                    start == y * w,
                    start + w <= self.board.num_cells(),
                    x <= w,
                    row@ == self.board.cells@.subrange(start as int, start + x),
                decreases w - x,
            {
                row.push(self.board.cells[start + x]);
                x = x + 1;
                proof {
                    assert(row@ =~= self.board.cells@.subrange(start as int, start + x));
                }
            }
            rows.push(row);
            y = y + 1;
        }
        rows
    }

    /// Fix the total time from the running timer, where it was started.
    fn end_game(&mut self)
        ensures
            final(self).board == old(self).board,
            final(self).num_bombs == old(self).num_bombs,
            final(self).num_revealed == old(self).num_revealed,
            final(self).num_flags == old(self).num_flags,
            final(self).state == old(self).state,
            final(self).start_time == old(self).start_time,
            old(self).start_time.is_none() ==> final(self).total_time == old(self).total_time,
    {
        if let Some(start_time) = &self.start_time {
            self.total_time = elapsed_since(start_time);
        }
    }

    /// Mark cell `i` revealed, counting it if it was not.
    fn set_revealed(&mut self, i: usize)
        requires
            old(self).wf(),
            i < old(self).board.num_cells(),
            !old(self).board.cells@[i as int].is_flagged,
        ensures
            final(self).wf(),
            final(self).same_frame(old(self)),
            final(self).state == old(self).state,
            final(self).board.cells@ == if old(self).board.cells@[i as int].is_revealed {
                old(self).board.cells@
            } else {
                old(self).board.cells@.update(
                    i as int,
                    Cell { is_revealed: true, ..old(self).board.cells@[i as int] },
                )
            },
            final(self).num_revealed == old(self).num_revealed + if old(self).board.cells@[i as int].is_revealed {
                0int
            } else {
                1int
            },
    {
        if self.board.cells[i].is_revealed {
            return;
        }
        let ghost s0 = self.board.cells@;
        let mut c = self.board.cells[i];
        c.is_revealed = true;
        self.board.cells.set(i, c);
        proof {
            lemma_count_update(s0, i as int, c, revealed_p());
            lemma_count_update(s0, i as int, c, flagged_p());
            lemma_count_le_len(s0, revealed_p());
        }
        self.num_revealed = self.num_revealed + 1;
    }
}

pub proof fn lemma_neighbors_same(a: &Board, b: &Board, i: int, k: nat)
    requires
        a.width == b.width,
        a.height == b.height,
    ensures
        a.neighbors_upto(i, k) == b.neighbors_upto(i, k),
    decreases k,
{
    if k > 0 {
        lemma_neighbors_same(a, b, i, (k - 1) as nat);
    }
}

/// Where every revealed cell is safe, the revealed count is at most the
/// number of safe cells, and below it where a safe cell is still hidden.
pub proof fn lemma_revealed_bound(g: &SweeperGame)
    requires
        g.wf(),
        forall|i: int|
            0 <= i < g.board.num_cells() && #[trigger] g.board.cells@[i].is_revealed
                ==> !g.board.cells@[i].is_bomb,
    ensures
        g.num_revealed <= g.board.num_cells() - count_where(g.board.cells@, bomb_p()),
        (exists|i: int|
            0 <= i < g.board.num_cells() && !(#[trigger] g.board.cells@[i]).is_revealed
                && !g.board.cells@[i].is_bomb) ==> g.num_revealed < g.board.num_cells()
            - count_where(g.board.cells@, bomb_p()),
{
    let s = g.board.cells@;
    lemma_count_split(s, bomb_p(), safe_p());
    assert forall|k: int| 0 <= k < s.len() && revealed_p()(#[trigger] s[k]) implies safe_p()(s[k]) by {}
    if exists|i: int| 0 <= i < s.len() && !(#[trigger] s[i]).is_revealed && !s[i].is_bomb {
        let i = choose|i: int| 0 <= i < s.len() && !(#[trigger] s[i]).is_revealed && !s[i].is_bomb;
        assert(safe_p()(s[i]) && !revealed_p()(s[i]));
    }
    lemma_count_mono(s, revealed_p(), safe_p());
}

/// A settled cell stays settled while bombs, flags and its own mine count
/// stay and revealed cells stay revealed.
pub proof fn lemma_settled_stable(a: &Board, b: &Board, i: int)
    requires
        a.wf(),
        a.width == b.width,
        a.height == b.height,
        a.cells@.len() == b.cells@.len(),
        0 <= i < a.cells@.len(),
        a.cells@[i].mine_count == b.cells@[i].mine_count,
        forall|k: int|
            0 <= k < a.cells@.len() ==> {
                &&& (#[trigger] a.cells@[k]).is_bomb == b.cells@[k].is_bomb
                &&& a.cells@[k].is_flagged == b.cells@[k].is_flagged
                &&& a.cells@[k].is_revealed ==> b.cells@[k].is_revealed
            },
        a.settled(i),
    ensures
        b.settled(i),
{
    lemma_around_stable(a, b);
    lemma_neighbors_same(a, b, i, 8);
    lemma_neighbors(a, i);
    if b.cells@[i].mine_count == 0 {
        assert forall|k: int| 0 <= k < b.neighbors(i).len() implies {
            ||| (#[trigger] b.cells@[b.neighbors(i)[k] as int]).is_revealed
            ||| b.cells@[b.neighbors(i)[k] as int].is_flagged
        } by {
            let j = a.neighbors(i)[k] as int;
            assert(a.cells@[j].is_revealed || a.cells@[j].is_flagged);
        }
    }
}

/// A chord on cell `ci` of `o` that ends at its `kb`-th neighbour: that one
/// holds a bomb and no flag; the unflagged neighbours before it are safe and
/// now revealed; every cell of `f` is that of `o`, or that of `o` revealed
/// where it is one of the neighbours up to the `kb`-th.
pub open spec fn chord_stop(o: &Board, f: &Board, ci: int, kb: int) -> bool {
    let nb = o.neighbors(ci);
    &&& o.cells@[nb[kb] as int].is_bomb
    &&& !o.cells@[nb[kb] as int].is_flagged
    &&& f.cells@[nb[kb] as int].is_revealed
    &&& forall|m: int|
        0 <= m < kb && !(#[trigger] o.cells@[nb[m] as int]).is_flagged ==> !o.cells@[nb[m] as int].is_bomb
            && f.cells@[nb[m] as int].is_revealed
    &&& forall|i: int|
        0 <= i < o.cells@.len() ==> #[trigger] f.cells@[i] == o.cells@[i] || (f.cells@[i] == (Cell {
            is_revealed: true,
            ..o.cells@[i]
        }) && exists|m: int| 0 <= m <= kb && nb[m] == i)
}

/// Cell `t[p]` lies next to a cell with no bomb around that is one of the
/// seeds or comes before it in `t`.
pub open spec fn parent_in(b: &Board, seeds: Seq<usize>, t: Seq<usize>, p: int) -> bool {
    exists|c: int|
        0 <= c < b.cells@.len() && (seeds.contains(c as usize) || t.take(p).contains(c as usize))
            && #[trigger] b.bombs_around(c) == 0 && b.neighbors(c).contains(t[p])
}

/// `t` lists revealed cells, each next to a cell with no bomb around that is
/// a seed or listed before it, and it lists every cell revealed since `g0`
/// that is not a seed. So each such cell is linked to a seed by a path of
/// revealed cells with no bomb around.
pub open spec fn chained(b: &Board, g0: &Board, seeds: Seq<usize>, t: Seq<usize>) -> bool {
    &&& forall|p: int| 0 <= p < t.len() ==> #[trigger] chain_link(b, seeds, t, p)
    &&& forall|j: int| 0 <= j < b.cells@.len() ==> #[trigger] listed(b, g0, seeds, t, j)
}

/// Entry `p` of `t` is a revealed cell with a parent in the seeds or
/// before it in `t`.
pub open spec fn chain_link(b: &Board, seeds: Seq<usize>, t: Seq<usize>, p: int) -> bool {
    &&& t[p] < b.cells@.len()
    &&& b.cells@[t[p] as int].is_revealed
    &&& parent_in(b, seeds, t, p)
}

/// Cell `j`, where revealed since `g0` and not a seed, is listed in `t`.
pub open spec fn listed(b: &Board, g0: &Board, seeds: Seq<usize>, t: Seq<usize>, j: int) -> bool {
    b.cells@[j].is_revealed && !g0.cells@[j].is_revealed && !seeds.contains(j as usize)
        ==> t.contains(j as usize)
}

/// Every cell revealed since `g0` is a seed or is reached from the seeds by
/// a path of revealed cells with no bomb around: a flood fill from the seeds
/// reveals nothing beyond that.
pub open spec fn reached_from(b: &Board, g0: &Board, seeds: Seq<usize>) -> bool {
    exists|t: Seq<usize>| chained(b, g0, seeds, t)
}

proof fn lemma_reached_start(b: &Board, seeds: Seq<usize>)
    ensures
        reached_from(b, b, seeds),
{
    assert(chained(b, b, seeds, Seq::<usize>::empty()));
}

/// One step that reveals at most cell `j`, a neighbour of cell `ci` with no
/// bomb around that is a seed or listed, keeps the list `t2` a chain: `t`
/// with `j` added where `j` is revealed.
proof fn lemma_chain_step(
    a: &Board,
    b: &Board,
    g0: &Board,
    q0: Seq<usize>,
    t: Seq<usize>,
    t2: Seq<usize>,
    ci: int,
    j: int,
)
    requires
        a.wf(),
        a.width == b.width,
        a.height == b.height,
        a.cells@.len() == b.cells@.len(),
        forall|k: int|
            0 <= k < a.cells@.len() ==> {
                &&& (#[trigger] a.cells@[k]).is_bomb == b.cells@[k].is_bomb
                &&& a.cells@[k].is_revealed ==> b.cells@[k].is_revealed
                &&& b.cells@[k].is_revealed && !a.cells@[k].is_revealed ==> k == j
            },
        chained(a, g0, q0, t),
        if 0 <= j < a.cells@.len() && b.cells@[j].is_revealed && !a.cells@[j].is_revealed {
            &&& t2 == t.push(j as usize)
            &&& 0 <= ci < a.cells@.len()
            &&& q0.contains(ci as usize) || t.contains(ci as usize)
            &&& a.bombs_around(ci) == 0
            &&& a.neighbors(ci).contains(j as usize)
        } else {
            t2 == t
        },
    ensures
        chained(b, g0, q0, t2),
{
    lemma_around_stable(a, b);
    assert forall|p: int| 0 <= p < t2.len() implies #[trigger] chain_link(b, q0, t2, p) by {
        if p < t.len() {
            assert(chain_link(a, q0, t, p));
            assert(t2[p] == t[p]);
            assert(t2.take(p) =~= t.take(p));
            assert(parent_in(a, q0, t, p));
            let c = choose|c: int|
                0 <= c < a.cells@.len() && (q0.contains(c as usize) || t.take(p).contains(
                    c as usize,
                )) && #[trigger] a.bombs_around(c) == 0 && a.neighbors(c).contains(t[p]);
            lemma_neighbors_same(a, b, c, 8);
            assert(b.bombs_around(c) == 0);
        } else {
            assert(t2.take(p) =~= t);
            lemma_neighbors_same(a, b, ci, 8);
            assert(b.bombs_around(ci) == 0);
        }
    }
    assert forall|jj: int| 0 <= jj < b.cells@.len() implies #[trigger] listed(b, g0, q0, t2, jj) by {
        if !(b.cells@[jj].is_revealed && !g0.cells@[jj].is_revealed && !q0.contains(jj as usize)) {
        } else if a.cells@[jj].is_revealed {
            assert(listed(a, g0, q0, t, jj));
            assert(t.contains(jj as usize));
            let p = choose|p: int| 0 <= p < t.len() && t[p] == jj as usize;
            assert(t2[p] == t[p]);
        } else {
            assert(t2[t2.len() - 1] == jj as usize);
        }
    }
}

/// Reached from the seeds since `g1` is reached since `g0` where every cell
/// revealed between the two is a seed.
proof fn lemma_reached_rebase(b: &Board, g1: &Board, g0: &Board, seeds: Seq<usize>)
    requires
        g0.cells@.len() == g1.cells@.len(),
        g1.cells@.len() == b.cells@.len(),
        forall|k: int|
            0 <= k < g0.cells@.len() ==> {
                &&& (#[trigger] g0.cells@[k]).is_revealed ==> g1.cells@[k].is_revealed
                &&& g1.cells@[k].is_revealed && !g0.cells@[k].is_revealed ==> seeds.contains(k as usize)
            },
        reached_from(b, g1, seeds),
    ensures
        reached_from(b, g0, seeds),
{
    let t = choose|t: Seq<usize>| chained(b, g1, seeds, t);
    assert forall|jj: int| 0 <= jj < b.cells@.len() implies #[trigger] listed(b, g0, seeds, t, jj) by {
        assert(listed(b, g1, seeds, t, jj));
    }
    assert(chained(b, g0, seeds, t));
}

/// More seeds reach at least as much.
proof fn lemma_reached_seeds_mono(b: &Board, g0: &Board, s1: Seq<usize>, s2: Seq<usize>)
    requires
        forall|v: usize| #[trigger] s1.contains(v) ==> s2.contains(v),
        reached_from(b, g0, s1),
    ensures
        reached_from(b, g0, s2),
{
    let t = choose|t: Seq<usize>| chained(b, g0, s1, t);
    assert forall|p: int| 0 <= p < t.len() implies #[trigger] chain_link(b, s2, t, p) by {
        assert(chain_link(b, s1, t, p));
        let c = choose|c: int|
            0 <= c < b.cells@.len() && (s1.contains(c as usize) || t.take(p).contains(c as usize))
                && #[trigger] b.bombs_around(c) == 0 && b.neighbors(c).contains(t[p]);
        if s1.contains(c as usize) {
            assert(s2.contains(c as usize));
        }
    }
    assert forall|jj: int| 0 <= jj < b.cells@.len() implies #[trigger] listed(b, g0, s2, t, jj) by {
        assert(listed(b, g0, s1, t, jj));
    }
    assert(chained(b, g0, s2, t));
}

/// Every cell other than `ci` that is revealed in `b` but not in `g0`, or
/// is in `q0`, and is not in `q` is settled.
pub open spec fn pending_settled(b: &Board, g0: &Board, q0: Seq<usize>, q: Seq<usize>, ci: int) -> bool {
    forall|i: int|
        0 <= i < b.cells@.len() && ((#[trigger] b.cells@[i].is_revealed
            && !g0.cells@[i].is_revealed) || q0.contains(i as usize)) && i != ci
            && !q.contains(i as usize) ==> b.settled(i)
}

proof fn lemma_pending_start(b: &Board, q0: Seq<usize>)
    ensures
        pending_settled(b, b, q0, q0, -1),
{
}

proof fn lemma_pending_include(b: &Board, g0: &Board, q0: Seq<usize>, q: Seq<usize>, ci: int)
    requires
        pending_settled(b, g0, q0, q, ci),
        0 <= ci < b.cells@.len() ==> b.settled(ci),
    ensures
        pending_settled(b, g0, q0, q, -1),
{
    assert forall|i: int|
        0 <= i < b.cells@.len() && ((#[trigger] b.cells@[i].is_revealed
            && !g0.cells@[i].is_revealed) || q0.contains(i as usize)) && i != -1
            && !q.contains(i as usize) implies b.settled(i) by {
        if i != ci {
            assert(b.cells@[i].is_revealed || q0.contains(i as usize));
        }
    }
}

proof fn lemma_pending_done(b: &Board, g0: &Board, q0: Seq<usize>, q: Seq<usize>)
    requires
        pending_settled(b, g0, q0, q, -1),
        q.len() == 0,
    ensures
        forall|i: int|
            0 <= i < b.cells@.len() && ((#[trigger] b.cells@[i].is_revealed
                && !g0.cells@[i].is_revealed) || q0.contains(i as usize)) ==> b.settled(i),
{
    assert forall|i: int|
        0 <= i < b.cells@.len() && ((#[trigger] b.cells@[i].is_revealed
            && !g0.cells@[i].is_revealed) || q0.contains(i as usize)) implies b.settled(i) by {
        assert(!q.contains(i as usize));
    }
}

/// One step of the flood fill keeps settled every cell, other than `ci`,
/// that is newly revealed or was queued at first and is no longer queued.
proof fn lemma_pending_settled_step(
    a: &Board,
    b: &Board,
    g0: &Board,
    q0: Seq<usize>,
    qa: Seq<usize>,
    qb: Seq<usize>,
    ca: int,
    ci: int,
)
    requires
        ca == -1 || ca == ci,
        a.wf(),
        a.width == b.width,
        a.height == b.height,
        a.cells@.len() == b.cells@.len(),
        forall|k: int|
            0 <= k < a.cells@.len() ==> {
                &&& (#[trigger] a.cells@[k]).is_bomb == b.cells@[k].is_bomb
                &&& a.cells@[k].is_flagged == b.cells@[k].is_flagged
                &&& a.cells@[k].is_revealed ==> b.cells@[k].is_revealed
                &&& k != ci ==> a.cells@[k].mine_count == b.cells@[k].mine_count
                &&& b.cells@[k].is_revealed && !a.cells@[k].is_revealed ==> qb.contains(k as usize)
            },
        forall|v: usize| v != ci && #[trigger] qa.contains(v) ==> qb.contains(v),
        pending_settled(a, g0, q0, qa, ca),
    ensures
        pending_settled(b, g0, q0, qb, ci),
{
    assert forall|i: int|
        0 <= i < b.cells@.len() && ((#[trigger] b.cells@[i].is_revealed
            && !g0.cells@[i].is_revealed) || q0.contains(i as usize)) && i != ci
            && !qb.contains(i as usize) implies b.settled(i) by {
        assert(!qa.contains(i as usize));
        assert(i != ca);
        let ai = a.cells@[i];
        if b.cells@[i].is_revealed && !ai.is_revealed {
            assert(qb.contains(i as usize));
        }
        assert(a.settled(i));
        lemma_settled_stable(a, b, i);
    }
}

/// Bomb counts around any cell depend on the bombs alone.
pub proof fn lemma_around_stable(a: &Board, b: &Board)
    requires
        a.wf(),
        a.width == b.width,
        a.height == b.height,
        a.cells@.len() == b.cells@.len(),
        forall|k: int|
            0 <= k < a.cells@.len() ==> (#[trigger] a.cells@[k]).is_bomb == b.cells@[k].is_bomb,
    ensures
        forall|i: int| #[trigger] a.bombs_around(i) == b.bombs_around(i),
{
    assert forall|i: int| #[trigger] a.bombs_around(i) == b.bombs_around(i) by {
        lemma_neighbors(a, i);
        lemma_neighbors(b, i);
        lemma_neighbors_same(a, b, i, 8);
        lemma_count_same(a.neighbor_cells(i), b.neighbor_cells(i), bomb_p());
    }
}

/// In every reachable game the revealed counter lies between zero and the
/// number of safe cells.
pub proof fn lemma_revealed_within_safe(g: &SweeperGame)
    requires
        g.inv(),
    ensures
        0 <= g.num_revealed <= g.board.num_cells() - g.num_bombs,
{
}

/// In every reachable game the state is `Win` exactly when all safe cells
/// are revealed.
pub proof fn lemma_win_iff_all_safe_revealed(g: &SweeperGame)
    requires
        g.inv(),
    ensures
        g.state == GameState::Win <==> g.num_revealed == g.board.num_cells() - g.num_bombs,
{
}

/// Toggling the flag at `(x, y)` twice gives back the cells and the flag
/// counter: the second toggle acts on the game that the first one left.
pub proof fn lemma_flag_twice(g: &SweeperGame, h: &SweeperGame, x: isize, y: isize)
    requires
        g.wf(),
        h.board.width == g.board.width,
        h.board.height == g.board.height,
        h.state == g.state,
        h.board.cells@ == g.flag_cells(x, y),
        h.num_flags == g.flag_count(x, y),
    ensures
        h.flag_cells(x, y) == g.board.cells@,
        h.flag_count(x, y) == g.num_flags,
{
    if g.state == GameState::Running && g.board.valid(x as int, y as int) {
        let i = g.spec_index(x, y);
        lemma_index_in_bounds(g.board.width as int, g.board.height as int, x as int, y as int);
        if !g.board.cells@[i].is_revealed {
            assert(h.board.cells@.update(
                i,
                Cell { is_flagged: !h.board.cells@[i].is_flagged, ..h.board.cells@[i] },
            ) =~= g.board.cells@);
        }
    }
}

} // verus!
