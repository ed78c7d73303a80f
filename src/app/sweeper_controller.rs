//! The controller between input and engine: it owns the current game and
//! the cursor, and places the bombs at the first cell that is opened.

use crate::app::sweeper::{clamp, clamp_to};
use crate::clock::{duration_from_secs, duration_of_secs};
use crate::counting::count_where;
use crate::model::sweeper::{bomb_p, lemma_board_dims, GameState, SweeperGame};
use std::time::Duration;
use vstd::prelude::*;

verus! {

/// Controller with cursor position.
#[derive(Debug)]
pub struct SweeperController {
    pub game: Option<SweeperGame>,
    pub cursor: (isize, isize),
}

/// `g` is a game as `SweeperGame::new` makes it, with these dimensions.
pub open spec fn is_fresh(g: SweeperGame, width: usize, height: usize, bomb_count: usize) -> bool {
    &&& g.wf()
    &&& g.board.width == width
    &&& g.board.height == height
    &&& g.num_bombs == bomb_count
    &&& g.num_revealed == 0
    &&& g.num_flags == 0
    &&& g.state == GameState::NotRunning
    &&& count_where(g.board.cells@, bomb_p()) == 0
}

impl SweeperController {
    /// The cursor lies on the board; a game that has not started has no
    /// bomb and no revealed cell yet, and one in play is reachable.
    pub open spec fn wf(&self) -> bool {
        match self.game {
            Some(g) => {
                &&& g.wf()
                &&& 0 <= self.cursor.0 < g.board.width
                &&& 0 <= self.cursor.1 < g.board.height
                &&& g.state == GameState::NotRunning ==> g.num_revealed == 0 && count_where(
                    g.board.cells@,
                    bomb_p(),
                ) == 0
                &&& g.state == GameState::Running ==> g.inv()
            },
            None => self.cursor == (0isize, 0isize),
        }
    }

    /// A game exists and is not over.
    pub open spec fn spec_in_play(&self) -> bool {
        self.game matches Some(g) && g.is_live()
    }

    /// A game exists and is being played.
    pub open spec fn spec_running(&self) -> bool {
        self.game matches Some(g) && g.state == GameState::Running
    }

    pub fn new() -> (r: Self)
        ensures
            r.wf(),
            r.game.is_none(),
            r.cursor == (0isize, 0isize),
    {
        SweeperController { game: None, cursor: (0, 0) }
    }

    /// Replace the game by a new one of the given size; its bombs are placed
    /// when the first cell is opened.
    pub fn start_game(&mut self, width: usize, height: usize, bomb_count: usize)
        requires
            0 < width,
            0 < height,
            width * height <= isize::MAX,
            bomb_count < width * height,
        ensures
            final(self).wf(),
            final(self).game matches Some(g) && is_fresh(g, width, height, bomb_count),
            final(self).cursor == (0isize, 0isize),
    {
        let g = SweeperGame::new(width, height, bomb_count);
        proof {
            crate::counting::lemma_count_zero(g.board.cells@, bomb_p());
        }
        self.game = Some(g);
        self.cursor = (0, 0);
    }

    /// Whether a game exists and is being played.
    pub fn is_running(&self) -> (r: bool)
        ensures
            r == self.spec_running(),
    {
        match &self.game {
            Some(game) => matches!(game.state, GameState::Running),
            None => false,
        }
    }

    /// Whether a game exists that is not over: being played, or waiting for
    /// its first cell to be opened.
    pub fn in_play(&self) -> (r: bool)
        ensures
            r == self.spec_in_play(),
    {
        match &self.game {
            Some(game) => matches!(game.state, GameState::NotRunning | GameState::Running),
            None => false,
        }
    }

    pub fn get_elapsed_time(&self) -> (r: Duration)
        ensures
            match self.game {
                Some(g) => {
                    &&& (g.state == GameState::Win || g.state == GameState::Lose) ==> r == g.total_time
                    &&& g.state == GameState::NotRunning ==> r == duration_of_secs(0)
                    &&& g.state == GameState::Running && g.start_time.is_none() ==> r
                        == duration_of_secs(0)
                },
                None => r == duration_of_secs(0),
            },
    {
        match &self.game {
            Some(game) => game.get_elapsed_time(),
            None => duration_from_secs(0),
        }
    }

    /// Open the cell under the cursor. The first one opened in a game places
    /// the bombs elsewhere and starts the game.
    pub fn open(&mut self)
        requires
            old(self).wf(),
        ensures
            final(self).wf(),
            final(self).cursor == old(self).cursor,
            match (old(self).game, final(self).game) {
                (None, None) => true,
                (Some(g), Some(h)) => {
                    let i = g.spec_index(old(self).cursor.0, old(self).cursor.1);
                    &&& !g.is_live() ==> h == g
                    &&& h.board.width == g.board.width
                    &&& h.board.height == g.board.height
                    &&& h.num_bombs == g.num_bombs
                    &&& h.num_flags == g.num_flags
                    &&& g.state == GameState::Running ==> h.start_time == g.start_time
                    &&& g.is_live() ==> {
                        &&& h.inv()
                        &&& h.state != GameState::NotRunning
                        &&& h.board.cells@[i].is_revealed || h.board.cells@[i].is_flagged
                        &&& g.state == GameState::NotRunning ==> !h.board.cells@[i].is_bomb
                    }
                },
                _ => false,
            },
    {
        let (x, y) = self.cursor;
        if let Some(mut game) = self.game.take() {
            let ghost i = game.spec_index(x, y);
            proof {
                crate::model::sweeper::lemma_index_in_bounds(
                    game.board.width as int,
                    game.board.height as int,
                    x as int,
                    y as int,
                );
            }
            if matches!(game.state, GameState::NotRunning) {
                let placed = game.generate_board(x, y);
                proof {
                    assert(placed is Ok);
                }
                game.start();
            }
            if matches!(game.state, GameState::Running) {
                game.open(x, y);
                proof {
                    assert(game.board.cells@[i].is_revealed || game.board.cells@[i].is_flagged);
                }
            }
            self.game = Some(game);
        }
    }

    /// Toggle the flag under the cursor.
    pub fn flag(&mut self)
        requires
            old(self).wf(),
        ensures
            final(self).wf(),
            final(self).cursor == old(self).cursor,
            match (old(self).game, final(self).game) {
                (None, None) => true,
                (Some(g), Some(h)) => {
                    &&& h.board.cells@ == g.flag_cells(old(self).cursor.0, old(self).cursor.1)
                    &&& h.num_flags == g.flag_count(old(self).cursor.0, old(self).cursor.1)
                    &&& h.state == g.state
                    &&& h.num_revealed == g.num_revealed
                    &&& h.num_bombs == g.num_bombs
                    &&& h.board.width == g.board.width
                    &&& h.board.height == g.board.height
                    &&& h.start_time == g.start_time
                    &&& h.total_time == g.total_time
                },
                _ => false,
            },
    {
        let (x, y) = self.cursor;
        if let Some(mut game) = self.game.take() {
            game.flag(x, y);
            self.game = Some(game);
        }
    }

    /// Move the cursor by the given offset, keeping it on the board.
    pub fn move_cursor(&mut self, dx: isize, dy: isize)
        requires
            old(self).wf(),
            isize::MIN <= old(self).cursor.0 + dx <= isize::MAX,
            isize::MIN <= old(self).cursor.1 + dy <= isize::MAX,
        ensures
            final(self).wf(),
            final(self).game == old(self).game,
            final(self).cursor == match old(self).game {
                Some(g) => (
                    clamp(old(self).cursor.0 + dx, g.board.width - 1) as isize,
                    clamp(old(self).cursor.1 + dy, g.board.height - 1) as isize,
                ),
                None => old(self).cursor,
            },
    {
        if let Some(game) = &self.game {
            proof {
                lemma_board_dims(&game.board);
            }
            let (x, y) = self.cursor;
            let x = clamp_to(x + dx, game.get_width() as isize - 1);
            let y = clamp_to(y + dy, game.get_height() as isize - 1);
            self.cursor = (x, y);
        }
    }

    /// Give up the current game, if it is not over.
    pub fn resign(&mut self)
        requires
            old(self).wf(),
        ensures
            final(self).wf(),
            final(self).cursor == old(self).cursor,
            match (old(self).game, final(self).game) {
                (None, None) => true,
                (Some(g), Some(h)) => {
                    &&& h.state == if g.is_live() {
                        GameState::Lose
                    } else {
                        g.state
                    }
                    &&& h.board == g.board
                    &&& h.num_revealed == g.num_revealed
                    &&& h.num_flags == g.num_flags
                    &&& h.num_bombs == g.num_bombs
                    &&& h.start_time == g.start_time
                },
                _ => false,
            },
    {
        if let Some(mut game) = self.game.take() {
            game.resign();
            self.game = Some(game);
        }
    }
}

} // verus!
