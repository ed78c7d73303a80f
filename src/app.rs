//! The application around the engine: difficulty menu, game screen and the
//! rules that turn a key press into an action.

pub mod sweeper;
pub mod sweeper_controller;

use crate::model::sweeper::{lemma_board_dims, GameState};
use sweeper_controller::{is_fresh, SweeperController};
use vstd::prelude::*;

verus! {

#[derive(Debug, Clone, Copy, PartialEq, Eq, Structural)]
pub enum Difficulty {
    Beginner,
    Intermediate,
    Expert,
}

#[derive(Debug, Clone, Copy, PartialEq, Eq, Structural)]
pub struct GameSetting {
    pub width: usize,
    pub height: usize,
    pub bomb_count: usize,
}

pub open spec fn spec_setting(d: Difficulty) -> GameSetting {
    match d {
        Difficulty::Beginner => GameSetting { width: 10, height: 10, bomb_count: 10 },
        Difficulty::Intermediate => GameSetting { width: 16, height: 16, bomb_count: 40 },
        Difficulty::Expert => GameSetting { width: 30, height: 16, bomb_count: 99 },
    }
}

pub open spec fn spec_next(d: Difficulty) -> Difficulty {
    match d {
        Difficulty::Beginner => Difficulty::Intermediate,
        Difficulty::Intermediate => Difficulty::Expert,
        Difficulty::Expert => Difficulty::Beginner,
    }
}

impl Difficulty {
    /// Board size and bomb count of this difficulty.
    pub fn setting(&self) -> (r: GameSetting)
        ensures
            r == spec_setting(*self),
    {
        match self {
            Difficulty::Beginner => GameSetting { width: 10, height: 10, bomb_count: 10 },
            Difficulty::Intermediate => GameSetting { width: 16, height: 16, bomb_count: 40 },
            Difficulty::Expert => GameSetting { width: 30, height: 16, bomb_count: 99 },
        }
    }

    /// The next difficulty, in a cycle.
    pub fn next(&self) -> (r: Difficulty)
        ensures
            r == spec_next(*self),
    {
        match self {
            Difficulty::Beginner => Difficulty::Intermediate,
            Difficulty::Intermediate => Difficulty::Expert,
            Difficulty::Expert => Difficulty::Beginner,
        }
    }

    /// The name shown in the menu.
    pub fn label(&self) -> (r: &'static str)
        ensures
            r@ == match *self {
                Difficulty::Beginner => "Beginner"@,
                Difficulty::Intermediate => "Intermediate"@,
                Difficulty::Expert => "Expert"@,
            },
    {
        match self {
            Difficulty::Beginner => "Beginner",
            Difficulty::Intermediate => "Intermediate",
            Difficulty::Expert => "Expert",
        }
    }
}

#[derive(Debug, Clone, Copy, PartialEq, Eq, Structural)]
pub enum AppState {
    Menu,
    InGame,
    Exit,
}

/// A key, as far as the application tells keys apart.
#[derive(Debug, Clone, Copy, PartialEq, Eq, Structural)]
pub enum Key {
    Esc,
    Char(char),
    Left,
    Right,
    Up,
    Down,
    Other,
}

/// A key press, with whether the control modifier was held.
#[derive(Debug, Clone, Copy, PartialEq, Eq, Structural)]
pub struct KeyInput {
    pub key: Key,
    pub control: bool,
}

/// The cursor move that a key asks for in a game, if any.
pub open spec fn arrow_offset(k: Key) -> Option<(isize, isize)> {
    match k {
        Key::Left => Some((-1isize, 0isize)),
        Key::Right => Some((1isize, 0isize)),
        Key::Up => Some((0isize, -1isize)),
        Key::Down => Some((0isize, 1isize)),
        _ => None,
    }
}

/// What key `k` does to the controller during a game: the arrows move the
/// cursor and keep the game; while the game is not over, space opens the
/// cell under the cursor (so the game starts) and `f` toggles its flag;
/// anything else changes nothing.
pub open spec fn game_key_effect(c: SweeperController, c2: SweeperController, k: Key) -> bool {
    &&& c2.game.is_some() == c.game.is_some()
    &&& arrow_offset(k) is None && k != Key::Char(' ') && k != Key::Char('f') ==> c2 == c
    &&& !c.spec_in_play() && (k == Key::Char(' ') || k == Key::Char('f')) ==> c2 == c
    &&& arrow_offset(k) is Some ==> c2.game == c.game
    &&& c.spec_in_play() && (k == Key::Char(' ') || k == Key::Char('f')) ==> c2.cursor == c.cursor
    &&& match (c.game, c2.game) {
        (Some(g), Some(h)) => {
            &&& c.spec_in_play() && k == Key::Char(' ') ==> h.inv() && h.state
                != GameState::NotRunning && (h.board.cells@[g.spec_index(c.cursor.0, c.cursor.1)].is_revealed
                || h.board.cells@[g.spec_index(c.cursor.0, c.cursor.1)].is_flagged)
            &&& c.spec_in_play() && k == Key::Char('f') ==> h.board.cells@ == g.flag_cells(
                c.cursor.0,
                c.cursor.1,
            ) && h.num_flags == g.flag_count(c.cursor.0, c.cursor.1)
        },
        _ => true,
    }
}

#[derive(Debug)]
pub struct App {
    controller: SweeperController,
    state: AppState,
    difficulty: Difficulty,
}

impl App {
    pub closed spec fn spec_controller(&self) -> SweeperController {
        self.controller
    }

    pub closed spec fn spec_state(&self) -> AppState {
        self.state
    }

    pub closed spec fn spec_difficulty(&self) -> Difficulty {
        self.difficulty
    }

    pub open spec fn wf(&self) -> bool {
        self.spec_controller().wf()
    }

    /// Construct a new application, showing the menu.
    pub fn new() -> (r: Self)
        ensures
            r.wf(),
            r.spec_state() == AppState::Menu,
            r.spec_difficulty() == Difficulty::Beginner,
            r.spec_controller().game.is_none(),
    {
        App {
            controller: SweeperController::new(),
            state: AppState::Menu,
            difficulty: Difficulty::Beginner,
        }
    }

    pub fn controller(&self) -> (r: &SweeperController)
        ensures
            *r == self.spec_controller(),
    {
        &self.controller
    }

    pub fn state(&self) -> (r: AppState)
        ensures
            r == self.spec_state(),
    {
        self.state
    }

    pub fn difficulty(&self) -> (r: Difficulty)
        ensures
            r == self.spec_difficulty(),
    {
        self.difficulty
    }

    /// Start a new game of the chosen difficulty.
    fn start_game(&mut self)
        requires
            old(self).wf(),
        ensures
            final(self).wf(),
            final(self).spec_state() == AppState::InGame,
            final(self).spec_difficulty() == old(self).spec_difficulty(),
            ({
                let s = spec_setting(old(self).spec_difficulty());
                final(self).spec_controller().game matches Some(g) && is_fresh(
                    g,
                    s.width,
                    s.height,
                    s.bomb_count,
                )
            }),
    {
        self.state = AppState::InGame;
        let setting = self.difficulty.setting();
        self.controller.start_game(setting.width, setting.height, setting.bomb_count);
    }

    /// Leave the application.
    fn quit(&mut self)
        ensures
            final(self).spec_state() == AppState::Exit,
            final(self).spec_controller() == old(self).spec_controller(),
            final(self).spec_difficulty() == old(self).spec_difficulty(),
    {
        self.state = AppState::Exit;
    }

    /// Act on a key press: Esc or `q` gives up a game being played and
    /// otherwise quits, Ctrl-C quits, `n` starts a new game; in the menu `d` changes
    /// the difficulty; in a game the arrows move the cursor, space opens and
    /// `f` flags while the game is not over.
    pub fn on_key_event(&mut self, input: KeyInput)
        requires
            old(self).wf(),
        ensures
            final(self).wf(),
            ({
                let k = input.key;
                let c = old(self).spec_controller();
                let c2 = final(self).spec_controller();
                if k == Key::Esc || k == Key::Char('q') {
                    if c.spec_running() {
                        &&& final(self).spec_state() == old(self).spec_state()
                        &&& c2.game matches Some(h) && h.state == GameState::Lose
                    } else {
                        &&& final(self).spec_state() == AppState::Exit
                        &&& c2 == c
                    }
                } else if input.control && (k == Key::Char('c') || k == Key::Char('C')) {
                    final(self).spec_state() == AppState::Exit && c2 == c
                } else if k == Key::Char('n') {
                    &&& final(self).spec_state() == AppState::InGame
                    &&& final(self).spec_difficulty() == old(self).spec_difficulty()
                    &&& c2.game matches Some(g) && is_fresh(
                        g,
                        spec_setting(old(self).spec_difficulty()).width,
                        spec_setting(old(self).spec_difficulty()).height,
                        spec_setting(old(self).spec_difficulty()).bomb_count,
                    )
                } else if old(self).spec_state() == AppState::Menu {
                    &&& final(self).spec_state() == AppState::Menu
                    &&& c2 == c
                    &&& final(self).spec_difficulty() == if k == Key::Char('d') {
                        spec_next(old(self).spec_difficulty())
                    } else {
                        old(self).spec_difficulty()
                    }
                } else if old(self).spec_state() == AppState::InGame {
                    &&& final(self).spec_state() == AppState::InGame
                    &&& final(self).spec_difficulty() == old(self).spec_difficulty()
                    &&& game_key_effect(c, c2, k)
                } else {
                    final(self).spec_state() == old(self).spec_state() && c2 == c
                }
            }),
    {
        let k = input.key;
        if matches!(k, Key::Esc | Key::Char('q')) {
            if self.controller.is_running() {
                self.controller.resign();
            } else {
                self.quit();
            }
        } else if input.control && matches!(k, Key::Char('c') | Key::Char('C')) {
            self.quit();
        } else if matches!(k, Key::Char('n')) {
            self.start_game();
        } else {
            match self.state {
                AppState::Menu => self.on_menu_key_event(input),
                AppState::InGame => self.on_game_key_event(input),
                AppState::Exit => {},
            }
        }
    }

    fn on_menu_key_event(&mut self, input: KeyInput)
        ensures
            final(self).spec_state() == old(self).spec_state(),
            final(self).spec_controller() == old(self).spec_controller(),
            final(self).spec_difficulty() == if input.key == Key::Char('d') {
                spec_next(old(self).spec_difficulty())
            } else {
                old(self).spec_difficulty()
            },
    {
        if matches!(input.key, Key::Char('d')) {
            self.difficulty = self.difficulty.next();
        }
    }

    fn on_game_key_event(&mut self, input: KeyInput)
        requires
            old(self).wf(),
        ensures
            final(self).wf(),
            final(self).spec_state() == old(self).spec_state(),
            final(self).spec_difficulty() == old(self).spec_difficulty(),
            ({
                let k = input.key;
                let c = old(self).spec_controller();
                let c2 = final(self).spec_controller();
                &&& game_key_effect(c, c2, k)
            }),
    {
        proof {
            if self.controller.game is Some {
                lemma_board_dims(&self.controller.game->Some_0.board);
            }
        }
        match input.key {
            Key::Left => self.controller.move_cursor(-1, 0),
            Key::Right => self.controller.move_cursor(1, 0),
            Key::Up => self.controller.move_cursor(0, -1),
            Key::Down => self.controller.move_cursor(0, 1),
            Key::Char(' ') => {
                if self.controller.in_play() {
                    self.controller.open();
                }
            },
            Key::Char('f') => {
                if self.controller.in_play() {
                    self.controller.flag();
                }
            },
            _ => {},
        }
    }
}

} // verus!
