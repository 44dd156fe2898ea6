//! The interactive session: three modes driven by key presses. The caller
//! reads keys, draws, sleeps and saves; this module decides what each key does.
use vstd::prelude::*;

use crate::game::{flat_index, moved, next_generation, on_grid, Game};

verus! {

/// The mode a session is in.
#[derive(Debug, Clone, Copy, PartialEq, Eq, Structural)]
pub enum Mode {
    /// Waiting for a command; the initial mode.
    Menu,
    /// Computing generations until interrupted.
    AutoRun,
    /// Moving a cursor over the board and flipping cells.
    Editor,
}

/// An arrow key.
#[derive(Debug, Clone, Copy, PartialEq, Eq, Structural)]
pub enum Direction {
    Up,
    Down,
    Left,
    Right,
}

/// A key press.
#[derive(Debug, Clone, Copy, PartialEq, Eq, Structural)]
pub enum Key {
    Enter,
    Arrow(Direction),
    Char(char),
}

/// What the caller is to do after a key has been handled.
#[derive(Debug, Clone, Copy, PartialEq, Eq, Structural)]
pub enum Action {
    /// Draw the session again and wait for the next key.
    Continue,
    /// End the program.
    Quit,
    /// Write the board's save text, then report how it went.
    Save,
}

/// The cursor move that a key asks for in the editor.
pub open spec fn key_move(key: Key) -> Option<(i16, i16)> {
    match key {
        Key::Char('h') | Key::Arrow(Direction::Left) => Some((-1i16, 0i16)),
        Key::Char('j') | Key::Arrow(Direction::Down) => Some((0i16, 1i16)),
        Key::Char('k') | Key::Arrow(Direction::Up) => Some((0i16, -1i16)),
        Key::Char('l') | Key::Arrow(Direction::Right) => Some((1i16, 0i16)),
        _ => None,
    }
}

/// The board and counters of `a` and `b` are the same.
pub open spec fn board_kept(a: &Game, b: &Game) -> bool {
    a.game@ == b.game@ && a.state == b.state
}

/// `b` is `a` one generation later.
pub open spec fn board_stepped(a: &Game, b: &Game) -> bool {
    &&& b.game@ == next_generation(a.state.size, a.game@)
    &&& b.state.time == a.state.time + 1
    &&& b.state.size == a.state.size
    &&& b.state.duration == a.state.duration
    &&& b.state.len == a.state.len
}

/// A running session.
pub struct Session {
    pub game: Game,
    pub mode: Mode,
    /// The editor's cursor, `(x, y)`.
    pub cursor: (u16, u16),
    /// A message for the next display, shown once.
    pub info: Option<String>,
}

fn arrow_move(key: Key) -> (r: Option<(i16, i16)>)
    ensures
        r == key_move(key),
{
    match key {
        Key::Char('h') | Key::Arrow(Direction::Left) => Some((-1, 0)),
        Key::Char('j') | Key::Arrow(Direction::Down) => Some((0, 1)),
        Key::Char('k') | Key::Arrow(Direction::Up) => Some((0, -1)),
        Key::Char('l') | Key::Arrow(Direction::Right) => Some((1, 0)),
        _ => None,
    }
}

impl Session {
    /// The board is well formed, and in the editor the cursor is on it.
    pub open spec fn wf(&self) -> bool {
        &&& self.game.wf()
        &&& (self.mode == Mode::Editor ==> on_grid(self.game.state.size, self.cursor))
    }

    /// A session on `game`, in the menu.
    pub fn new(game: Game) -> (r: Session)
        requires
            game.wf(),
        ensures
            r.wf(),
            r.mode == Mode::Menu,
            r.info is None,
            r.game == game,
    {
        Session { game, mode: Mode::Menu, cursor: (0, 0), info: None }
    }

    /// Handles one key press.
    ///
    /// In the menu: `q` quits, Enter computes one generation, `e` opens the
    /// editor (on a board with at least one cell), `a` starts auto-run and
    /// `s` asks for a save. In the editor: `h`/`j`/`k`/`l` and the arrows move
    /// the cursor around the torus, Enter flips the cell under it, `q` returns
    /// to the menu. In auto-run: `q` returns to the menu. Other keys do nothing.
    pub fn handle(&mut self, key: Key) -> (r: Action)
        requires
            old(self).wf(),
            old(self).game.state.time < usize::MAX,
        ensures
            final(self).wf(),
            final(self).info == old(self).info,
            r == (if old(self).mode == Mode::Menu && key == Key::Char('q') {
                Action::Quit
            } else if old(self).mode == Mode::Menu && key == Key::Char('s') {
                Action::Save
            } else {
                Action::Continue
            }),
            old(self).mode == Mode::Menu && key == Key::Enter ==> board_stepped(
                &old(self).game,
                &final(self).game,
            ),
            !(old(self).mode == Mode::Menu && key == Key::Enter) && !(old(self).mode
                == Mode::Editor && key == Key::Enter) ==> board_kept(
                &old(self).game,
                &final(self).game,
            ),
            old(self).mode == Mode::Editor && key == Key::Enter ==> {
                &&& final(self).game.state == old(self).game.state
                &&& final(self).game.game@ == old(self).game.game@.update(
                    flat_index(old(self).game.state.size, old(self).cursor),
                    !old(self).game.game@[flat_index(old(self).game.state.size, old(self).cursor)],
                )
            },
            final(self).mode == (match (old(self).mode, key) {
                (Mode::Menu, Key::Char('e')) => if old(self).game.state.len > 0 {
                    Mode::Editor
                } else {
                    Mode::Menu
                },
                (Mode::Menu, Key::Char('a')) => Mode::AutoRun,
                (Mode::Editor, Key::Char('q')) => Mode::Menu,
                (Mode::AutoRun, Key::Char('q')) => Mode::Menu,
                (m, _) => m,
            }),
            old(self).mode == Mode::Menu && key == Key::Char('e') && old(self).game.state.len > 0
                ==> final(self).cursor == (0u16, 0u16),
            old(self).mode == Mode::Editor && key_move(key) is Some ==> final(self).cursor
                == moved(old(self).game.state.size, old(self).cursor, key_move(key)->0),
            !(old(self).mode == Mode::Menu && key == Key::Char('e')) && !(old(self).mode
                == Mode::Editor && key_move(key) is Some) ==> final(self).cursor == old(
                self,
            ).cursor,
    {
        match self.mode {
            Mode::Menu => match key {
                Key::Char('q') => Action::Quit,
                Key::Enter => {
                    self.game.next();
                    Action::Continue
                },
                Key::Char('e') => {
                    if self.game.state.len > 0 {
                        proof {
                            assert(self.game.state.size.width > 0 && self.game.state.size.height
                                > 0) by (nonlinear_arith)
                                requires
                                    self.game.state.len > 0,
                                    self.game.state.len == self.game.state.size.width
                                        * self.game.state.size.height,
                            ;
                        }
                        self.mode = Mode::Editor;
                        self.cursor = (0, 0);
                    }
                    Action::Continue
                },
                Key::Char('a') => {
                    self.mode = Mode::AutoRun;
                    Action::Continue
                },
                Key::Char('s') => Action::Save,
                _ => Action::Continue,
            },
            Mode::Editor => {
                if key == Key::Char('q') {
                    self.mode = Mode::Menu;
                } else if key == Key::Enter {
                    let flipped = self.game.set_pos(self.cursor);
                    assert(flipped is Ok);
                } else {
                    match arrow_move(key) {
                        Some(amount) => {
                            match self.game.move_to(self.cursor, amount) {
                                Ok(p) => {
                                    self.cursor = p;
                                },
                                Err(_) => {},
                            }
                        },
                        None => {},
                    }
                }
                Action::Continue
            },
            Mode::AutoRun => {
                if key == Key::Char('q') {
                    self.mode = Mode::Menu;
                }
                Action::Continue
            },
        }
    }

    /// One beat of auto-run: computes the next generation.
    pub fn tick(&mut self)
        requires
            old(self).wf(),
            old(self).mode == Mode::AutoRun,
            old(self).game.state.time < usize::MAX,
        ensures
            final(self).wf(),
            final(self).mode == Mode::AutoRun,
            final(self).cursor == old(self).cursor,
            final(self).info == old(self).info,
            board_stepped(&old(self).game, &final(self).game),
    {
        self.game.next();
    }

    /// Leaves `msg` for the next display.
    pub fn report(&mut self, msg: String)
        ensures
            final(self).info == Some(msg),
            final(self).game == old(self).game,
            final(self).mode == old(self).mode,
            final(self).cursor == old(self).cursor,
    {
        self.info = Some(msg);
    }

    /// The message left for this display, if any; it is not shown again.
    pub fn take_info(&mut self) -> (r: Option<String>)
        ensures
            r == old(self).info,
            final(self).info is None,
            final(self).game == old(self).game,
            final(self).mode == old(self).mode,
            final(self).cursor == old(self).cursor,
    {
        self.info.take()
    }
}

} // verus!
