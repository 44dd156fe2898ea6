//! The board, its generational rule, and the bookkeeping around it.
use vstd::prelude::*;

use crate::codec::{decode, decode_spec, encode, encoded, LoadError};
use crate::geometry::{lemma_area_fits, lemma_neighbor_in_grid, neighbor, neighbors, Size};

verus! {

/// What can go wrong when a board is built or addressed.
#[derive(Debug, Clone, Copy, PartialEq, Eq, Structural)]
pub enum GameError {
    /// `width * height` does not fit in a `usize`.
    ArithmeticOverflow,
    /// The supplied cells are not `width * height` long.
    ShapeMismatch,
    /// A coordinate lies outside the board, or the board has no cell at all.
    OutOfBounds,
}

/// How a new board is filled.
pub struct Args {
    pub size: Size,
    /// Fill the board at random (ignored when `data` is given).
    pub random: bool,
    /// Cells read from a save, row-major.
    pub data: Option<Vec<bool>>,
    /// Milliseconds between two generations in auto-run.
    pub duration: u64,
}

/// Relies on rand::random: a value drawn from the thread-local generator.
/// Nothing is known of the value drawn.
pub assume_specification<T>[ rand::random::<T> ]() -> (r: T)
    where
        rand::distributions::Standard: rand::distributions::Distribution<T>,
;

/// Geometry and counters of a running game.
#[derive(Debug, Clone, Copy)]
pub struct State {
    pub size: Size,
    /// Generations computed so far.
    pub time: usize,
    pub duration: u64,
    /// Number of cells, `width * height`.
    pub len: usize,
}

/// Alive glyph of the text rendering.
pub open spec fn glyph(alive: bool) -> char {
    if alive { '@' } else { '-' }
}

/// Row `r` of the text rendering, newline included.
pub open spec fn render_row(cells: Seq<bool>, w: int, r: int) -> Seq<char> {
    Seq::new(w as nat, |j: int| glyph(cells[r * w + j])).push('\n')
}

/// The first `n` rows of the text rendering.
pub open spec fn render_rows(cells: Seq<bool>, w: int, n: int) -> Seq<char>
    decreases n,
{
    if n <= 0 {
        Seq::empty()
    } else {
        render_rows(cells, w, n - 1) + render_row(cells, w, n - 1)
    }
}

/// The text rendering of a board: `height` lines of `width` glyphs.
pub open spec fn render(size: Size, cells: Seq<bool>) -> Seq<char> {
    render_rows(cells, size.width as int, size.height as int)
}

/// Relies on String::push: appends one character to the string.
#[verifier::external_body]
fn push_char(s: &mut String, c: char)
    ensures
        final(s)@ == old(s)@.push(c),
{
    s.push(c)
}

/// Number of alive cells among the first `n` neighbours of cell `i`.
pub open spec fn live_among(size: Size, cells: Seq<bool>, i: int, n: int) -> int
    decreases n,
{
    if n <= 0 {
        0
    } else {
        live_among(size, cells, i, n - 1) + if cells[neighbor(
            size.width as int,
            size.height as int,
            i,
            n - 1,
        )] {
            1int
        } else {
            0int
        }
    }
}

/// Number of alive cells among the eight neighbours of cell `i`.
pub open spec fn alive_neighbors(size: Size, cells: Seq<bool>, i: int) -> int {
    live_among(size, cells, i, 8)
}

/// The life rule: an alive cell survives with two or three alive neighbours,
/// a dead one is born with exactly three.
pub open spec fn survives(alive: bool, n: int) -> bool {
    if alive {
        n == 2 || n == 3
    } else {
        n == 3
    }
}

/// The generation that follows `cells`, every cell computed from `cells` alone.
pub open spec fn next_generation(size: Size, cells: Seq<bool>) -> Seq<bool> {
    Seq::new(cells.len(), |i: int| survives(cells[i], alive_neighbors(size, cells, i)))
}

/// Euclidean remainder: `v` wrapped into `[0, n)`.
pub open spec fn wrap_coord(v: int, n: int) -> int {
    v % n
}

/// Where a cursor at `pos` lands after moving by `amount` on a torus of `size`.
pub open spec fn moved(size: Size, pos: (u16, u16), amount: (i16, i16)) -> (u16, u16) {
    (
        wrap_coord(pos.0 + amount.0, size.width as int) as u16,
        wrap_coord(pos.1 + amount.1, size.height as int) as u16,
    )
}

/// Where a cursor at `pos` lands after the moves of `amounts`, in order.
pub open spec fn moved_all(size: Size, pos: (u16, u16), amounts: Seq<(i16, i16)>) -> (u16, u16)
    decreases amounts.len(),
{
    if amounts.len() == 0 {
        pos
    } else {
        moved_all(size, moved(size, pos, amounts[0]), amounts.drop_first())
    }
}

/// Whether `pos` names a cell of a board of `size`.
pub open spec fn on_grid(size: Size, pos: (u16, u16)) -> bool {
    pos.0 < size.width && pos.1 < size.height
}

/// Flat index of position `pos`.
pub open spec fn flat_index(size: Size, pos: (u16, u16)) -> int {
    pos.1 as int * size.width as int + pos.0 as int
}

/// `p + a` wrapped into `[0, n)`.
fn wrap_axis(p: u16, a: i16, n: u16) -> (r: u16)
    requires
        n > 0,
    ensures
        r as int == wrap_coord(p + a, n as int),
        r < n,
{
    let base: u64 = p as u64 + 32768u64 * n as u64;
    let t: u64 = if a >= 0 {
        base + a as u64
    } else {
        base - (-(a as i32)) as u64
    };
    proof {
        vstd::arithmetic::div_mod::lemma_mod_multiples_vanish(32768, p + a, n as int);
        assert(t as int == n as int * 32768 + (p + a)) by (nonlinear_arith)
            requires
                t as int == base as int + a as int,
                base as int == p as int + 32768 * n as int,
        ;
    }
    (t % n as u64) as u16
}

impl State {
    /// Counters of a fresh game on a board of `args.size`.
    pub fn new(args: &Args) -> (r: Result<State, GameError>)
        ensures
            r is Err <==> args.size.area() > usize::MAX,
            r matches Err(e) ==> e == GameError::ArithmeticOverflow,
            r matches Ok(s) ==> s.size == args.size && s.time == 0 && s.duration == args.duration
                && s.len as nat == args.size.area(),
    {
        match args.size.cell_count() {
            Some(len) => Ok(State { size: args.size, time: 0, duration: args.duration, len }),
            None => Err(GameError::ArithmeticOverflow),
        }
    }

    /// Moves `pos` by `amount`, wrapping around both edges.
    pub fn move_to(&self, pos: (u16, u16), amount: (i16, i16)) -> (r: Result<(u16, u16), GameError>)
        ensures
            r is Err <==> self.size.width == 0 || self.size.height == 0,
            r matches Err(e) ==> e == GameError::OutOfBounds,
            r matches Ok(p) ==> p == moved(self.size, pos, amount) && on_grid(self.size, p),
    {
        if self.size.width == 0 || self.size.height == 0 {
            return Err(GameError::OutOfBounds);
        }
        let x = wrap_axis(pos.0, amount.0, self.size.width);
        let y = wrap_axis(pos.1, amount.1, self.size.height);
        Ok((x, y))
    }
}

/// A cursor moved in any way never leaves the grid: from any position on it,
/// after any sequence of moves, it is still on it.
pub proof fn lemma_moves_stay_on_grid(size: Size, pos: (u16, u16), amounts: Seq<(i16, i16)>)
    requires
        on_grid(size, pos),
    ensures
        on_grid(size, moved_all(size, pos, amounts)),
    decreases amounts.len(),
{
    if amounts.len() > 0 {
        let next = moved(size, pos, amounts[0]);
        assert(on_grid(size, next));
        lemma_moves_stay_on_grid(size, next, amounts.drop_first());
    }
}

/// Rendering reads the board only: two boards with the same size and cells,
/// such as one board rendered twice with no change between, render alike.
pub proof fn lemma_render_stable(a: &Game, b: &Game)
    requires
        a.state.size == b.state.size,
        a.game@ == b.game@,
    ensures
        render(a.state.size, a.game@) == render(b.state.size, b.game@),
{
}

/// A board of cells together with its state.
#[derive(Debug)]
pub struct Game {
    /// The cells, row-major.
    pub game: Vec<bool>,
    pub state: State,
}

impl Game {
    /// The board holds exactly `width * height` cells.
    pub open spec fn wf(&self) -> bool {
        &&& self.game@.len() == self.state.len
        &&& self.state.len == self.state.size.area()
    }

    /// A new game: the given cells, random cells, or all dead.
    pub fn init(args: Args) -> (r: Result<Game, GameError>)
        ensures
            args.size.area() > usize::MAX ==> r == Err::<Game, GameError>(
                GameError::ArithmeticOverflow,
            ),
            args.size.area() <= usize::MAX ==> (r is Err <==> (args.data matches Some(d)
                && d@.len() != args.size.area())),
            args.size.area() <= usize::MAX ==> (r matches Err(e) ==> e == GameError::ShapeMismatch),
            r matches Ok(g) ==> {
                &&& g.wf()
                &&& g.state.size == args.size
                &&& g.state.time == 0
                &&& g.state.duration == args.duration
                &&& (args.data matches Some(d) ==> g.game@ == d@)
                &&& (args.data is None && !args.random ==> forall|i: int|
                    0 <= i < g.game@.len() ==> !#[trigger] g.game@[i])
            },
    {
        let state = match State::new(&args) {
            Ok(s) => s,
            Err(e) => return Err(e),
        };
        let cells = match args.data {
            Some(d) => {
                if d.len() != state.len {
                    return Err(GameError::ShapeMismatch);
                }
                d
            },
            None => {
                let mut v: Vec<bool> = Vec::new();
                let mut i: usize = 0;
                while i < state.len
                    invariant
                        i <= state.len,
                        v@.len() == i,
                        !args.random ==> forall|j: int| 0 <= j < i ==> !#[trigger] v@[j],
                    decreases state.len - i,
                {
                    let cell = if args.random {
                        rand::random::<bool>()
                    } else {
                        false
                    };
                    v.push(cell);
                    i = i + 1;
                }
                v
            },
        };
        Ok(Game { game: cells, state })
    }

    /// The board as text, one line per row; the board is left untouched.
    pub fn show_board(&self) -> (r: String)
        requires
            self.wf(),
        ensures
            r@ == render(self.state.size, self.game@),
    {
        let w = self.state.size.width as usize;
        let h = self.state.size.height as usize;
        let mut out = String::new();
        let mut r: usize = 0;
        while r < h
            invariant
                self.wf(),
                w == self.state.size.width,
                h == self.state.size.height,
                r <= h,
                out@ == render_rows(self.game@, w as int, r as int),
            decreases h - r,
        {
            let mut c: usize = 0;
            while c < w
                invariant
                    self.wf(),
                    w == self.state.size.width,
                    h == self.state.size.height,
                    r < h,
                    c <= w,
                    out@ == render_rows(self.game@, w as int, r as int) + Seq::new(
                        c as nat,
                        |j: int| glyph(self.game@[r * w + j]),
                    ),
                decreases w - c,
            {
                proof {
                    assert(r * w + c < w * h) by (nonlinear_arith)
                        requires
                            r < h,
                            c < w,
                    ;
                }
                let alive = self.game[r * w + c];
                push_char(&mut out, if alive { '@' } else { '-' });
                assert(out@ =~= render_rows(self.game@, w as int, r as int) + Seq::new(
                    (c + 1) as nat,
                    |j: int| glyph(self.game@[r * w + j]),
                ));
                c = c + 1;
            }
            push_char(&mut out, '\n');
            assert(out@ =~= render_rows(self.game@, w as int, (r + 1) as int));
            r = r + 1;
        }
        out
    }

    /// The board in the save format; see [`encode`].
    pub fn save_text(&self) -> (r: Vec<u8>)
        requires
            self.wf(),
        ensures
            r@ == encoded(self.state.size, self.game@),
    {
        encode(self.state.size, &self.game)
    }

    /// A fresh game on the board that `text`, in the save format, holds.
    pub fn from_text(text: &[u8], duration: u64) -> (r: Result<Game, LoadError>)
        ensures
            r is Ok <==> decode_spec(text@) is Ok,
            r matches Err(e) ==> decode_spec(text@) == Err::<(Size, Seq<bool>), LoadError>(e),
            r matches Ok(g) ==> {
                &&& g.wf()
                &&& decode_spec(text@) == Ok::<(Size, Seq<bool>), LoadError>((g.state.size, g.game@))
                &&& g.state.time == 0
                &&& g.state.duration == duration
            },
    {
        let (size, cells) = match decode(text) {
            Ok(p) => p,
            Err(e) => return Err(e),
        };
        proof {
            lemma_area_fits(size);
        }
        let args = Args { size, random: false, data: Some(cells), duration };
        match Game::init(args) {
            Ok(g) => Ok(g),
            Err(_) => {
                proof {
                    assert(false);
                }
                Err(LoadError::DataShape)
            },
        }
    }

    /// The eight neighbour indices of cell `idx`; see [`neighbors`].
    pub fn get_pt(&self, idx: usize) -> (r: [usize; 8])
        requires
            self.wf(),
            idx < self.state.len,
        ensures
            forall|k: int| 0 <= k < 8 ==> #[trigger] r@[k] as int == neighbor(
                self.state.size.width as int,
                self.state.size.height as int,
                idx as int,
                k,
            ),
    {
        neighbors(self.state.size, idx)
    }

    /// Counts the alive neighbours of cell `idx`.
    fn count_alive(&self, idx: usize) -> (r: u8)
        requires
            self.wf(),
            idx < self.state.len,
        ensures
            r as int == alive_neighbors(self.state.size, self.game@, idx as int),
    {
        let pts = self.get_pt(idx);
        let mut count: u8 = 0;
        let mut k: usize = 0;
        while k < 8
            invariant
                self.wf(),
                idx < self.state.len,
                k <= 8,
                count <= k,
                count as int == live_among(self.state.size, self.game@, idx as int, k as int),
                forall|j: int| 0 <= j < 8 ==> #[trigger] pts@[j] as int == neighbor(
                    self.state.size.width as int,
                    self.state.size.height as int,
                    idx as int,
                    j,
                ),
            decreases 8 - k,
        {
            proof {
                lemma_neighbor_in_grid(
                    self.state.size.width as int,
                    self.state.size.height as int,
                    idx as int,
                    k as int,
                );
            }
            if self.game[pts[k]] {
                count = count + 1;
            }
            k = k + 1;
        }
        count
    }

    /// Replaces the board by its next generation and counts one more generation.
    pub fn next(&mut self)
        requires
            old(self).wf(),
            old(self).state.time < usize::MAX,
        ensures
            final(self).wf(),
            final(self).game@ == next_generation(old(self).state.size, old(self).game@),
            final(self).state.time == old(self).state.time + 1,
            final(self).state.size == old(self).state.size,
            final(self).state.duration == old(self).state.duration,
            final(self).state.len == old(self).state.len,
    {
        let mut cells: Vec<bool> = Vec::new();
        let mut i: usize = 0;
        while i < self.state.len
            invariant
                self.wf(),
                i <= self.state.len,
                cells@.len() == i,
                forall|j: int| 0 <= j < i ==> #[trigger] cells@[j] == next_generation(
                    self.state.size,
                    self.game@,
                )[j],
            decreases self.state.len - i,
        {
            let n = self.count_alive(i);
            let alive = if self.game[i] {
                n == 2 || n == 3
            } else {
                n == 3
            };
            cells.push(alive);
            i = i + 1;
        }
        assert(cells@ == next_generation(self.state.size, self.game@));
        self.game = cells;
        self.state.time = self.state.time + 1;
    }

    /// Succeeds exactly when `pos` names a cell of the board.
    pub fn check_pos(&self, pos: (u16, u16)) -> (r: Result<(), GameError>)
        ensures
            r is Ok <==> on_grid(self.state.size, pos),
            r matches Err(e) ==> e == GameError::OutOfBounds,
    {
        if pos.0 < self.state.size.width && pos.1 < self.state.size.height {
            Ok(())
        } else {
            Err(GameError::OutOfBounds)
        }
    }

    /// Whether the cell at `pos` is alive; fails when `pos` is off the board.
    pub fn get(&self, pos: (u16, u16)) -> (r: Result<bool, GameError>)
        requires
            self.wf(),
        ensures
            r is Ok <==> on_grid(self.state.size, pos),
            r matches Err(e) ==> e == GameError::OutOfBounds,
            r matches Ok(b) ==> b == self.game@[flat_index(self.state.size, pos)],
    {
        match self.check_pos(pos) {
            Ok(()) => {},
            Err(e) => return Err(e),
        }
        let w = self.state.size.width as usize;
        let h = self.state.size.height as usize;
        let x = pos.0 as usize;
        let y = pos.1 as usize;
        proof {
            assert(y * w + x < w * h) by (nonlinear_arith)
                requires
                    x < w,
                    y < h,
            ;
        }
        Ok(self.game[y * w + x])
    }

    /// Flips the cell at `pos`; leaves the board alone when `pos` is off it.
    pub fn set_pos(&mut self, pos: (u16, u16)) -> (r: Result<(), GameError>)
        requires
            old(self).wf(),
        ensures
            final(self).wf(),
            final(self).state == old(self).state,
            r is Ok <==> on_grid(old(self).state.size, pos),
            r matches Err(e) ==> e == GameError::OutOfBounds && final(self).game@ == old(
                self,
            ).game@,
            r is Ok ==> final(self).game@ == old(self).game@.update(
                flat_index(old(self).state.size, pos),
                !old(self).game@[flat_index(old(self).state.size, pos)],
            ),
    {
        match self.check_pos(pos) {
            Ok(()) => {},
            Err(e) => return Err(e),
        }
        let w = self.state.size.width as usize;
        let h = self.state.size.height as usize;
        let x = pos.0 as usize;
        let y = pos.1 as usize;
        proof {
            assert(y * w + x < w * h) by (nonlinear_arith)
                requires
                    x < w,
                    y < h,
            ;
        }
        let idx = y * w + x;
        let v = self.game[idx];
        self.game.set(idx, !v);
        Ok(())
    }

    /// Moves `pos` by `amount` around the board; see [`State::move_to`].
    pub fn move_to(&self, pos: (u16, u16), amount: (i16, i16)) -> (r: Result<(u16, u16), GameError>)
        ensures
            r is Err <==> self.state.size.width == 0 || self.state.size.height == 0,
            r matches Err(e) ==> e == GameError::OutOfBounds,
            r matches Ok(p) ==> p == moved(self.state.size, pos, amount) && on_grid(
                self.state.size,
                p,
            ),
    {
        self.state.move_to(pos, amount)
    }
}

} // verus!
