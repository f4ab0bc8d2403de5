use vstd::prelude::*;

use crate::player::Player;
use crate::position::Position;
use crate::text::{intersperse_texts, interspersed, join_texts, joined, texts};

verus! {

/// The number of rows and of columns of the board.
pub const BOARD_SIZE: usize = 3;

/// One cell of the board: empty, or holding a player's mark.
#[derive(Clone, Copy, PartialEq, Eq, Structural, Debug)]
pub struct TileState(pub Option<Player>);

/// Whether the game goes on, and how it ended.
#[derive(Clone, Copy, PartialEq, Eq, Structural, Debug)]
pub enum GameState {
    Running,
    Won(Player),
    Tie,
}

/// What became of an attempt to place a mark.
#[derive(Clone, Copy, PartialEq, Eq, Structural, Debug)]
pub enum TryPlaceResult {
    Success,
    Occupied,
    RowOutOfBounds,
    ColumnOutOfBounds,
}

/// A game: its state, whose turn it is, who moved first, and the board as
/// rows of cells (`board[y][x]`).
#[derive(Clone, Copy, Debug)]
pub struct Game {
    pub state: GameState,
    pub turn: Player,
    pub first_turn: Player,
    pub board: [[TileState; BOARD_SIZE]; BOARD_SIZE],
}

/// A game seen as plain values; `grid[y][x]` is the cell in row `y`,
/// column `x`.
pub struct GameView {
    pub state: GameState,
    pub turn: Player,
    pub first_turn: Player,
    pub grid: Seq<Seq<TileState>>,
}

impl View for Game {
    type V = GameView;

    open spec fn view(&self) -> GameView {
        GameView {
            state: self.state,
            turn: self.turn,
            first_turn: self.first_turn,
            grid: self.board@.map_values(|r: [TileState; BOARD_SIZE]| r@),
        }
    }
}

impl TileState {
    /// What the cell shows: the player's mark, or a space.
    pub open spec fn shown(self) -> Seq<char> {
        match self.0 {
            Some(p) => p.mark(),
            None => seq![' '],
        }
    }

    /// The cell as text: `X`, `O`, or a space when empty.
    pub fn symbol(&self) -> (r: String)
        ensures
            r@ == self.shown(),
    {
        match self.0 {
            Some(p) => p.symbol(),
            None => {
                proof {
                    reveal_strlit(" ");
                }
                String::from_str(" ")
            },
        }
    }
}

/// The number of occupied cells among `cells`.
pub open spec fn occupied_in(cells: Seq<TileState>) -> nat
    decreases cells.len(),
{
    if cells.len() == 0 {
        0
    } else {
        occupied_in(cells.drop_last()) + if cells.last().0 is Some {
            1nat
        } else {
            0nat
        }
    }
}

/// The number of occupied cells over all rows.
pub open spec fn occupied_rows(rows: Seq<Seq<TileState>>) -> nat
    decreases rows.len(),
{
    if rows.len() == 0 {
        0
    } else {
        occupied_rows(rows.drop_last()) + occupied_in(rows.last())
    }
}

proof fn lemma_none_occupied(cells: Seq<TileState>)
    requires
        forall|i: int| 0 <= i < cells.len() ==> (#[trigger] cells[i]).0 is None,
    ensures
        occupied_in(cells) == 0,
    decreases cells.len(),
{
    if cells.len() > 0 {
        lemma_none_occupied(cells.drop_last());
    }
}

proof fn lemma_no_rows_occupied(rows: Seq<Seq<TileState>>)
    requires
        forall|i: int, j: int|
            0 <= i < rows.len() && 0 <= j < rows[i].len() ==> (#[trigger] rows[i][j]).0 is None,
    ensures
        occupied_rows(rows) == 0,
    decreases rows.len(),
{
    if rows.len() > 0 {
        lemma_no_rows_occupied(rows.drop_last());
        lemma_none_occupied(rows.last());
    }
}

/// Filling an empty cell adds one to the count.
proof fn lemma_fill_cell(cells: Seq<TileState>, i: int, t: TileState)
    requires
        0 <= i < cells.len(),
        cells[i].0 is None,
        t.0 is Some,
    ensures
        occupied_in(cells.update(i, t)) == occupied_in(cells) + 1,
    decreases cells.len(),
{
    let u = cells.update(i, t);
    if i == cells.len() - 1 {
        assert(u.drop_last() =~= cells.drop_last());
    } else {
        assert(u.drop_last() =~= cells.drop_last().update(i, t));
        lemma_fill_cell(cells.drop_last(), i, t);
    }
}

/// Replacing a row by one with one more mark adds one to the count.
proof fn lemma_fill_row(rows: Seq<Seq<TileState>>, y: int, row: Seq<TileState>)
    requires
        0 <= y < rows.len(),
        occupied_in(row) == occupied_in(rows[y]) + 1,
    ensures
        occupied_rows(rows.update(y, row)) == occupied_rows(rows) + 1,
    decreases rows.len(),
{
    let u = rows.update(y, row);
    if y == rows.len() - 1 {
        assert(u.drop_last() =~= rows.drop_last());
    } else {
        assert(u.drop_last() =~= rows.drop_last().update(y, row));
        lemma_fill_row(rows.drop_last(), y, row);
    }
}

/// `s` written `n` times.
pub open spec fn repeated(s: Seq<char>, n: nat) -> Seq<char>
    decreases n,
{
    if n == 0 {
        Seq::empty()
    } else {
        repeated(s, (n - 1) as nat) + s
    }
}

/// The line drawn between two rows of the board.
pub open spec fn rule_text() -> Seq<char> {
    repeated("- "@, BOARD_SIZE as nat)
}

/// The cells of each vector, in order.
pub open spec fn tile_seqs(v: Seq<Vec<TileState>>) -> Seq<Seq<TileState>> {
    v.map_values(|t: Vec<TileState>| t@)
}

/// The player who holds every cell of `line`, X being asked first.
pub open spec fn line_winner(line: Seq<TileState>) -> Option<Player> {
    if forall|i: int| 0 <= i < line.len() ==> line[i] == TileState(Some(Player::X)) {
        Some(Player::X)
    } else if forall|i: int| 0 <= i < line.len() ==> line[i] == TileState(Some(Player::O)) {
        Some(Player::O)
    } else {
        None
    }
}

/// The winner of the first line from index `i` on that has one.
pub open spec fn first_winner(lines: Seq<Seq<TileState>>, i: int) -> Option<Player>
    decreases lines.len() - i,
{
    if i < 0 || i >= lines.len() {
        None
    } else if line_winner(lines[i]) is Some {
        line_winner(lines[i])
    } else {
        first_winner(lines, i + 1)
    }
}

impl GameView {
    pub open spec fn cell(self, x: int, y: int) -> TileState {
        self.grid[y][x]
    }

    /// The game with the cell at column `x`, row `y` holding `p`'s mark.
    pub open spec fn with_mark(self, x: int, y: int, p: Player) -> GameView {
        GameView {
            grid: self.grid.update(y, self.grid[y].update(x, TileState(Some(p)))),
            ..self
        }
    }

    /// What placing at column `x`, row `y` comes to.
    pub open spec fn place_outcome(self, x: int, y: int) -> TryPlaceResult {
        if x >= BOARD_SIZE {
            TryPlaceResult::ColumnOutOfBounds
        } else if y >= BOARD_SIZE {
            TryPlaceResult::RowOutOfBounds
        } else if self.cell(x, y).0 is Some {
            TryPlaceResult::Occupied
        } else {
            TryPlaceResult::Success
        }
    }

    /// The game after an attempt to place `p`'s mark at column `x`, row `y`:
    /// changed only on success.
    pub open spec fn try_placed(self, x: int, y: int, p: Player) -> GameView {
        if self.place_outcome(x, y) == TryPlaceResult::Success {
            self.with_mark(x, y, p)
        } else {
            self
        }
    }

    /// The number of marks on the board.
    pub open spec fn marks(self) -> nat {
        occupied_rows(self.grid)
    }

    /// The player whose turn comes after `n` moves from the first one.
    pub open spec fn player_after(self, n: nat) -> Player {
        if n % 2 == 0 {
            self.first_turn
        } else {
            self.first_turn.other()
        }
    }

    /// Row `y`, from left to right.
    pub open spec fn row(self, y: int) -> Seq<TileState> {
        Seq::new(BOARD_SIZE as nat, |n: int| self.cell(n, y))
    }

    /// Column `x`, from top to bottom.
    pub open spec fn column(self, x: int) -> Seq<TileState> {
        Seq::new(BOARD_SIZE as nat, |n: int| self.cell(x, n))
    }

    /// A diagonal from left to right: the one through the top-left corner
    /// when `increasing`, else the one through the bottom-left corner.
    pub open spec fn diagonal(self, increasing: bool) -> Seq<TileState> {
        Seq::new(
            BOARD_SIZE as nat,
            |n: int|
                self.cell(
                    n,
                    if increasing {
                        n
                    } else {
                        BOARD_SIZE - 1 - n
                    },
                ),
        )
    }

    /// The lines that win, in the order they are examined: both diagonals,
    /// then the rows from the top, then the columns from the left.
    pub open spec fn win_lines(self) -> Seq<Seq<TileState>> {
        seq![self.diagonal(true), self.diagonal(false)] + Seq::new(
            BOARD_SIZE as nat,
            |i: int| self.row(i),
        ) + Seq::new(BOARD_SIZE as nat, |i: int| self.column(i))
    }

    /// The winner of the first won line, if any.
    pub open spec fn winner(self) -> Option<Player> {
        first_winner(self.win_lines(), 0)
    }

    /// Every cell holds a mark.
    pub open spec fn full(self) -> bool {
        forall|x: int, y: int|
            0 <= x < BOARD_SIZE && 0 <= y < BOARD_SIZE ==> (#[trigger] self.cell(x, y)).0 is Some
    }

    /// What the board decides: a win, else a tie on a full board, else the
    /// game goes on.
    pub open spec fn outcome(self) -> GameState {
        match self.winner() {
            Some(p) => GameState::Won(p),
            None => if self.full() {
                GameState::Tie
            } else {
                GameState::Running
            },
        }
    }

    /// The game after its board has been evaluated: the state becomes the
    /// outcome when that ends the game, and is kept otherwise.
    pub open spec fn evaluated(self) -> GameView {
        if self.outcome() == GameState::Running {
            self
        } else {
            GameView { state: self.outcome(), ..self }
        }
    }

    /// What a round with input `(x, y)` reports: nothing once the game is
    /// over, else the outcome of the placement.
    pub open spec fn round_result(self, x: int, y: int) -> Option<TryPlaceResult> {
        if self.state != GameState::Running {
            None
        } else {
            Some(self.place_outcome(x, y))
        }
    }

    /// The game after a round with input `(x, y)`: on a successful placement
    /// the board is evaluated and the turn passes; otherwise nothing changes.
    pub open spec fn after_round(self, x: int, y: int) -> GameView {
        if self.round_result(x, y) == Some(TryPlaceResult::Success) {
            GameView { turn: self.turn.other(), ..self.with_mark(x, y, self.turn).evaluated() }
        } else {
            self
        }
    }

    /// The text of row `y`: its cells joined by `|`.
    pub open spec fn row_text(self, y: int) -> Seq<char> {
        joined(Seq::new(BOARD_SIZE as nat, |x: int| self.cell(x, y).shown()), "|"@)
    }

    /// The board as text: the rows, top first, on lines of their own, with a
    /// rule of `- ` segments between each two.
    pub open spec fn rendered(self) -> Seq<char> {
        joined(
            interspersed(Seq::new(BOARD_SIZE as nat, |y: int| self.row_text(y)), rule_text()),
            "\n"@,
        )
    }

    /// Turns alternate from the first player: the player to move is the
    /// first player exactly when an even number of marks has been placed.
    pub open spec fn wf(self) -> bool {
        self.turn == self.player_after(self.marks())
    }
}

impl Game {
    /// A game with an empty board that `start` opens.
    pub fn new(start: Player) -> (r: Game)
        ensures
            r.state == GameState::Running,
            r.turn == start,
            r.first_turn == start,
            forall|x: int, y: int|
                0 <= x < BOARD_SIZE && 0 <= y < BOARD_SIZE ==> (#[trigger] r@.cell(x, y)).0
                    is None,
            r@.wf(),
    {
        let r = Game {
            state: GameState::Running,
            turn: start,
            first_turn: start,
            board: [[TileState(None); BOARD_SIZE]; BOARD_SIZE],
        };
        proof {
            lemma_no_rows_occupied(r@.grid);
        }
        r
    }

    /// The cell at column `x`, row `y`.
    pub fn get_tile(&self, x: usize, y: usize) -> (r: TileState)
        requires
            x < BOARD_SIZE,
            y < BOARD_SIZE,
        ensures
            r == self@.cell(x as int, y as int),
    {
        self.board[y][x]
    }

    /// Puts `player`'s mark in the cell at column `x`, row `y`.
    pub fn set_tile(&mut self, x: usize, y: usize, player: Player)
        requires
            x < BOARD_SIZE,
            y < BOARD_SIZE,
        ensures
            final(self)@ == old(self)@.with_mark(x as int, y as int, player),
    {
        let mut row = self.board[y];
        row[x] = TileState(Some(player));
        self.board[y] = row;
        assert(self@.grid =~= old(self)@.with_mark(x as int, y as int, player).grid);
    }

    /// Places `player`'s mark at column `x`, row `y` if that cell is on the
    /// board and empty. An index equal to the board size is off the board.
    pub fn try_place(&mut self, x: usize, y: usize, player: Player) -> (r: TryPlaceResult)
        ensures
            r == old(self)@.place_outcome(x as int, y as int),
            final(self)@ == old(self)@.try_placed(x as int, y as int, player),
            x < BOARD_SIZE && y < BOARD_SIZE && old(self)@.cell(x as int, y as int).0 is None
                ==> r == TryPlaceResult::Success && final(self)@.cell(x as int, y as int).0 == Some(
                player,
            ),
    {
        if x >= BOARD_SIZE {
            TryPlaceResult::ColumnOutOfBounds
        } else if y >= BOARD_SIZE {
            TryPlaceResult::RowOutOfBounds
        } else if self.get_tile(x, y).0.is_some() {
            TryPlaceResult::Occupied
        } else {
            self.set_tile(x, y, player);
            TryPlaceResult::Success
        }
    }

    /// The cells of row `y`, from left to right.
    pub fn get_row(&self, y: usize) -> (r: Vec<TileState>)
        requires
            y < BOARD_SIZE,
        ensures
            r@ == self@.row(y as int),
    {
        let mut r: Vec<TileState> = Vec::new();
        let mut n: usize = 0;
        while n < BOARD_SIZE
            invariant
                y < BOARD_SIZE,
                n <= BOARD_SIZE,
                r@.len() == n,
                forall|j: int| 0 <= j < n ==> r@[j] == self@.cell(j, y as int),
            decreases BOARD_SIZE - n,
        {
            r.push(self.board[y][n]);
            n = n + 1;
        }
        assert(r@ =~= self@.row(y as int));
        r
    }

    /// The cells of column `x`, from top to bottom.
    pub fn get_column(&self, x: usize) -> (r: Vec<TileState>)
        requires
            x < BOARD_SIZE,
        ensures
            r@ == self@.column(x as int),
    {
        let mut r: Vec<TileState> = Vec::new();
        let mut n: usize = 0;
        while n < BOARD_SIZE
            invariant
                x < BOARD_SIZE,
                n <= BOARD_SIZE,
                r@.len() == n,
                forall|j: int| 0 <= j < n ==> r@[j] == self@.cell(x as int, j),
            decreases BOARD_SIZE - n,
        {
            r.push(self.board[n][x]);
            n = n + 1;
        }
        assert(r@ =~= self@.column(x as int));
        r
    }

    /// The cells of a diagonal from left to right (see `GameView::diagonal`).
    pub fn get_diagonal(&self, increasing: bool) -> (r: Vec<TileState>)
        ensures
            r@ == self@.diagonal(increasing),
    {
        let mut r: Vec<TileState> = Vec::new();
        let mut n: usize = 0;
        while n < BOARD_SIZE
            invariant
                n <= BOARD_SIZE,
                r@.len() == n,
                forall|j: int|
                    0 <= j < n ==> r@[j] == self@.cell(
                        j,
                        if increasing {
                            j
                        } else {
                            BOARD_SIZE - 1 - j
                        },
                    ),
            decreases BOARD_SIZE - n,
        {
            let y = if increasing {
                n
            } else {
                BOARD_SIZE - 1 - n
            };
            r.push(self.board[y][n]);
            n = n + 1;
        }
        assert(r@ =~= self@.diagonal(increasing));
        r
    }

    /// Whether every cell of `range` holds `p`'s mark.
    fn held_by_all(range: &Vec<TileState>, p: Player) -> (r: bool)
        ensures
            r == forall|i: int| 0 <= i < range@.len() ==> range@[i] == TileState(Some(p)),
    {
        let mut i: usize = 0;
        while i < range.len()
            invariant
                i <= range@.len(),
                forall|j: int| 0 <= j < i ==> range@[j] == TileState(Some(p)),
            decreases range@.len() - i,
        {
            if range[i] != TileState(Some(p)) {
                return false;
            }
            i = i + 1;
        }
        true
    }

    /// The player who holds every cell of `range`, if one does.
    pub fn range_won_by(range: &Vec<TileState>) -> (r: Option<Player>)
        ensures
            r == line_winner(range@),
    {
        if Self::held_by_all(range, Player::X) {
            Some(Player::X)
        } else if Self::held_by_all(range, Player::O) {
            Some(Player::O)
        } else {
            None
        }
    }

    /// The lines that win, in the order they are examined.
    pub fn get_win_ranges(&self) -> (r: Vec<Vec<TileState>>)
        ensures
            tile_seqs(r@) == self@.win_lines(),
    {
        let mut ranges: Vec<Vec<TileState>> = Vec::new();
        ranges.push(self.get_diagonal(true));
        ranges.push(self.get_diagonal(false));
        let mut i: usize = 0;
        while i < BOARD_SIZE
            invariant
                i <= BOARD_SIZE,
                tile_seqs(ranges@) == seq![self@.diagonal(true), self@.diagonal(false)]
                    + Seq::new(i as nat, |k: int| self@.row(k)),
            decreases BOARD_SIZE - i,
        {
            let ghost before = tile_seqs(ranges@);
            ranges.push(self.get_row(i));
            assert(tile_seqs(ranges@) =~= before.push(self@.row(i as int)));
            i = i + 1;
            assert(tile_seqs(ranges@) =~= seq![self@.diagonal(true), self@.diagonal(false)]
                + Seq::new(i as nat, |k: int| self@.row(k)));
        }
        let mut i: usize = 0;
        while i < BOARD_SIZE
            invariant
                i <= BOARD_SIZE,
                tile_seqs(ranges@) == seq![self@.diagonal(true), self@.diagonal(false)]
                    + Seq::new(BOARD_SIZE as nat, |k: int| self@.row(k))
                    + Seq::new(i as nat, |k: int| self@.column(k)),
            decreases BOARD_SIZE - i,
        {
            let ghost before = tile_seqs(ranges@);
            ranges.push(self.get_column(i));
            assert(tile_seqs(ranges@) =~= before.push(self@.column(i as int)));
            i = i + 1;
            assert(tile_seqs(ranges@) =~= seq![self@.diagonal(true), self@.diagonal(false)]
                + Seq::new(BOARD_SIZE as nat, |k: int| self@.row(k))
                + Seq::new(i as nat, |k: int| self@.column(k)));
        }
        ranges
    }

    /// Whether every cell holds a mark.
    fn is_full(&self) -> (r: bool)
        ensures
            r == self@.full(),
    {
        let mut y: usize = 0;
        while y < BOARD_SIZE
            invariant
                y <= BOARD_SIZE,
                forall|a: int, b: int|
                    0 <= a < BOARD_SIZE && 0 <= b < y ==> (#[trigger] self@.cell(a, b)).0 is Some,
            decreases BOARD_SIZE - y,
        {
            let mut x: usize = 0;
            while x < BOARD_SIZE
                invariant
                    y < BOARD_SIZE,
                    x <= BOARD_SIZE,
                    forall|a: int, b: int|
                        0 <= a < BOARD_SIZE && 0 <= b < y ==> (#[trigger] self@.cell(a, b)).0 is Some,
                    forall|a: int| 0 <= a < x ==> (#[trigger] self@.cell(a, y as int)).0 is Some,
                decreases BOARD_SIZE - x,
            {
                if self.board[y][x].0.is_none() {
                    assert(self@.cell(x as int, y as int) == self.board@[y as int]@[x as int]);
                    assert(!self@.full());
                    return false;
                }
                x = x + 1;
            }
            y = y + 1;
        }
        true
    }

    /// Looks for a won line, in the order of `get_win_ranges`, and records
    /// the first winner; failing that, records a tie on a full board.
    /// Otherwise the state is left as it was.
    pub fn check_win_condition(&mut self)
        ensures
            final(self)@ == old(self)@.evaluated(),
    {
        let ranges = self.get_win_ranges();
        let ghost lines = tile_seqs(ranges@);
        let mut winner: Option<Player> = None;
        let mut i: usize = 0;
        while i < ranges.len() && winner.is_none()
            invariant
                i <= ranges@.len(),
                lines == tile_seqs(ranges@),
                winner is None ==> first_winner(lines, 0) == first_winner(lines, i as int),
                winner is Some ==> winner == first_winner(lines, 0),
            decreases ranges@.len() - i + if winner is None {
                1int
            } else {
                0int
            },
        {
            assert(lines[i as int] == ranges@[i as int]@);
            winner = Self::range_won_by(&ranges[i]);
            i = i + 1;
        }
        match winner {
            Some(p) => {
                self.state = GameState::Won(p);
            },
            None => {
                if self.is_full() {
                    self.state = GameState::Tie;
                }
            },
        }
    }

    /// Plays one round with input `pos` while the game runs: places the
    /// current player's mark there, and on success evaluates the board and
    /// passes the turn. Once the game is over nothing is placed and `None`
    /// is returned.
    pub fn play_round(&mut self, pos: Position) -> (r: Option<TryPlaceResult>)
        ensures
            r == old(self)@.round_result(pos.x as int, pos.y as int),
            final(self)@ == old(self)@.after_round(pos.x as int, pos.y as int),
            old(self)@.wf() ==> final(self)@.wf(),
    {
        if self.state != GameState::Running {
            return None;
        }
        let ghost before = self@;
        let player = self.turn;
        let r = self.try_place(pos.x, pos.y, player);
        if r == TryPlaceResult::Success {
            proof {
                let (x, y) = (pos.x as int, pos.y as int);
                lemma_fill_cell(before.grid[y], x, TileState(Some(player)));
                lemma_fill_row(
                    before.grid,
                    y,
                    before.grid[y].update(x, TileState(Some(player))),
                );
            }
            self.check_win_condition();
            self.turn = self.turn.toggle();
        }
        Some(r)
    }

    /// The board as text (see `GameView::rendered`).
    pub fn render(&self) -> (r: String)
        ensures
            r@ == self@.rendered(),
    {
        let mut rows: Vec<String> = Vec::new();
        let mut y: usize = 0;
        while y < BOARD_SIZE
            invariant
                y <= BOARD_SIZE,
                rows@.len() == y,
                forall|j: int| 0 <= j < y ==> (#[trigger] rows@[j])@ == self@.row_text(j),
            decreases BOARD_SIZE - y,
        {
            let mut cells: Vec<String> = Vec::new();
            let mut x: usize = 0;
            while x < BOARD_SIZE
                invariant
                    y < BOARD_SIZE,
                    x <= BOARD_SIZE,
                    cells@.len() == x,
                    forall|j: int|
                        0 <= j < x ==> (#[trigger] cells@[j])@ == self@.cell(j, y as int).shown(),
                decreases BOARD_SIZE - x,
            {
                cells.push(self.board[y][x].symbol());
                x = x + 1;
            }
            assert(texts(cells@) =~= Seq::new(
                BOARD_SIZE as nat,
                |x: int| self@.cell(x, y as int).shown(),
            ));
            rows.push(join_texts(&cells, "|"));
            y = y + 1;
        }
        assert(texts(rows@) =~= Seq::new(BOARD_SIZE as nat, |y: int| self@.row_text(y)));
        let mut rule = String::new();
        let mut k: usize = 0;
        while k < BOARD_SIZE
            invariant
                k <= BOARD_SIZE,
                rule@ == repeated("- "@, k as nat),
            decreases BOARD_SIZE - k,
        {
            rule.append("- ");
            k = k + 1;
        }
        let lines = intersperse_texts(rows, rule);
        join_texts(&lines, "\n")
    }
}

} // verus!
