//! A worked aggregate: tic-tac-toe.
//!
//! Moves are validated against the board — in bounds, cell free, right
//! turn — and applied by placing the mark, then scanning for a winner and
//! a draw exactly as the rule set defines them.

use crate::codec::{from_be64, push_be64, read_be64, Codec};
use crate::command::Command;
use crate::domain::NonEmptyVec;
use crate::error::Error;
use crate::event::{AggregateState, Event};
use vstd::prelude::*;

verus! {

/// A mark on the board; `X` moves first.
#[derive(Debug, PartialEq, Eq, Structural, Clone, Copy)]
pub enum Player {
    X,
    O,
}

/// The three-by-three board, row by row.
#[derive(Debug, Clone, Copy)]
pub struct Board {
    pub r0c0: Option<Player>,
    pub r0c1: Option<Player>,
    pub r0c2: Option<Player>,
    pub r1c0: Option<Player>,
    pub r1c1: Option<Player>,
    pub r1c2: Option<Player>,
    pub r2c0: Option<Player>,
    pub r2c1: Option<Player>,
    pub r2c2: Option<Player>,
}

/// The cell of a board at row `x`, column `y`; absent outside the board.
pub open spec fn cell(b: Board, x: int, y: int) -> Option<Player> {
    if x == 0 && y == 0 {
        b.r0c0
    } else if x == 0 && y == 1 {
        b.r0c1
    } else if x == 0 && y == 2 {
        b.r0c2
    } else if x == 1 && y == 0 {
        b.r1c0
    } else if x == 1 && y == 1 {
        b.r1c1
    } else if x == 1 && y == 2 {
        b.r1c2
    } else if x == 2 && y == 0 {
        b.r2c0
    } else if x == 2 && y == 1 {
        b.r2c1
    } else if x == 2 && y == 2 {
        b.r2c2
    } else {
        None
    }
}

/// The board with one cell marked; a mark outside the board changes
/// nothing.
pub open spec fn placed(b: Board, x: int, y: int, p: Player) -> Board {
    Board {
        r0c0: if x == 0 && y == 0 {
            Some(p)
        } else {
            b.r0c0
        },
        r0c1: if x == 0 && y == 1 {
            Some(p)
        } else {
            b.r0c1
        },
        r0c2: if x == 0 && y == 2 {
            Some(p)
        } else {
            b.r0c2
        },
        r1c0: if x == 1 && y == 0 {
            Some(p)
        } else {
            b.r1c0
        },
        r1c1: if x == 1 && y == 1 {
            Some(p)
        } else {
            b.r1c1
        },
        r1c2: if x == 1 && y == 2 {
            Some(p)
        } else {
            b.r1c2
        },
        r2c0: if x == 2 && y == 0 {
            Some(p)
        } else {
            b.r2c0
        },
        r2c1: if x == 2 && y == 1 {
            Some(p)
        } else {
            b.r2c1
        },
        r2c2: if x == 2 && y == 2 {
            Some(p)
        } else {
            b.r2c2
        },
    }
}

/// The empty board.
pub open spec fn empty_board() -> Board {
    Board {
        r0c0: None,
        r0c1: None,
        r0c2: None,
        r1c0: None,
        r1c1: None,
        r1c2: None,
        r2c0: None,
        r2c1: None,
        r2c2: None,
    }
}

/// Every cell of row `x` carries the mark `p`.
pub open spec fn row_all(b: Board, x: int, p: Player) -> bool {
    cell(b, x, 0) == Some(p) && cell(b, x, 1) == Some(p) && cell(b, x, 2) == Some(p)
}

/// Every cell of row `x` is marked.
pub open spec fn row_full(b: Board, x: int) -> bool {
    cell(b, x, 0) is Some && cell(b, x, 1) is Some && cell(b, x, 2) is Some
}

/// Every cell of column `y` carries the mark `p`.
pub open spec fn col_all(b: Board, y: int, p: Player) -> bool {
    cell(b, 0, y) == Some(p) && cell(b, 1, y) == Some(p) && cell(b, 2, y) == Some(p)
}

/// Every cell of column `y` is marked.
pub open spec fn col_full(b: Board, y: int) -> bool {
    cell(b, 0, y) is Some && cell(b, 1, y) is Some && cell(b, 2, y) is Some
}

/// The winner a full uniform row yields: the last such row counts.
pub open spec fn rows_winner(b: Board) -> Option<Player> {
    if row_full(b, 2) && (row_all(b, 2, Player::X) || row_all(b, 2, Player::O)) {
        if row_all(b, 2, Player::X) {
            Some(Player::X)
        } else {
            Some(Player::O)
        }
    } else if row_full(b, 1) && (row_all(b, 1, Player::X) || row_all(b, 1, Player::O)) {
        if row_all(b, 1, Player::X) {
            Some(Player::X)
        } else {
            Some(Player::O)
        }
    } else if row_full(b, 0) && (row_all(b, 0, Player::X) || row_all(b, 0, Player::O)) {
        if row_all(b, 0, Player::X) {
            Some(Player::X)
        } else {
            Some(Player::O)
        }
    } else {
        None
    }
}

/// The winner a full uniform column yields: the first such column counts.
pub open spec fn cols_winner(b: Board) -> Option<Player> {
    if col_full(b, 0) && (col_all(b, 0, Player::X) || col_all(b, 0, Player::O)) {
        if col_all(b, 0, Player::X) {
            Some(Player::X)
        } else {
            Some(Player::O)
        }
    } else if col_full(b, 1) && (col_all(b, 1, Player::X) || col_all(b, 1, Player::O)) {
        if col_all(b, 1, Player::X) {
            Some(Player::X)
        } else {
            Some(Player::O)
        }
    } else if col_full(b, 2) && (col_all(b, 2, Player::X) || col_all(b, 2, Player::O)) {
        if col_all(b, 2, Player::X) {
            Some(Player::X)
        } else {
            Some(Player::O)
        }
    } else {
        None
    }
}

/// Every row is marked and constant from its first cell.
pub open spec fn rows_constant_left(b: Board) -> bool {
    forall|x: int|
        0 <= x < 3 ==> #[trigger] cell(b, x, 0) is Some && cell(b, x, 0) == cell(b, x, 1) && cell(
            b,
            x,
            0,
        ) == cell(b, x, 2)
}

/// Every row is marked and constant from its last cell.
pub open spec fn rows_constant_right(b: Board) -> bool {
    forall|x: int|
        0 <= x < 3 ==> #[trigger] cell(b, x, 2) is Some && cell(b, x, 2) == cell(b, x, 1) && cell(
            b,
            x,
            2,
        ) == cell(b, x, 0)
}

/// The winner after a move, scanning rows, then columns, then the two
/// constant-row patterns of the rule set; a later finding overrides an
/// earlier one.
pub open spec fn winner_of(b: Board) -> Option<Player> {
    if rows_constant_right(b) {
        cell(b, 0, 2)
    } else if rows_constant_left(b) {
        cell(b, 0, 0)
    } else if cols_winner(b) is Some {
        cols_winner(b)
    } else {
        rows_winner(b)
    }
}

/// Whether the whole board is marked.
pub open spec fn board_full(b: Board) -> bool {
    forall|x: int, y: int| 0 <= x < 3 && 0 <= y < 3 ==> #[trigger] cell(b, x, y) is Some
}

/// The game's state.
#[derive(Debug, Clone, Copy)]
pub struct State {
    pub board: Board,
    pub current: Player,
    pub winner: Option<Player>,
    pub draw: bool,
}

impl AggregateState for State {
    open spec fn inv(self) -> bool {
        true
    }

    open spec fn initial_spec() -> Self {
        State { board: empty_board(), current: Player::X, winner: None, draw: false }
    }

    proof fn lemma_initial_wf() {
    }

    fn initial() -> Self {
        State {
            board: Board {
                r0c0: None,
                r0c1: None,
                r0c2: None,
                r1c0: None,
                r1c1: None,
                r1c2: None,
                r2c0: None,
                r2c1: None,
                r2c2: None,
            },
            current: Player::X,
            winner: None,
            draw: false,
        }
    }

    fn snapshot(&self) -> Self {
        *self
    }
}

impl Default for State {
    /// A fresh game: empty board, `X` to move.
    fn default() -> (r: Self)
        ensures
            r == State::initial_spec(),
    {
        State::initial()
    }
}

/// A request to place the given player's mark at `(x, y)`.
#[derive(Debug, Clone, Copy)]
pub struct Move {
    pub player: Player,
    pub x: usize,
    pub y: usize,
}

impl Move {
    /// The player whose turn follows this move's player.
    pub open spec fn turn_spec(self) -> Player {
        match self.player {
            Player::X => Player::O,
            Player::O => Player::X,
        }
    }

    /// Returns the player whose turn follows this move's player.
    pub fn turn(&self) -> (r: Player)
        ensures
            r == self.turn_spec(),
    {
        match self.player {
            Player::X => Player::O,
            Player::O => Player::X,
        }
    }
}

/// The fact that the game ended in a draw.
#[derive(Debug, Clone, Copy)]
pub struct GameDraw;

/// The game's events.
#[derive(Debug, Clone, Copy)]
pub enum PlayerEvent {
    MoveMade(Move),
    GameWon(Player),
    GameDraw(GameDraw),
}

/// The game's commands.
#[derive(Debug, Clone, Copy)]
pub enum PlayerCommand {
    MakeMove(Move),
}

/// The state after a move is applied: the mark placed, the turn passed,
/// the winner and draw flags rescanned.
pub open spec fn move_applied(m: Move, st: State) -> State {
    let b = placed(st.board, m.x as int, m.y as int, m.player);
    let w = winner_of(b);
    State {
        board: b,
        current: m.turn_spec(),
        winner: w,
        draw: if w is Some {
            false
        } else {
            board_full(b)
        },
    }
}

/// Whether two cells carry the same content.
fn opt_eq(a: &Option<Player>, b: &Option<Player>) -> (r: bool)
    ensures
        r <==> *a == *b,
{
    match (a, b) {
        (None, None) => true,
        (Some(x), Some(y)) => *x == *y,
        _ => false,
    }
}

/// Reads the cell at `(x, y)`; absent outside the board.
fn cell_at(b: &Board, x: usize, y: usize) -> (r: Option<Player>)
    ensures
        r == cell(*b, x as int, y as int),
{
    if x == 0 && y == 0 {
        b.r0c0
    } else if x == 0 && y == 1 {
        b.r0c1
    } else if x == 0 && y == 2 {
        b.r0c2
    } else if x == 1 && y == 0 {
        b.r1c0
    } else if x == 1 && y == 1 {
        b.r1c1
    } else if x == 1 && y == 2 {
        b.r1c2
    } else if x == 2 && y == 0 {
        b.r2c0
    } else if x == 2 && y == 1 {
        b.r2c1
    } else if x == 2 && y == 2 {
        b.r2c2
    } else {
        None
    }
}

/// Scans the board for a winner, as [`winner_of`] defines it.
fn find_winner(b: &Board) -> (r: Option<Player>)
    ensures
        r == winner_of(*b),
{
    let mut winner: Option<Player> = None;
    // Rows: the last full uniform row counts.
    if b.r0c0.is_some() && b.r0c1.is_some() && b.r0c2.is_some() {
        if opt_eq(&b.r0c0, &Some(Player::X)) && opt_eq(&b.r0c1, &Some(Player::X)) && opt_eq(
            &b.r0c2,
            &Some(Player::X),
        ) {
            winner = Some(Player::X);
        } else if opt_eq(&b.r0c0, &Some(Player::O)) && opt_eq(&b.r0c1, &Some(Player::O)) && opt_eq(
            &b.r0c2,
            &Some(Player::O),
        ) {
            winner = Some(Player::O);
        }
    }
    if b.r1c0.is_some() && b.r1c1.is_some() && b.r1c2.is_some() {
        if opt_eq(&b.r1c0, &Some(Player::X)) && opt_eq(&b.r1c1, &Some(Player::X)) && opt_eq(
            &b.r1c2,
            &Some(Player::X),
        ) {
            winner = Some(Player::X);
        } else if opt_eq(&b.r1c0, &Some(Player::O)) && opt_eq(&b.r1c1, &Some(Player::O)) && opt_eq(
            &b.r1c2,
            &Some(Player::O),
        ) {
            winner = Some(Player::O);
        }
    }
    if b.r2c0.is_some() && b.r2c1.is_some() && b.r2c2.is_some() {
        if opt_eq(&b.r2c0, &Some(Player::X)) && opt_eq(&b.r2c1, &Some(Player::X)) && opt_eq(
            &b.r2c2,
            &Some(Player::X),
        ) {
            winner = Some(Player::X);
        } else if opt_eq(&b.r2c0, &Some(Player::O)) && opt_eq(&b.r2c1, &Some(Player::O)) && opt_eq(
            &b.r2c2,
            &Some(Player::O),
        ) {
            winner = Some(Player::O);
        }
    }
    // Columns: the first full uniform column counts and overrides.
    if b.r0c0.is_some() && b.r1c0.is_some() && b.r2c0.is_some() && opt_eq(
        &b.r0c0,
        &Some(Player::X),
    ) && opt_eq(&b.r1c0, &Some(Player::X)) && opt_eq(&b.r2c0, &Some(Player::X)) {
        winner = Some(Player::X);
    } else if b.r0c0.is_some() && b.r1c0.is_some() && b.r2c0.is_some() && opt_eq(
        &b.r0c0,
        &Some(Player::O),
    ) && opt_eq(&b.r1c0, &Some(Player::O)) && opt_eq(&b.r2c0, &Some(Player::O)) {
        winner = Some(Player::O);
    } else if b.r0c1.is_some() && b.r1c1.is_some() && b.r2c1.is_some() && opt_eq(
        &b.r0c1,
        &Some(Player::X),
    ) && opt_eq(&b.r1c1, &Some(Player::X)) && opt_eq(&b.r2c1, &Some(Player::X)) {
        winner = Some(Player::X);
    } else if b.r0c1.is_some() && b.r1c1.is_some() && b.r2c1.is_some() && opt_eq(
        &b.r0c1,
        &Some(Player::O),
    ) && opt_eq(&b.r1c1, &Some(Player::O)) && opt_eq(&b.r2c1, &Some(Player::O)) {
        winner = Some(Player::O);
    } else if b.r0c2.is_some() && b.r1c2.is_some() && b.r2c2.is_some() && opt_eq(
        &b.r0c2,
        &Some(Player::X),
    ) && opt_eq(&b.r1c2, &Some(Player::X)) && opt_eq(&b.r2c2, &Some(Player::X)) {
        winner = Some(Player::X);
    } else if b.r0c2.is_some() && b.r1c2.is_some() && b.r2c2.is_some() && opt_eq(
        &b.r0c2,
        &Some(Player::O),
    ) && opt_eq(&b.r1c2, &Some(Player::O)) && opt_eq(&b.r2c2, &Some(Player::O)) {
        winner = Some(Player::O);
    }
    // The constant-row patterns override everything.
    if b.r0c0.is_some() && b.r1c0.is_some() && b.r2c0.is_some() && opt_eq(&b.r0c0, &b.r0c1)
        && opt_eq(&b.r1c0, &b.r1c1) && opt_eq(&b.r2c0, &b.r2c1) && opt_eq(&b.r0c0, &b.r0c2)
        && opt_eq(&b.r1c0, &b.r1c2) && opt_eq(&b.r2c0, &b.r2c2) {
        winner = b.r0c0;
    }
    if b.r0c2.is_some() && b.r1c2.is_some() && b.r2c2.is_some() && opt_eq(&b.r0c2, &b.r0c1)
        && opt_eq(&b.r1c2, &b.r1c1) && opt_eq(&b.r2c2, &b.r2c1) && opt_eq(&b.r0c2, &b.r0c0)
        && opt_eq(&b.r1c2, &b.r1c0) && opt_eq(&b.r2c2, &b.r2c0) {
        winner = b.r0c2;
    }
    proof {
        lemma_rows_constant_left(*b);
        lemma_rows_constant_right(*b);
    }
    winner
}

/// The constant-row scan, cell by cell.
proof fn lemma_rows_constant_left(b: Board)
    ensures
        rows_constant_left(b) <==> (cell(b, 0, 0) is Some && cell(b, 0, 0) == cell(b, 0, 1) && cell(
            b,
            0,
            0,
        ) == cell(b, 0, 2) && cell(b, 1, 0) is Some && cell(b, 1, 0) == cell(b, 1, 1) && cell(
            b,
            1,
            0,
        ) == cell(b, 1, 2) && cell(b, 2, 0) is Some && cell(b, 2, 0) == cell(b, 2, 1) && cell(
            b,
            2,
            0,
        ) == cell(b, 2, 2)),
{
    if cell(b, 0, 0) is Some && cell(b, 0, 0) == cell(b, 0, 1) && cell(b, 0, 0) == cell(b, 0, 2)
        && cell(b, 1, 0) is Some && cell(b, 1, 0) == cell(b, 1, 1) && cell(b, 1, 0) == cell(
        b,
        1,
        2,
    ) && cell(b, 2, 0) is Some && cell(b, 2, 0) == cell(b, 2, 1) && cell(b, 2, 0) == cell(
        b,
        2,
        2,
    ) {
        assert forall|x: int|
            0 <= x < 3 implies #[trigger] cell(b, x, 0) is Some && cell(b, x, 0) == cell(b, x, 1)
            && cell(b, x, 0) == cell(b, x, 2) by {
            if x == 0 {
            } else if x == 1 {
            } else {
            }
        }
    }
}

/// The constant-row scan from the right, cell by cell.
proof fn lemma_rows_constant_right(b: Board)
    ensures
        rows_constant_right(b) <==> (cell(b, 0, 2) is Some && cell(b, 0, 2) == cell(b, 0, 1)
            && cell(b, 0, 2) == cell(b, 0, 0) && cell(b, 1, 2) is Some && cell(b, 1, 2) == cell(
            b,
            1,
            1,
        ) && cell(b, 1, 2) == cell(b, 1, 0) && cell(b, 2, 2) is Some && cell(b, 2, 2) == cell(
            b,
            2,
            1,
        ) && cell(b, 2, 2) == cell(b, 2, 0)),
{
    if cell(b, 0, 2) is Some && cell(b, 0, 2) == cell(b, 0, 1) && cell(b, 0, 2) == cell(b, 0, 0)
        && cell(b, 1, 2) is Some && cell(b, 1, 2) == cell(b, 1, 1) && cell(b, 1, 2) == cell(
        b,
        1,
        0,
    ) && cell(b, 2, 2) is Some && cell(b, 2, 2) == cell(b, 2, 1) && cell(b, 2, 2) == cell(
        b,
        2,
        0,
    ) {
        assert forall|x: int|
            0 <= x < 3 implies #[trigger] cell(b, x, 2) is Some && cell(b, x, 2) == cell(b, x, 1)
            && cell(b, x, 2) == cell(b, x, 0) by {
            if x == 0 {
            } else if x == 1 {
            } else {
            }
        }
    }
}

/// The whole-board scan, cell by cell.
proof fn lemma_board_full(b: Board)
    ensures
        board_full(b) <==> (cell(b, 0, 0) is Some && cell(b, 0, 1) is Some && cell(b, 0, 2) is Some
            && cell(b, 1, 0) is Some && cell(b, 1, 1) is Some && cell(b, 1, 2) is Some && cell(
            b,
            2,
            0,
        ) is Some && cell(b, 2, 1) is Some && cell(b, 2, 2) is Some),
{
    if cell(b, 0, 0) is Some && cell(b, 0, 1) is Some && cell(b, 0, 2) is Some && cell(
        b,
        1,
        0,
    ) is Some && cell(b, 1, 1) is Some && cell(b, 1, 2) is Some && cell(b, 2, 0) is Some && cell(
        b,
        2,
        1,
    ) is Some && cell(b, 2, 2) is Some {
        assert forall|x: int, y: int|
            0 <= x < 3 && 0 <= y < 3 implies #[trigger] cell(b, x, y) is Some by {
            if x == 0 && y == 0 {
            } else if x == 0 && y == 1 {
            } else if x == 0 && y == 2 {
            } else if x == 1 && y == 0 {
            } else if x == 1 && y == 1 {
            } else if x == 1 && y == 2 {
            } else if x == 2 && y == 0 {
            } else if x == 2 && y == 1 {
            } else {
            }
        }
    }
}

/// Places a mark, as [`placed`] defines it.
fn place(b: &Board, x: usize, y: usize, p: Player) -> (r: Board)
    ensures
        r == placed(*b, x as int, y as int, p),
{
    Board {
        r0c0: if x == 0 && y == 0 {
            Some(p)
        } else {
            b.r0c0
        },
        r0c1: if x == 0 && y == 1 {
            Some(p)
        } else {
            b.r0c1
        },
        r0c2: if x == 0 && y == 2 {
            Some(p)
        } else {
            b.r0c2
        },
        r1c0: if x == 1 && y == 0 {
            Some(p)
        } else {
            b.r1c0
        },
        r1c1: if x == 1 && y == 1 {
            Some(p)
        } else {
            b.r1c1
        },
        r1c2: if x == 1 && y == 2 {
            Some(p)
        } else {
            b.r1c2
        },
        r2c0: if x == 2 && y == 0 {
            Some(p)
        } else {
            b.r2c0
        },
        r2c1: if x == 2 && y == 1 {
            Some(p)
        } else {
            b.r2c1
        },
        r2c2: if x == 2 && y == 2 {
            Some(p)
        } else {
            b.r2c2
        },
    }
}

/// The wire byte of a mark.
pub open spec fn player_byte(p: Player) -> u8 {
    match p {
        Player::X => 0u8,
        Player::O => 1u8,
    }
}

impl Codec for PlayerEvent {
    open spec fn enc_spec(self) -> Seq<u8> {
        match self {
            PlayerEvent::MoveMade(m) => seq![0u8, player_byte(m.player)] + (crate::codec::be64(
                m.x as u64,
            ) + crate::codec::be64(m.y as u64)),
            PlayerEvent::GameWon(p) => seq![1u8, player_byte(p)],
            PlayerEvent::GameDraw(_) => seq![2u8],
        }
    }

    open spec fn dec_spec(bytes: Seq<u8>) -> Option<Self> {
        if bytes.len() == 18 && bytes[0] == 0u8 && (bytes[1] == 0u8 || bytes[1] == 1u8) {
            let x = from_be64(bytes.subrange(2, 10));
            let y = from_be64(bytes.subrange(10, 18));
            if x <= usize::MAX && y <= usize::MAX {
                Some(
                    PlayerEvent::MoveMade(
                        Move {
                            player: if bytes[1] == 0u8 {
                                Player::X
                            } else {
                                Player::O
                            },
                            x: x as usize,
                            y: y as usize,
                        },
                    ),
                )
            } else {
                None
            }
        } else if bytes.len() == 2 && bytes[0] == 1u8 && (bytes[1] == 0u8 || bytes[1] == 1u8) {
            Some(
                PlayerEvent::GameWon(
                    if bytes[1] == 0u8 {
                        Player::X
                    } else {
                        Player::O
                    },
                ),
            )
        } else if bytes.len() == 1 && bytes[0] == 2u8 {
            Some(PlayerEvent::GameDraw(GameDraw))
        } else {
            None
        }
    }

    proof fn lemma_round_trip(self) {
        match self {
            PlayerEvent::MoveMade(m) => {
                let e = self.enc_spec();
                crate::codec::lemma_be64_round_trip(m.x as u64);
                crate::codec::lemma_be64_round_trip(m.y as u64);
                assert(e.len() == 18);
                assert(e.subrange(2, 10) =~= crate::codec::be64(m.x as u64));
                assert(e.subrange(10, 18) =~= crate::codec::be64(m.y as u64));
            },
            PlayerEvent::GameWon(p) => {
            },
            PlayerEvent::GameDraw(_) => {
            },
        }
    }

    proof fn lemma_enc_len(self) {
    }

    fn encode(&self) -> (r: Vec<u8>) {
        let mut v: Vec<u8> = Vec::new();
        match self {
            PlayerEvent::MoveMade(m) => {
                v.push(0u8);
                v.push(
                    match m.player {
                        Player::X => 0u8,
                        Player::O => 1u8,
                    },
                );
                push_be64(&mut v, m.x as u64);
                push_be64(&mut v, m.y as u64);
                proof {
                    assert(v@ =~= self.enc_spec());
                }
            },
            PlayerEvent::GameWon(p) => {
                v.push(1u8);
                v.push(
                    match p {
                        Player::X => 0u8,
                        Player::O => 1u8,
                    },
                );
                proof {
                    assert(v@ =~= self.enc_spec());
                }
            },
            PlayerEvent::GameDraw(_) => {
                v.push(2u8);
                proof {
                    assert(v@ =~= self.enc_spec());
                }
            },
        }
        v
    }

    fn decode(bytes: &[u8]) -> (r: Option<Self>) {
        let n = bytes.len();
        if n == 18 && bytes[0] == 0u8 && (bytes[1] == 0u8 || bytes[1] == 1u8) {
            let x = read_be64(bytes, 2);
            let y = read_be64(bytes, 10);
            if x <= usize::MAX as u64 && y <= usize::MAX as u64 {
                Some(
                    PlayerEvent::MoveMade(
                        Move {
                            player: if bytes[1] == 0u8 {
                                Player::X
                            } else {
                                Player::O
                            },
                            x: x as usize,
                            y: y as usize,
                        },
                    ),
                )
            } else {
                None
            }
        } else if n == 2 && bytes[0] == 1u8 && (bytes[1] == 0u8 || bytes[1] == 1u8) {
            Some(
                PlayerEvent::GameWon(
                    if bytes[1] == 0u8 {
                        Player::X
                    } else {
                        Player::O
                    },
                ),
            )
        } else if n == 1 && bytes[0] == 2u8 {
            Some(PlayerEvent::GameDraw(GameDraw))
        } else {
            None
        }
    }
}

impl Event<State> for PlayerEvent {
    open spec fn apply_spec(self, state: State) -> State {
        match self {
            PlayerEvent::MoveMade(m) => move_applied(m, state),
            PlayerEvent::GameWon(_) => State::initial_spec(),
            PlayerEvent::GameDraw(_) => State::initial_spec(),
        }
    }

    proof fn lemma_apply_wf(self, state: State) {
    }

    fn apply(&self, state: &State) -> (r: State) {
        match self {
            PlayerEvent::MoveMade(m) => {
                let b = place(&state.board, m.x, m.y, m.player);
                let w = find_winner(&b);
                let full = b.r0c0.is_some() && b.r0c1.is_some() && b.r0c2.is_some()
                    && b.r1c0.is_some() && b.r1c1.is_some() && b.r1c2.is_some()
                    && b.r2c0.is_some() && b.r2c1.is_some() && b.r2c2.is_some();
                proof {
                    lemma_board_full(b);
                }
                State {
                    board: b,
                    current: m.turn(),
                    winner: w,
                    draw: if w.is_some() {
                        false
                    } else {
                        full
                    },
                }
            },
            PlayerEvent::GameWon(_) => State::initial(),
            PlayerEvent::GameDraw(_) => State::initial(),
        }
    }

    fn duplicate(&self) -> Self {
        *self
    }
}

impl Command<State> for Move {
    type E = PlayerEvent;

    open spec fn validate_spec(self, state: State) -> bool {
        &&& !(self.x > 2 || self.y > 2)
        &&& cell(state.board, self.x as int, self.y as int) is None
        &&& self.player == state.current
    }

    open spec fn directive_ok(self, state: State) -> bool {
        true
    }

    open spec fn events_spec(self, state: State) -> Seq<PlayerEvent> {
        if state.winner is Some {
            seq![PlayerEvent::GameWon(state.winner.unwrap())]
        } else if state.draw {
            seq![PlayerEvent::GameDraw(GameDraw)]
        } else {
            seq![PlayerEvent::MoveMade(self)]
        }
    }

    open spec fn entity_spec(self) -> Seq<char> {
        "tictactoe::player::1"@
    }

    open spec fn name_spec(self) -> Seq<char> {
        "Move"@
    }

    fn validate(&self, state: &State) -> (r: Result<(), Error>) {
        if self.x > 2 || self.y > 2 {
            return Err(Error::new("Move is out of bounds"));
        }
        if cell_at(&state.board, self.x, self.y).is_some() {
            return Err(Error::new("Cell is already occupied"));
        }
        if !(self.player == state.current) {
            return Err(Error::new("It is not your turn"));
        }
        Ok(())
    }

    fn directive(&self, state: &State) -> (r: Result<NonEmptyVec<Box<PlayerEvent>>, Error>) {
        let nev = match state.winner {
            Some(w) => NonEmptyVec::one(Box::new(PlayerEvent::GameWon(w))),
            None => {
                if state.draw {
                    NonEmptyVec::one(Box::new(PlayerEvent::GameDraw(GameDraw)))
                } else {
                    NonEmptyVec::one(Box::new(PlayerEvent::MoveMade(*self)))
                }
            },
        };
        proof {
            assert(nev@.map(|i: int, e: Box<PlayerEvent>| *e) =~= self.events_spec(*state));
        }
        Ok(nev)
    }

    fn entity_id(&self) -> (r: String) {
        String::from_str("tictactoe::player::1")
    }

    fn name(&self) -> (r: String) {
        String::from_str("Move")
    }
}

impl Command<State> for PlayerCommand {
    type E = PlayerEvent;

    open spec fn validate_spec(self, state: State) -> bool {
        match self {
            PlayerCommand::MakeMove(m) => m.validate_spec(state),
        }
    }

    open spec fn directive_ok(self, state: State) -> bool {
        match self {
            PlayerCommand::MakeMove(m) => m.directive_ok(state),
        }
    }

    open spec fn events_spec(self, state: State) -> Seq<PlayerEvent> {
        match self {
            PlayerCommand::MakeMove(m) => m.events_spec(state),
        }
    }

    open spec fn entity_spec(self) -> Seq<char> {
        match self {
            PlayerCommand::MakeMove(m) => m.entity_spec(),
        }
    }

    open spec fn name_spec(self) -> Seq<char> {
        match self {
            PlayerCommand::MakeMove(m) => m.name_spec(),
        }
    }

    fn validate(&self, state: &State) -> (r: Result<(), Error>) {
        match self {
            PlayerCommand::MakeMove(m) => m.validate(state),
        }
    }

    fn directive(&self, state: &State) -> (r: Result<NonEmptyVec<Box<PlayerEvent>>, Error>) {
        match self {
            PlayerCommand::MakeMove(m) => m.directive(state),
        }
    }

    fn entity_id(&self) -> (r: String) {
        match self {
            PlayerCommand::MakeMove(m) => m.entity_id(),
        }
    }

    fn name(&self) -> (r: String) {
        match self {
            PlayerCommand::MakeMove(m) => m.name(),
        }
    }
}

} // verus!
