use vstd::prelude::*;
use crate::pieces::{Piece, PColors, ChessPiece};
use crate::notation::digit;
use crate::moves::{Board, on_board, at, move_list};
use crate::board::{first_hit, click_search_fits, same_layout, set_square, check_square_click};

verus! {

/// What the terminal reported, as far as the game reads it.
#[derive(Debug, Clone, Copy, PartialEq, Eq)]
pub enum UiEvent {
    /// A key event: whether it is a press (not a release or a repeat), and the
    /// character of the key when it is a character key.
    Key { pressed: bool, ch: Option<char> },
    /// A mouse event: whether it is the left button going down, and the
    /// terminal cell it happened on.
    Mouse { left_down: bool, column: u16, row: u16 },
    /// Anything else.
    Other,
}

/// The other side.
pub open spec fn other_side(c: PColors) -> PColors {
    match c {
        PColors::WHITE => PColors::BLACK,
        PColors::BLACK => PColors::WHITE,
    }
}

/// A selection is either none (-1) or the number of a square.
pub open spec fn valid_selection(from: i32) -> bool {
    from == -1 || 0 <= from < 64
}

/// `needle` occurs in `hay` as a contiguous run.
pub open spec fn contains_seq(hay: Seq<char>, needle: Seq<char>) -> bool {
    exists|i: int| 0 <= i && i + needle.len() <= hay.len() && #[trigger] hay.subrange(i, i + needle.len()) == needle
}

/// The two digits that write square number `k`, row then column.
pub open spec fn square_digits(k: int) -> Seq<char> {
    seq![digit(k / 8), digit(k % 8)]
}

/// A click on square `to`, with square `from` selected, is taken as a move
/// when `to` is a square other than `from` whose two digits occur somewhere
/// in the written move list `moves` of the selected piece. A click that
/// hits no square is never taken: the square it names is written with a
/// digit 8, which no move list holds.
pub open spec fn move_accepted(moves: Seq<char>, from: int, to: int) -> bool {
    0 <= to && to != from && contains_seq(moves, square_digits(to))
}

/// What a piece becomes on arriving on row `ti`: a pawn reaching the far row
/// becomes a queen.
pub open spec fn arrival_piece(p: ChessPiece, ti: int) -> Piece {
    if p.piece == Piece::PAWN && ((p.color == PColors::WHITE && ti == 0) || (p.color == PColors::BLACK
        && ti == 7)) {
        Piece::QUEEN
    } else {
        p.piece
    }
}

/// Board `b1` is `b0` after the piece on (fi, fj) moved to (ti, tj): the
/// target holds the arriving piece in the mover's colour, the origin is
/// free and black, every square keeps its place on the screen, and nothing
/// else changed.
pub open spec fn moved(b0: Board, b1: Board, fi: int, fj: int, ti: int, tj: int) -> bool {
    let p = at(b0, fi, fj);
    forall|a: int, c: int| on_board(a, c) ==> #[trigger] at(b1, a, c) == (if a == ti && c == tj {
        ChessPiece { piece: arrival_piece(p, ti), color: p.color, rec: at(b0, ti, tj).rec }
    } else if a == fi && c == fj {
        ChessPiece { piece: Piece::EMPTY, color: PColors::BLACK, rec: at(b0, fi, fj).rec }
    } else {
        at(b0, a, c)
    })
}

/// The state after a left click on the terminal cell (col, row), given the
/// state before it. The first click selects the square under the cursor
/// (or nothing) and clears the message. The second click clears the
/// selection and: shows "wrong color" when the selected square is not of
/// the side to move; else moves the piece and passes the turn when the
/// target is accepted, showing "true"; else shows the selected piece's move
/// list.
pub open spec fn click_outcome(
    turn0: PColors,
    b0: Board,
    from0: i32,
    turn1: PColors,
    b1: Board,
    msg1: Seq<char>,
    from1: i32,
    col: int,
    row: int,
) -> bool {
    let to = first_hit(b0, col, row);
    if from0 == -1 {
        &&& from1 == to
        &&& msg1 == Seq::<char>::empty()
        &&& b1 == b0
        &&& turn1 == turn0
    } else {
        let fi = from0 as int / 8;
        let fj = from0 as int % 8;
        let p = at(b0, fi, fj);
        let ml = move_list(b0, p, fi, fj);
        &&& from1 == -1
        &&& if p.color != turn0 {
            &&& msg1 == "wrong color"@
            &&& b1 == b0
            &&& turn1 == turn0
        } else if move_accepted(ml, from0 as int, to) {
            &&& msg1 == "true"@
            &&& moved(b0, b1, fi, fj, to / 8, to % 8)
            &&& turn1 == other_side(turn0)
        } else {
            &&& msg1 == ml
            &&& b1 == b0
            &&& turn1 == turn0
        }
    }
}

/// Whether `hay` holds the two characters `a`, `b` next to each other.
fn contains_pair(hay: &str, a: char, b: char) -> (res: bool)
    ensures
        res == contains_seq(hay@, seq![a, b]),
{
    let n = hay.unicode_len();
    if n < 2 {
        proof {
            assert forall|i: int| 0 <= i && i + 2 <= hay@.len() implies #[trigger] hay@.subrange(i, i + 2) != seq![a, b] by {
            }
        }
        return false;
    }
    let mut i: usize = 0;
    while i + 1 < n
        invariant
            n == hay@.len(),
            n >= 2,
            i + 1 <= n,
            forall|k: int| 0 <= k < i ==> #[trigger] hay@.subrange(k, k + 2) != seq![a, b],
        decreases n - i,
    {
        if hay.get_char(i) == a && hay.get_char(i + 1) == b {
            assert(hay@.subrange(i as int, i + 2) =~= seq![a, b]);
            return true;
        }
        assert(hay@.subrange(i as int, i + 2)[0] == hay@[i as int]);
        assert(hay@.subrange(i as int, i + 2)[1] == hay@[i + 1]);
        i = i + 1;
    }
    proof {
        let needle = seq![a, b];
        assert(needle.len() == 2);
    }
    false
}

/// The digit that writes a square coordinate.
fn coordinate_digit(d: usize) -> (c: char)
    requires
        d < 8,
    ensures
        c == digit(d as int),
{
    if d == 0 {
        '0'
    } else if d == 1 {
        '1'
    } else if d == 2 {
        '2'
    } else if d == 3 {
        '3'
    } else if d == 4 {
        '4'
    } else if d == 5 {
        '5'
    } else if d == 6 {
        '6'
    } else {
        '7'
    }
}

/// The game's answer to a left click on the terminal cell (col, row).
pub fn handle_click(
    turn: &mut PColors,
    board: &mut Board,
    message: &mut String,
    from: &mut i32,
    col: u16,
    row: u16,
)
    requires
        valid_selection(*old(from)),
        click_search_fits(*old(board), col as int, row as int),
    ensures
        valid_selection(*final(from)),
        same_layout(*old(board), *final(board)),
        click_outcome(
            *old(turn),
            *old(board),
            *old(from),
            *final(turn),
            *final(board),
            final(message)@,
            *final(from),
            col as int,
            row as int,
        ),
{
    *message = String::new();
    let to = check_square_click(board, col, row);
    if *from == -1 {
        *from = to;
        return ;
    }
    let f = *from;
    let fi = (f / 8) as usize;
    let fj = (f % 8) as usize;
    let selected = board[fi][fj];
    *message = selected.move_get(fi as i32, fj as i32, board);
    if selected.color != *turn {
        *message = String::from_str("wrong color");
    } else {
        let accepted = if 0 <= to && to != f {
            let ti = (to / 8) as usize;
            let tj = (to % 8) as usize;
            contains_pair(message.as_str(), coordinate_digit(ti), coordinate_digit(tj))
        } else {
            false
        };
        if accepted {
            let ti = (to / 8) as usize;
            let tj = (to % 8) as usize;
            *message = String::from_str("true");
            let arriving = if selected.piece == Piece::PAWN {
                if selected.color == PColors::WHITE && ti == 0 {
                    Piece::QUEEN
                } else if selected.color == PColors::BLACK && ti == 7 {
                    Piece::QUEEN
                } else {
                    selected.piece
                }
            } else {
                selected.piece
            };
            let target = board[ti][tj];
            set_square(
                board,
                ti,
                tj,
                ChessPiece { piece: arriving, color: selected.color, rec: target.rec },
            );
            let origin = board[fi][fj];
            set_square(
                board,
                fi,
                fj,
                ChessPiece { piece: Piece::EMPTY, color: PColors::BLACK, rec: origin.rec },
            );
            if *turn == PColors::WHITE {
                *turn = PColors::BLACK;
            } else {
                *turn = PColors::WHITE;
            }
        }
    }
    *from = -1;
}

/// The game's answer to one event: whether the game ends. A press of `q`
/// ends it; a left click goes to `handle_click`; nothing else changes the
/// game.
pub fn handle_events(
    turn: &mut PColors,
    board: &mut Board,
    message: &mut String,
    from: &mut i32,
    event: UiEvent,
) -> (quit: bool)
    requires
        event matches UiEvent::Mouse { left_down, column, row } ==> (left_down ==> valid_selection(*old(from))
            && click_search_fits(*old(board), column as int, row as int)),
    ensures
        valid_selection(*old(from)) ==> valid_selection(*final(from)),
        same_layout(*old(board), *final(board)),
        quit == (event matches UiEvent::Key { pressed, ch } && pressed && ch == Some('q')),
        event matches UiEvent::Mouse { left_down, column, row } ==> (left_down ==> click_outcome(
            *old(turn),
            *old(board),
            *old(from),
            *final(turn),
            *final(board),
            final(message)@,
            *final(from),
            column as int,
            row as int,
        )),
        !(event matches UiEvent::Mouse { left_down, .. } && left_down) ==> {
            &&& *final(turn) == *old(turn)
            &&& *final(board) == *old(board)
            &&& final(message)@ == old(message)@
            &&& *final(from) == *old(from)
        },
{
    match event {
        UiEvent::Key { pressed, ch } => {
            if !pressed {
                return false;
            }
            match ch {
                Some(c) => c == 'q',
                None => false,
            }
        },
        UiEvent::Mouse { left_down, column, row } => {
            if left_down {
                handle_click(turn, board, message, from, column, row);
            }
            false
        },
        UiEvent::Other => false,
    }
}

} // verus!
