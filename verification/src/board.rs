use vstd::prelude::*;
use crate::pieces::{Piece, PColors, ChessPiece, Rect, TermColor};
use crate::moves::{Board, on_board, at};

verus! {

/// The piece that starts on row x, column y.
pub open spec fn home_piece(x: int, y: int) -> Piece {
    if x == 1 || x == 6 {
        Piece::PAWN
    } else if x == 0 || x == 7 {
        if y == 0 || y == 7 {
            Piece::ROOK
        } else if y == 1 || y == 6 {
            Piece::KNIGHT
        } else if y == 2 || y == 5 {
            Piece::BISHOP
        } else if y == 3 {
            Piece::QUEEN
        } else if y == 4 {
            Piece::KING
        } else {
            Piece::EMPTY
        }
    } else {
        Piece::EMPTY
    }
}

/// The side that row x belongs to at the start: the two top rows are black,
/// every other row white.
pub open spec fn home_color(x: int) -> PColors {
    if x < 2 {
        PColors::BLACK
    } else {
        PColors::WHITE
    }
}

/// Where square (i, j) is drawn: seven cells wide, four high, the board's
/// corner at column 5, row 5 of the terminal.
pub open spec fn home_rect(i: int, j: int) -> Rect {
    Rect { x: (5 + 7 * j) as u16, y: (5 + 4 * i) as u16, width: 7, height: 4 }
}

/// Square (i, j) of the board at the start of a game.
pub open spec fn initial_square(i: int, j: int) -> ChessPiece {
    ChessPiece { piece: home_piece(i, j), color: home_color(i), rec: home_rect(i, j) }
}

/// The board holds the starting position.
pub open spec fn is_initial(b: Board) -> bool {
    forall|i: int, j: int| on_board(i, j) ==> #[trigger] at(b, i, j) == initial_square(i, j)
}

/// The terminal cell (x, y) lies inside `r`.
pub open spec fn within(r: Rect, x: int, y: int) -> bool {
    r.x <= x < r.x + r.width && r.y <= y < r.y + r.height
}

/// The sums that testing whether (x, y) lies inside `r` computes fit in a
/// `u16`: the right edge once the cell is right of the left edge, the
/// bottom edge once the cell is inside the columns and below the top edge.
pub open spec fn click_fits(r: Rect, x: int, y: int) -> bool {
    &&& x >= r.x ==> r.x + r.width <= u16::MAX
    &&& (x >= r.x && x < r.x + r.width && y >= r.y) ==> r.y + r.height <= u16::MAX
}

/// The rectangle of square number k, squares being numbered row by row.
pub open spec fn cell_rect(b: Board, k: int) -> Rect {
    at(b, k / 8, k % 8).rec
}

/// No square numbered below k contains the cell (x, y).
pub open spec fn no_hit_before(b: Board, k: int, x: int, y: int) -> bool {
    forall|m: int| 0 <= m < k ==> !within(#[trigger] cell_rect(b, m), x, y)
}

/// The number of the first square, from number k on, whose rectangle
/// contains the cell (x, y); -1 when there is none.
pub open spec fn hit_from(b: Board, k: int, x: int, y: int) -> int
    decreases 64 - k,
{
    if k >= 64 {
        -1
    } else if within(cell_rect(b, k), x, y) {
        k
    } else {
        hit_from(b, k + 1, x, y)
    }
}

/// The number of the first square, row by row, whose rectangle contains the
/// cell (x, y); -1 when there is none.
pub open spec fn first_hit(b: Board, x: int, y: int) -> int {
    hit_from(b, 0, x, y)
}

/// Every rectangle that a search for the cell (x, y) tests, in order, can
/// be tested without overflow.
pub open spec fn click_search_fits(b: Board, x: int, y: int) -> bool {
    forall|k: int| 0 <= k < 64 && no_hit_before(b, k, x, y) ==> click_fits(#[trigger] cell_rect(b, k), x, y)
}

/// The background of square (i, j): the squares alternate, the top-left one
/// being black.
pub open spec fn square_shade_spec(i: int, j: int) -> TermColor {
    if (i * 8 + (j + i % 2)) % 2 == 1 {
        TermColor::White
    } else {
        TermColor::Black
    }
}

/// The piece that starts on row x, column y.
pub fn get_piece(x: u16, y: u16) -> (p: Piece)
    ensures
        p == home_piece(x as int, y as int),
{
    if x == 1 || x == 6 {
        Piece::PAWN
    } else if x == 0 || x == 7 {
        if y == 0 || y == 7 {
            Piece::ROOK
        } else if y == 1 || y == 6 {
            Piece::KNIGHT
        } else if y == 2 || y == 5 {
            Piece::BISHOP
        } else if y == 3 {
            Piece::QUEEN
        } else if y == 4 {
            Piece::KING
        } else {
            Piece::EMPTY
        }
    } else {
        Piece::EMPTY
    }
}

/// The side that row x belongs to at the start.
pub fn get_color(x: u16) -> (c: PColors)
    ensures
        c == home_color(x as int),
{
    if x < 2 {
        PColors::BLACK
    } else {
        PColors::WHITE
    }
}

/// Every square of `b1` is drawn where the same square of `b0` is.
pub open spec fn same_layout(b0: Board, b1: Board) -> bool {
    forall|a: int, c: int| on_board(a, c) ==> #[trigger] at(b1, a, c).rec == at(b0, a, c).rec
}

/// Board `b1` is `b0` with square (i, j) replaced by `cell`.
pub open spec fn replaced(b0: Board, b1: Board, i: int, j: int, cell: ChessPiece) -> bool {
    forall|a: int, c: int| on_board(a, c) ==> #[trigger] at(b1, a, c) == (if a == i && c == j {
        cell
    } else {
        at(b0, a, c)
    })
}

/// Puts `cell` on square (i, j).
pub fn set_square(board: &mut Board, i: usize, j: usize, cell: ChessPiece)
    requires
        i < 8,
        j < 8,
    ensures
        replaced(*old(board), *final(board), i as int, j as int, cell),
{
    let mut row_cells = board[i];
    row_cells[j] = cell;
    board[i] = row_cells;
    assert forall|a: int, c: int| on_board(a, c) implies #[trigger] at(*board, a, c) == (if a == i && c == j {
        cell
    } else {
        at(*old(board), a, c)
    }) by {
        broadcast use vstd::array::group_array_axioms;
    }
}

/// Sets up the starting position, with every square's place on the screen.
pub fn init_board(board: &mut Board)
    ensures
        is_initial(*final(board)),
{
    for i in 0..8u16
        invariant
            forall|a: int, c: int| 0 <= a < i && 0 <= c < 8 ==> #[trigger] at(*board, a, c) == initial_square(a, c),
    {
        for j in 0..8u16
            invariant
                0 <= i < 8,
                forall|a: int, c: int| 0 <= a < i && 0 <= c < 8 ==> #[trigger] at(*board, a, c) == initial_square(a, c),
                forall|c: int| 0 <= c < j ==> #[trigger] at(*board, i as int, c) == initial_square(i as int, c),
        {
            let x: u16 = 5 + (7 * j) as u16;
            let y: u16 = 5 + (i * 4) as u16;
            let width: u16 = 7;
            let height: u16 = 4;
            let cell = ChessPiece {
                piece: get_piece(i, j),
                color: get_color(i),
                rec: Rect { x: x, y: y, width: width, height: height },
            };
            assert(cell == initial_square(i as int, j as int));
            set_square(board, i as usize, j as usize, cell);
        }
    }
}

/// The terminal cell (x, y) lies inside `rect`.
pub fn in_square(rect: Rect, x: u16, y: u16) -> (res: bool)
    requires
        click_fits(rect, x as int, y as int),
    ensures
        res == within(rect, x as int, y as int),
{
    x >= rect.x && x < rect.x + rect.width && y >= rect.y && y < rect.y + rect.height
}

/// The number (row times eight plus column) of the first square, row by
/// row, whose rectangle contains the terminal cell (col, row); -1 when no
/// square does.
pub fn check_square_click(board: &Board, col: u16, row: u16) -> (res: i32)
    requires
        click_search_fits(*board, col as int, row as int),
    ensures
        res == first_hit(*board, col as int, row as int),
        -1 <= res < 64,
        res == -1 <==> no_hit_before(*board, 64, col as int, row as int),
        res >= 0 ==> within(cell_rect(*board, res as int), col as int, row as int)
            && no_hit_before(*board, res as int, col as int, row as int),
{
    for i in 0..8usize
        invariant
            click_search_fits(*board, col as int, row as int),
            no_hit_before(*board, (i * 8) as int, col as int, row as int),
            first_hit(*board, col as int, row as int) == hit_from(*board, (i * 8) as int, col as int, row as int),
    {
        for j in 0..8usize
            invariant
                0 <= i < 8,
                click_search_fits(*board, col as int, row as int),
                no_hit_before(*board, (i * 8 + j) as int, col as int, row as int),
                first_hit(*board, col as int, row as int) == hit_from(*board, (i * 8 + j) as int, col as int, row as int),
        {
            let k = i * 8 + j;
            assert(k / 8 == i && k % 8 == j);
            assert(click_fits(cell_rect(*board, k as int), col as int, row as int));
            if in_square(board[i][j].rec, col, row) {
                return k as i32;
            }
            assert forall|m: int| 0 <= m < k + 1 implies !within(#[trigger] cell_rect(*board, m), col as int, row as int) by {
                if m < k {
                } else {
                    assert(m == k);
                }
            }
        }
    }
    -1
}

/// The background colour of square (i, j).
pub fn square_shade(i: usize, j: usize) -> (c: TermColor)
    requires
        i < 8,
        j < 8,
    ensures
        c == square_shade_spec(i as int, j as int),
{
    if (i * 8 + (j + i % 2)) % 2 == 1 {
        TermColor::White
    } else {
        TermColor::Black
    }
}

} // verus!
