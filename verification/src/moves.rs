use vstd::prelude::*;
use crate::pieces::{Piece, PColors, ChessPiece};
use crate::notation::{Step, step, encode, encoded, texts, seq_join, move_text, join_strings};

verus! {

/// The board: eight rows of eight squares, indexed by row then column.
pub type Board = [[ChessPiece; 8]; 8];

/// The square (x, y) lies on the board.
pub open spec fn on_board(x: int, y: int) -> bool {
    0 <= x < 8 && 0 <= y < 8
}

/// What stands on square (x, y).
pub open spec fn at(b: Board, x: int, y: int) -> ChessPiece {
    b[x][y]
}

/// The moves of a sliding piece of side `color` standing on (ox, oy) that
/// follows the direction (dx, dy), from the square (cx, cy) on, with at most
/// `fuel` more squares: every free square is reached, and the slide stops at
/// the first occupied square, which is taken when it holds an opposing piece.
pub open spec fn ray(
    b: Board,
    color: PColors,
    ox: int,
    oy: int,
    cx: int,
    cy: int,
    dx: int,
    dy: int,
    fuel: nat,
) -> Seq<Step>
    decreases fuel,
{
    if fuel == 0 || !on_board(cx, cy) {
        Seq::<Step>::empty()
    } else if at(b, cx, cy).piece == Piece::EMPTY {
        seq![step(ox, oy, cx, cy)] + ray(b, color, ox, oy, cx + dx, cy + dy, dx, dy, (fuel - 1) as nat)
    } else if at(b, cx, cy).color != color {
        seq![step(ox, oy, cx, cy)]
    } else {
        Seq::<Step>::empty()
    }
}

/// The moves of a sliding piece on (x, y) in the direction (dx, dy).
pub open spec fn line(b: Board, color: PColors, x: int, y: int, dx: int, dy: int) -> Seq<Step> {
    ray(b, color, x, y, x + dx, y + dy, dx, dy, 7)
}

/// Moves along the four diagonals, in the order up-left, up-right,
/// down-left, down-right.
pub open spec fn diagonal_moves(b: Board, color: PColors, x: int, y: int) -> Seq<Step> {
    line(b, color, x, y, -1, -1) + line(b, color, x, y, -1, 1) + line(b, color, x, y, 1, -1)
        + line(b, color, x, y, 1, 1)
}

/// Moves along the row and the column, in the order up, down, left, right.
pub open spec fn straight_moves(b: Board, color: PColors, x: int, y: int) -> Seq<Step> {
    line(b, color, x, y, -1, 0) + line(b, color, x, y, 1, 0) + line(b, color, x, y, 0, -1)
        + line(b, color, x, y, 0, 1)
}

/// A king's step by (dx, dy): allowed onto a square of the board that is
/// free or holds an opposing piece.
pub open spec fn king_step(b: Board, color: PColors, x: int, y: int, dx: int, dy: int) -> Seq<Step> {
    if on_board(x + dx, y + dy) && (at(b, x + dx, y + dy).piece == Piece::EMPTY || at(
        b,
        x + dx,
        y + dy,
    ).color != color) {
        seq![step(x, y, x + dx, y + dy)]
    } else {
        Seq::<Step>::empty()
    }
}

/// The king's first four steps: the three squares of the row above, then
/// the square to the left.
pub open spec fn king_moves_before(b: Board, color: PColors, x: int, y: int) -> Seq<Step> {
    king_step(b, color, x, y, -1, -1) + king_step(b, color, x, y, -1, 0) + king_step(b, color, x, y, -1, 1)
        + king_step(b, color, x, y, 0, -1)
}

/// The king's last four steps: the square to the right, then the three
/// squares of the row below.
pub open spec fn king_moves_after(b: Board, color: PColors, x: int, y: int) -> Seq<Step> {
    king_step(b, color, x, y, 0, 1) + king_step(b, color, x, y, 1, -1) + king_step(b, color, x, y, 1, 0)
        + king_step(b, color, x, y, 1, 1)
}

/// The king's moves, row by row from the row above to the row below, left
/// to right.
pub open spec fn king_moves(b: Board, color: PColors, x: int, y: int) -> Seq<Step> {
    king_moves_before(b, color, x, y) + king_moves_after(b, color, x, y)
}

/// A knight's jump by (dx, dy): allowed onto any square of the board.
pub open spec fn knight_step(x: int, y: int, dx: int, dy: int) -> Seq<Step> {
    if on_board(x + dx, y + dy) {
        seq![step(x, y, x + dx, y + dy)]
    } else {
        Seq::<Step>::empty()
    }
}

/// The knight's jumps towards higher rows: (+2,+1), (+2,-1), (+1,+2), (+1,-2).
pub open spec fn knight_moves_down(x: int, y: int) -> Seq<Step> {
    knight_step(x, y, 2, 1) + knight_step(x, y, 2, -1) + knight_step(x, y, 1, 2) + knight_step(x, y, 1, -2)
}

/// The knight's jumps towards lower rows: (-2,+1), (-2,-1), (-1,+2), (-1,-2).
pub open spec fn knight_moves_up(x: int, y: int) -> Seq<Step> {
    knight_step(x, y, -2, 1) + knight_step(x, y, -2, -1) + knight_step(x, y, -1, 2) + knight_step(x, y, -1, -2)
}

/// The knight's jumps, in the order (+2,+1), (+2,-1), (+1,+2), (+1,-2),
/// (-2,+1), (-2,-1), (-1,+2), (-1,-2). A knight may land on any square of
/// the board, whatever stands there.
pub open spec fn knight_moves(x: int, y: int) -> Seq<Step> {
    knight_moves_down(x, y) + knight_moves_up(x, y)
}

/// The row direction a pawn walks in: white up, black down.
pub open spec fn pawn_dir(c: PColors) -> int {
    if c == PColors::WHITE { -1 } else { 1 }
}

/// The row a pawn starts on.
pub open spec fn start_rank(c: PColors) -> int {
    if c == PColors::WHITE { 6 } else { 1 }
}

/// The row on which a pawn is promoted.
pub open spec fn promotion_rank(c: PColors) -> int {
    if c == PColors::WHITE { 0 } else { 7 }
}

/// A pawn's advance: one square forward onto a free square (promoting on
/// the last row), and from its starting row a second square forward when
/// that one is free too.
pub open spec fn pawn_push(b: Board, color: PColors, x: int, y: int) -> Seq<Step> {
    let nx = x + pawn_dir(color);
    if on_board(nx, y) && at(b, nx, y).piece == Piece::EMPTY {
        seq![Step { fx: x, fy: y, tx: nx, ty: y, queen: nx == promotion_rank(color) }] + if x
            == start_rank(color) && at(b, x + 2 * pawn_dir(color), y).piece == Piece::EMPTY {
            seq![step(x, y, x + 2 * pawn_dir(color), y)]
        } else {
            Seq::<Step>::empty()
        }
    } else {
        Seq::<Step>::empty()
    }
}

/// A pawn's diagonal capture towards column y + dy: only onto an opposing
/// piece, promoting on the last row.
pub open spec fn pawn_capture(b: Board, color: PColors, x: int, y: int, dy: int) -> Seq<Step> {
    let nx = x + pawn_dir(color);
    if on_board(nx, y + dy) && at(b, nx, y + dy).piece != Piece::EMPTY && at(b, nx, y + dy).color
        != color {
        seq![Step { fx: x, fy: y, tx: nx, ty: y + dy, queen: nx == promotion_rank(color) }]
    } else {
        Seq::<Step>::empty()
    }
}

/// The pawn's moves: its advances, then its captures to the left and to
/// the right.
pub open spec fn pawn_moves(b: Board, color: PColors, x: int, y: int) -> Seq<Step> {
    pawn_push(b, color, x, y) + pawn_capture(b, color, x, y, -1) + pawn_capture(b, color, x, y, 1)
}

/// The moves of piece `p` standing on (x, y).
pub open spec fn piece_moves(b: Board, p: ChessPiece, x: int, y: int) -> Seq<Step> {
    match p.piece {
        Piece::KNIGHT => knight_moves(x, y),
        Piece::ROOK => straight_moves(b, p.color, x, y),
        Piece::QUEEN => straight_moves(b, p.color, x, y) + diagonal_moves(b, p.color, x, y),
        Piece::BISHOP => diagonal_moves(b, p.color, x, y),
        Piece::KING => king_moves(b, p.color, x, y),
        Piece::PAWN => pawn_moves(b, p.color, x, y),
        Piece::EMPTY => Seq::<Step>::empty(),
    }
}

/// The moves of piece `p` on (x, y), written out and separated by commas.
pub open spec fn move_list(b: Board, p: ChessPiece, x: int, y: int) -> Seq<char> {
    seq_join(encoded(piece_moves(b, p, x, y)), seq![','])
}

proof fn lemma_encoded_add(a: Seq<Step>, c: Seq<Step>)
    ensures
        encoded(a + c) == encoded(a) + encoded(c),
{
    assert(encoded(a + c) =~= encoded(a) + encoded(c));
}

proof fn lemma_push_text(v: Seq<String>, s: String)
    ensures
        texts(v.push(s)) == texts(v).push(s@),
{
    assert(texts(v.push(s)) =~= texts(v).push(s@));
}

proof fn lemma_encoded_push(a: Seq<Step>, s: Step)
    ensures
        encoded(a.push(s)) == encoded(a).push(encode(s)),
{
    assert(encoded(a.push(s)) =~= encoded(a).push(encode(s)));
}

/// Appends `s` to `moves`, keeping the written list in step with `done`.
fn push_move(moves: &mut Vec<String>, s: String, Ghost(done): Ghost<Seq<Step>>, Ghost(base): Ghost<Seq<Seq<char>>>, Ghost(st): Ghost<Step>)
    requires
        texts(old(moves)@) == base + encoded(done),
        s@ == encode(st),
    ensures
        texts(final(moves)@) == base + encoded(done.push(st)),
{
    proof {
        lemma_push_text(moves@, s);
        lemma_encoded_push(done, st);
        assert(base + encoded(done).push(encode(st)) =~= (base + encoded(done)).push(encode(st)));
    }
    moves.push(s);
}

impl ChessPiece {
    /// Appends the moves of a piece of this side sliding from (x, y) in the
    /// direction (dx, dy).
    fn push_line(&self, moves: &mut Vec<String>, x: usize, y: usize, dx: isize, dy: isize, board: &Board)
        requires
            x < 8,
            y < 8,
            -1 <= dx <= 1,
            -1 <= dy <= 1,
        ensures
            texts(final(moves)@) == texts(old(moves)@) + encoded(
                line(*board, self.color, x as int, y as int, dx as int, dy as int),
            ),
    {
        let ghost total = line(*board, self.color, x as int, y as int, dx as int, dy as int);
        let ghost base = texts(moves@);
        let ghost mut done: Seq<Step> = Seq::empty();
        let mut cx: isize = x as isize + dx;
        let mut cy: isize = y as isize + dy;
        let mut fuel: usize = 7;
        assert(encoded(done) =~= Seq::<Seq<char>>::empty());
        assert(base + encoded(done) =~= base);
        assert(done + total =~= total);
        loop
            invariant
                x < 8,
                y < 8,
                -1 <= dx <= 1,
                -1 <= dy <= 1,
                -1 <= cx <= 8,
                -1 <= cy <= 8,
                fuel <= 7,
                total == line(*board, self.color, x as int, y as int, dx as int, dy as int),
                done + ray(*board, self.color, x as int, y as int, cx as int, cy as int, dx as int, dy as int, fuel as nat) == total,
                texts(moves@) == base + encoded(done),
                base == texts(old(moves)@),
            decreases fuel,
        {
            if fuel == 0 || cx < 0 || cx >= 8 || cy < 0 || cy >= 8 {
                assert(done + Seq::<Step>::empty() =~= done);
                return ;
            }
            let t = board[cx as usize][cy as usize];
            let ghost st = step(x as int, y as int, cx as int, cy as int);
            if t.piece == Piece::EMPTY {
                let s = move_text(x, y, cx as usize, cy as usize, false);
                push_move(moves, s, Ghost(done), Ghost(base), Ghost(st));
                proof {
                    let rest = ray(*board, self.color, x as int, y as int, cx + dx, cy + dy, dx as int, dy as int, (fuel - 1) as nat);
                    assert(done.push(st) + rest =~= done + (seq![st] + rest));
                    done = done.push(st);
                }
                cx = cx + dx;
                cy = cy + dy;
                fuel = fuel - 1;
            } else {
                if t.color != self.color {
                    let s = move_text(x, y, cx as usize, cy as usize, false);
                    push_move(moves, s, Ghost(done), Ghost(base), Ghost(st));
                    assert(done.push(st) =~= done + seq![st]);
                } else {
                    assert(done + Seq::<Step>::empty() =~= done);
                }
                return ;
            }
        }
    }
}

/// Appends the single move of `part`, or nothing, to `moves`.
fn push_part(moves: &mut Vec<String>, s: String, Ghost(part): Ghost<Seq<Step>>, Ghost(st): Ghost<Step>)
    requires
        part == seq![st],
        s@ == encode(st),
    ensures
        texts(final(moves)@) == texts(old(moves)@) + encoded(part),
{
    proof {
        lemma_push_text(moves@, s);
        assert(encoded(part) =~= seq![encode(st)]);
        assert(texts(moves@).push(s@) =~= texts(moves@) + encoded(part));
    }
    moves.push(s);
}

proof fn lemma_nothing_pushed(v: Seq<String>)
    ensures
        texts(v) == texts(v) + encoded(Seq::<Step>::empty()),
{
    assert(texts(v) =~= texts(v) + encoded(Seq::<Step>::empty()));
}

/// Four parts written one after the other make the written concatenation.
proof fn lemma_chain4(base: Seq<Seq<char>>, a: Seq<Step>, b: Seq<Step>, c: Seq<Step>, d: Seq<Step>)
    ensures
        base + encoded(a) + encoded(b) + encoded(c) + encoded(d) == base + encoded(a + b + c + d),
{
    lemma_encoded_add(a, b);
    lemma_encoded_add(a + b, c);
    lemma_encoded_add(a + b + c, d);
    assert(base + encoded(a) + encoded(b) + encoded(c) + encoded(d) =~= base + encoded(a + b + c + d));
}

/// Two parts written one after the other make the written concatenation.
proof fn lemma_chain2(base: Seq<Seq<char>>, a: Seq<Step>, b: Seq<Step>)
    ensures
        base + encoded(a) + encoded(b) == base + encoded(a + b),
{
    lemma_encoded_add(a, b);
    assert(base + encoded(a) + encoded(b) =~= base + encoded(a + b));
}

impl ChessPiece {
    /// Appends the moves of a piece of this side sliding diagonally from (x, y).
    pub fn check_diagonal_moves(&self, moves: &mut Vec<String>, x: usize, y: usize, board: &Board)
        requires
            x < 8,
            y < 8,
        ensures
            texts(final(moves)@) == texts(old(moves)@) + encoded(
                diagonal_moves(*board, self.color, x as int, y as int),
            ),
    {
        let ghost base = texts(moves@);
        self.push_line(moves, x, y, -1, -1, board);
        self.push_line(moves, x, y, -1, 1, board);
        self.push_line(moves, x, y, 1, -1, board);
        self.push_line(moves, x, y, 1, 1, board);
        proof {
            let b = *board;
            let c = self.color;
            lemma_chain4(
                base,
                line(b, c, x as int, y as int, -1, -1),
                line(b, c, x as int, y as int, -1, 1),
                line(b, c, x as int, y as int, 1, -1),
                line(b, c, x as int, y as int, 1, 1),
            );
        }
    }

    /// Appends the moves of a piece of this side sliding along the row and the
    /// column of (x, y).
    pub fn check_straight_moves(&self, moves: &mut Vec<String>, x: usize, y: usize, board: &Board)
        requires
            x < 8,
            y < 8,
        ensures
            texts(final(moves)@) == texts(old(moves)@) + encoded(
                straight_moves(*board, self.color, x as int, y as int),
            ),
    {
        let ghost base = texts(moves@);
        self.push_line(moves, x, y, -1, 0, board);
        self.push_line(moves, x, y, 1, 0, board);
        self.push_line(moves, x, y, 0, -1, board);
        self.push_line(moves, x, y, 0, 1, board);
        proof {
            let b = *board;
            let c = self.color;
            lemma_chain4(
                base,
                line(b, c, x as int, y as int, -1, 0),
                line(b, c, x as int, y as int, 1, 0),
                line(b, c, x as int, y as int, 0, -1),
                line(b, c, x as int, y as int, 0, 1),
            );
        }
    }

    /// Appends the king's step by (dx, dy) when it is allowed.
    fn push_king_step(&self, moves: &mut Vec<String>, x: usize, y: usize, dx: isize, dy: isize, board: &Board)
        requires
            x < 8,
            y < 8,
            -1 <= dx <= 1,
            -1 <= dy <= 1,
        ensures
            texts(final(moves)@) == texts(old(moves)@) + encoded(
                king_step(*board, self.color, x as int, y as int, dx as int, dy as int),
            ),
    {
        let nx: isize = x as isize + dx;
        let ny: isize = y as isize + dy;
        if 0 <= nx && nx < 8 && 0 <= ny && ny < 8 {
            let target = board[nx as usize][ny as usize];
            if target.piece == Piece::EMPTY || target.color != self.color {
                let s = move_text(x, y, nx as usize, ny as usize, false);
                push_part(moves, s, Ghost(king_step(*board, self.color, x as int, y as int, dx as int, dy as int)), Ghost(step(x as int, y as int, nx as int, ny as int)));
                return ;
            }
        }
        proof {
            lemma_nothing_pushed(moves@);
        }
    }

    /// Appends the king's moves from (x, y).
    pub fn check_king_moves(&self, moves: &mut Vec<String>, x: usize, y: usize, board: &Board)
        requires
            x < 8,
            y < 8,
        ensures
            texts(final(moves)@) == texts(old(moves)@) + encoded(
                king_moves(*board, self.color, x as int, y as int),
            ),
    {
        let ghost base = texts(moves@);
        self.push_king_step(moves, x, y, -1, -1, board);
        self.push_king_step(moves, x, y, -1, 0, board);
        self.push_king_step(moves, x, y, -1, 1, board);
        self.push_king_step(moves, x, y, 0, -1, board);
        let ghost mid = texts(moves@);
        self.push_king_step(moves, x, y, 0, 1, board);
        self.push_king_step(moves, x, y, 1, -1, board);
        self.push_king_step(moves, x, y, 1, 0, board);
        self.push_king_step(moves, x, y, 1, 1, board);
        proof {
            let b = *board;
            let c = self.color;
            let (xi, yi) = (x as int, y as int);
            let k1 = king_moves_before(b, c, xi, yi);
            let k2 = king_moves_after(b, c, xi, yi);
            lemma_chain4(base, king_step(b, c, xi, yi, -1, -1), king_step(b, c, xi, yi, -1, 0), king_step(b, c, xi, yi, -1, 1), king_step(b, c, xi, yi, 0, -1));
            lemma_chain4(mid, king_step(b, c, xi, yi, 0, 1), king_step(b, c, xi, yi, 1, -1), king_step(b, c, xi, yi, 1, 0), king_step(b, c, xi, yi, 1, 1));
            lemma_chain2(base, k1, k2);
        }
    }

    /// Appends the pawn's diagonal capture towards column y + dy when it is
    /// allowed.
    fn push_pawn_capture(&self, moves: &mut Vec<String>, x: usize, y: usize, dy: isize, board: &Board)
        requires
            x < 8,
            y < 8,
            -1 <= dy <= 1,
        ensures
            texts(final(moves)@) == texts(old(moves)@) + encoded(
                pawn_capture(*board, self.color, x as int, y as int, dy as int),
            ),
    {
        let direction: isize = if self.color == PColors::WHITE { -1 } else { 1 };
        let promotion: isize = if self.color == PColors::WHITE { 0 } else { 7 };
        let nx: isize = x as isize + direction;
        let ny: isize = y as isize + dy;
        if 0 <= nx && nx < 8 && 0 <= ny && ny < 8 {
            let target = board[nx as usize][ny as usize];
            if target.piece != Piece::EMPTY && target.color != self.color {
                let s = move_text(x, y, nx as usize, ny as usize, nx == promotion);
                push_part(moves, s, Ghost(pawn_capture(*board, self.color, x as int, y as int, dy as int)), Ghost(Step { fx: x as int, fy: y as int, tx: nx as int, ty: ny as int, queen: nx == promotion }));
                return ;
            }
        }
        proof {
            lemma_nothing_pushed(moves@);
        }
    }

    /// Appends the pawn's moves from (x, y): its advances, then its captures.
    pub fn check_pawn_moves(&self, moves: &mut Vec<String>, x: usize, y: usize, board: &Board)
        requires
            x < 8,
            y < 8,
        ensures
            texts(final(moves)@) == texts(old(moves)@) + encoded(
                pawn_moves(*board, self.color, x as int, y as int),
            ),
    {
        let ghost base = texts(moves@);
        let ghost b = *board;
        let ghost c = self.color;
        let direction: isize = if self.color == PColors::WHITE { -1 } else { 1 };
        let start: usize = if self.color == PColors::WHITE { 6 } else { 1 };
        let promotion: isize = if self.color == PColors::WHITE { 0 } else { 7 };
        let nx: isize = x as isize + direction;
        if 0 <= nx && nx < 8 && board[nx as usize][y].piece == Piece::EMPTY {
            let ghost first = Step { fx: x as int, fy: y as int, tx: nx as int, ty: y as int, queen: nx == promotion };
            let s = move_text(x, y, nx as usize, y, nx == promotion);
            let ghost first_part = seq![first];
            push_part(moves, s, Ghost(first_part), Ghost(first));
            let ghost after_first = texts(moves@);
            if x == start {
                let x2: usize = (x as isize + 2 * direction) as usize;
                if board[x2][y].piece == Piece::EMPTY {
                    let ghost second = step(x as int, y as int, x2 as int, y as int);
                    let ghost second_part = seq![second];
                    push_part(moves, move_text(x, y, x2, y, false), Ghost(second_part), Ghost(second));
                    proof {
                        lemma_chain2(base, seq![first], seq![second]);
                    }
                } else {
                    proof {
                        lemma_nothing_pushed(moves@);
                        lemma_chain2(base, seq![first], Seq::<Step>::empty());
                    }
                }
            } else {
                proof {
                    lemma_nothing_pushed(moves@);
                    lemma_chain2(base, seq![first], Seq::<Step>::empty());
                }
            }
        } else {
            proof {
                lemma_nothing_pushed(moves@);
            }
        }
        let ghost mid = texts(moves@);
        self.push_pawn_capture(moves, x, y, -1, board);
        self.push_pawn_capture(moves, x, y, 1, board);
        proof {
            lemma_chain2(mid, pawn_capture(b, c, x as int, y as int, -1), pawn_capture(b, c, x as int, y as int, 1));
            lemma_chain4(base, pawn_push(b, c, x as int, y as int), pawn_capture(b, c, x as int, y as int, -1), pawn_capture(b, c, x as int, y as int, 1), Seq::<Step>::empty());
            assert(pawn_push(b, c, x as int, y as int) + pawn_capture(b, c, x as int, y as int, -1) + pawn_capture(b, c, x as int, y as int, 1) + Seq::<Step>::empty() =~= pawn_moves(b, c, x as int, y as int));
            lemma_nothing_pushed(moves@);
        }
    }
}

/// Appends the knight's jump by (dx, dy) when it lands on the board.
fn push_knight_step(moves: &mut Vec<String>, x: usize, y: usize, dx: isize, dy: isize)
    requires
        x < 8,
        y < 8,
        -2 <= dx <= 2,
        -2 <= dy <= 2,
    ensures
        texts(final(moves)@) == texts(old(moves)@) + encoded(knight_step(x as int, y as int, dx as int, dy as int)),
{
    let nx: isize = x as isize + dx;
    let ny: isize = y as isize + dy;
    if 0 <= nx && nx < 8 && 0 <= ny && ny < 8 {
        let s = move_text(x, y, nx as usize, ny as usize, false);
        push_part(moves, s, Ghost(knight_step(x as int, y as int, dx as int, dy as int)), Ghost(step(x as int, y as int, nx as int, ny as int)));
    } else {
        proof {
            lemma_nothing_pushed(moves@);
        }
    }
}

/// Appends the knight's jumps from (x, y).
fn push_knight_moves(moves: &mut Vec<String>, x: usize, y: usize)
    requires
        x < 8,
        y < 8,
    ensures
        texts(final(moves)@) == texts(old(moves)@) + encoded(knight_moves(x as int, y as int)),
{
    let ghost base = texts(moves@);
    let ghost (xi, yi) = (x as int, y as int);
    push_knight_step(moves, x, y, 2, 1);
    push_knight_step(moves, x, y, 2, -1);
    push_knight_step(moves, x, y, 1, 2);
    push_knight_step(moves, x, y, 1, -2);
    let ghost mid = texts(moves@);
    push_knight_step(moves, x, y, -2, 1);
    push_knight_step(moves, x, y, -2, -1);
    push_knight_step(moves, x, y, -1, 2);
    push_knight_step(moves, x, y, -1, -2);
    proof {
        lemma_chain4(base, knight_step(xi, yi, 2, 1), knight_step(xi, yi, 2, -1), knight_step(xi, yi, 1, 2), knight_step(xi, yi, 1, -2));
        lemma_chain4(mid, knight_step(xi, yi, -2, 1), knight_step(xi, yi, -2, -1), knight_step(xi, yi, -1, 2), knight_step(xi, yi, -1, -2));
        lemma_chain2(base, knight_moves_down(xi, yi), knight_moves_up(xi, yi));
    }
}

impl ChessPiece {
    /// The moves of this piece standing on (x, y), written out and separated
    /// by commas.
    pub fn move_get(&self, x: i32, y: i32, board: &Board) -> (res: String)
        requires
            0 <= x < 8,
            0 <= y < 8,
        ensures
            res@ == move_list(*board, *self, x as int, y as int),
    {
        let mut moves: Vec<String> = Vec::new();
        let ghost b = *board;
        let ghost (xi, yi) = (x as int, y as int);
        proof {
            assert(texts(moves@) =~= Seq::<Seq<char>>::empty());
        }
        let xu = x as usize;
        let yu = y as usize;
        match self.piece {
            Piece::KNIGHT => {
                push_knight_moves(&mut moves, xu, yu);
            },
            Piece::ROOK => {
                self.check_straight_moves(&mut moves, xu, yu, board);
            },
            Piece::QUEEN => {
                self.check_straight_moves(&mut moves, xu, yu, board);
                self.check_diagonal_moves(&mut moves, xu, yu, board);
                proof {
                    lemma_chain2(Seq::<Seq<char>>::empty(), straight_moves(b, self.color, xi, yi), diagonal_moves(b, self.color, xi, yi));
                }
            },
            Piece::BISHOP => {
                self.check_diagonal_moves(&mut moves, xu, yu, board);
            },
            Piece::KING => {
                self.check_king_moves(&mut moves, xu, yu, board);
            },
            Piece::PAWN => {
                self.check_pawn_moves(&mut moves, xu, yu, board);
            },
            Piece::EMPTY => {
                proof {
                    lemma_nothing_pushed(moves@);
                }
            },
        }
        proof {
            reveal_strlit(",");
            assert(","@ =~= seq![',']);
            assert(texts(moves@) =~= encoded(piece_moves(b, *self, xi, yi)));
        }
        join_strings(&moves, ",")
    }
}

} // verus!
