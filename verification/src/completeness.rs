use vstd::prelude::*;
use crate::pieces::{Piece, PColors, ChessPiece};
use crate::notation::{Step, step};
use crate::moves::{
    Board, on_board, at, ray, line, piece_moves, straight_moves, diagonal_moves, king_step,
    king_moves_before, king_moves_after, knight_step, knight_moves_down, knight_moves_up,
    pawn_push, pawn_capture,
};

verus! {

/// The coordinate k squares away from `o` in the direction `d` (-1, 0 or 1).
pub open spec fn along(o: int, d: int, k: int) -> int {
    if d > 0 {
        o + k
    } else if d < 0 {
        o - k
    } else {
        o
    }
}

/// A piece of side `c` may land on (tx, ty): the square is free or holds a
/// piece of the other side.
pub open spec fn open_target(b: Board, c: PColors, tx: int, ty: int) -> bool {
    at(b, tx, ty).piece == Piece::EMPTY || at(b, tx, ty).color != c
}

/// The square k steps from (x, y) in the direction (dx, dy) is on the board
/// and every square strictly between is free.
pub open spec fn clear_path(b: Board, x: int, y: int, dx: int, dy: int, k: int) -> bool {
    &&& 1 <= k
    &&& on_board(along(x, dx, k), along(y, dy, k))
    &&& forall|m: int| 1 <= m < k ==> #[trigger] at(b, along(x, dx, m), along(y, dy, m)).piece == Piece::EMPTY
}

proof fn lemma_contains_add(a: Seq<Step>, c: Seq<Step>, s: Step)
    ensures
        (a.contains(s) || c.contains(s)) ==> (a + c).contains(s),
{
    if a.contains(s) {
        let i = choose|i: int| 0 <= i < a.len() && a[i] == s;
        assert((a + c)[i] == s);
    } else if c.contains(s) {
        let i = choose|i: int| 0 <= i < c.len() && c[i] == s;
        assert((a + c)[a.len() + i] == s);
    }
}

proof fn lemma_ray_complete(b: Board, c: PColors, ox: int, oy: int, dx: int, dy: int, j: int, k: int)
    requires
        on_board(ox, oy),
        -1 <= dx <= 1,
        -1 <= dy <= 1,
        dx != 0 || dy != 0,
        1 <= j <= k,
        on_board(along(ox, dx, k), along(oy, dy, k)),
        forall|m: int| j <= m < k ==> #[trigger] at(b, along(ox, dx, m), along(oy, dy, m)).piece == Piece::EMPTY,
        open_target(b, c, along(ox, dx, k), along(oy, dy, k)),
    ensures
        ray(b, c, ox, oy, along(ox, dx, j), along(oy, dy, j), dx, dy, (8 - j) as nat).contains(
            step(ox, oy, along(ox, dx, k), along(oy, dy, k)),
        ),
    decreases k - j,
{
    let r = ray(b, c, ox, oy, along(ox, dx, j), along(oy, dy, j), dx, dy, (8 - j) as nat);
    let target = step(ox, oy, along(ox, dx, k), along(oy, dy, k));
    assert(k <= 7);
    assert(on_board(along(ox, dx, j), along(oy, dy, j)));
    if j == k {
        assert(r[0] == target);
    } else {
        assert(at(b, along(ox, dx, j), along(oy, dy, j)).piece == Piece::EMPTY);
        assert(along(ox, dx, j) + dx == along(ox, dx, j + 1));
        assert(along(oy, dy, j) + dy == along(oy, dy, j + 1));
        lemma_ray_complete(b, c, ox, oy, dx, dy, j + 1, k);
        let rest = ray(b, c, ox, oy, along(ox, dx, j + 1), along(oy, dy, j + 1), dx, dy, (8 - (j + 1)) as nat);
        assert(r == seq![step(ox, oy, along(ox, dx, j), along(oy, dy, j))] + rest);
        lemma_contains_add(seq![step(ox, oy, along(ox, dx, j), along(oy, dy, j))], rest, target);
    }
}

proof fn lemma_line_complete(b: Board, c: PColors, x: int, y: int, dx: int, dy: int, k: int)
    requires
        on_board(x, y),
        -1 <= dx <= 1,
        -1 <= dy <= 1,
        dx != 0 || dy != 0,
        clear_path(b, x, y, dx, dy, k),
        open_target(b, c, along(x, dx, k), along(y, dy, k)),
    ensures
        line(b, c, x, y, dx, dy).contains(step(x, y, along(x, dx, k), along(y, dy, k))),
{
    assert(along(x, dx, 1) == x + dx && along(y, dy, 1) == y + dy);
    lemma_ray_complete(b, c, x, y, dx, dy, 1, k);
}

/// A bishop or a queen lists every diagonal slide it can make: for each of
/// the four diagonals and each distance k, when the square k steps away is
/// on the board, every square before it is free, and it is free or holds an
/// opposing piece, the move there is listed.
pub proof fn lemma_diagonal_slides_complete(b: Board, p: ChessPiece, x: int, y: int, dx: int, dy: int, k: int)
    requires
        on_board(x, y),
        p.piece == Piece::BISHOP || p.piece == Piece::QUEEN,
        dx == 1 || dx == -1,
        dy == 1 || dy == -1,
        clear_path(b, x, y, dx, dy, k),
        open_target(b, p.color, along(x, dx, k), along(y, dy, k)),
    ensures
        piece_moves(b, p, x, y).contains(step(x, y, along(x, dx, k), along(y, dy, k))),
{
    let c = p.color;
    let s = step(x, y, along(x, dx, k), along(y, dy, k));
    lemma_line_complete(b, c, x, y, dx, dy, k);
    let l1 = line(b, c, x, y, -1, -1);
    let l2 = line(b, c, x, y, -1, 1);
    let l3 = line(b, c, x, y, 1, -1);
    let l4 = line(b, c, x, y, 1, 1);
    lemma_contains_add(l1, l2, s);
    lemma_contains_add(l1 + l2, l3, s);
    lemma_contains_add(l1 + l2 + l3, l4, s);
    assert(diagonal_moves(b, c, x, y).contains(s));
    lemma_contains_add(straight_moves(b, c, x, y), diagonal_moves(b, c, x, y), s);
}

/// A rook or a queen lists every straight slide it can make: for each of the
/// four directions along its row and column and each distance k, when the
/// square k steps away is on the board, every square before it is free, and
/// it is free or holds an opposing piece, the move there is listed.
pub proof fn lemma_straight_slides_complete(b: Board, p: ChessPiece, x: int, y: int, dx: int, dy: int, k: int)
    requires
        on_board(x, y),
        p.piece == Piece::ROOK || p.piece == Piece::QUEEN,
        (dx == 0 && (dy == 1 || dy == -1)) || (dy == 0 && (dx == 1 || dx == -1)),
        clear_path(b, x, y, dx, dy, k),
        open_target(b, p.color, along(x, dx, k), along(y, dy, k)),
    ensures
        piece_moves(b, p, x, y).contains(step(x, y, along(x, dx, k), along(y, dy, k))),
{
    let c = p.color;
    let s = step(x, y, along(x, dx, k), along(y, dy, k));
    lemma_line_complete(b, c, x, y, dx, dy, k);
    let l1 = line(b, c, x, y, -1, 0);
    let l2 = line(b, c, x, y, 1, 0);
    let l3 = line(b, c, x, y, 0, -1);
    let l4 = line(b, c, x, y, 0, 1);
    lemma_contains_add(l1, l2, s);
    lemma_contains_add(l1 + l2, l3, s);
    lemma_contains_add(l1 + l2 + l3, l4, s);
    assert(straight_moves(b, c, x, y).contains(s));
    lemma_contains_add(straight_moves(b, c, x, y), diagonal_moves(b, c, x, y), s);
}

/// Whoever contains `s` among four lists, their concatenation does.
proof fn lemma_contains_add4(a1: Seq<Step>, a2: Seq<Step>, a3: Seq<Step>, a4: Seq<Step>, s: Step)
    ensures
        (a1.contains(s) || a2.contains(s) || a3.contains(s) || a4.contains(s)) ==> (a1 + a2 + a3 + a4).contains(s),
{
    lemma_contains_add(a1, a2, s);
    lemma_contains_add(a1 + a2, a3, s);
    lemma_contains_add(a1 + a2 + a3, a4, s);
}

/// A king lists the step to each of its eight neighbouring squares that is
/// on the board and free or holds an opposing piece.
pub proof fn lemma_king_steps_complete(b: Board, p: ChessPiece, x: int, y: int, dx: int, dy: int)
    requires
        on_board(x, y),
        p.piece == Piece::KING,
        -1 <= dx <= 1,
        -1 <= dy <= 1,
        dx != 0 || dy != 0,
        on_board(x + dx, y + dy),
        open_target(b, p.color, x + dx, y + dy),
    ensures
        piece_moves(b, p, x, y).contains(step(x, y, x + dx, y + dy)),
{
    let c = p.color;
    let s = step(x, y, x + dx, y + dy);
    assert(king_step(b, c, x, y, dx, dy)[0] == s);
    lemma_contains_add4(
        king_step(b, c, x, y, -1, -1),
        king_step(b, c, x, y, -1, 0),
        king_step(b, c, x, y, -1, 1),
        king_step(b, c, x, y, 0, -1),
        s,
    );
    lemma_contains_add4(
        king_step(b, c, x, y, 0, 1),
        king_step(b, c, x, y, 1, -1),
        king_step(b, c, x, y, 1, 0),
        king_step(b, c, x, y, 1, 1),
        s,
    );
    lemma_contains_add(king_moves_before(b, c, x, y), king_moves_after(b, c, x, y), s);
}

/// A knight lists every jump of two squares one way and one square the
/// other that lands on the board, whatever stands there.
pub proof fn lemma_knight_jumps_complete(b: Board, p: ChessPiece, x: int, y: int, dx: int, dy: int)
    requires
        on_board(x, y),
        p.piece == Piece::KNIGHT,
        ((dx == 1 || dx == -1) && (dy == 2 || dy == -2)) || ((dx == 2 || dx == -2) && (dy == 1 || dy == -1)),
        on_board(x + dx, y + dy),
    ensures
        piece_moves(b, p, x, y).contains(step(x, y, x + dx, y + dy)),
{
    let s = step(x, y, x + dx, y + dy);
    assert(knight_step(x, y, dx, dy)[0] == s);
    lemma_contains_add4(knight_step(x, y, 2, 1), knight_step(x, y, 2, -1), knight_step(x, y, 1, 2), knight_step(x, y, 1, -2), s);
    lemma_contains_add4(knight_step(x, y, -2, 1), knight_step(x, y, -2, -1), knight_step(x, y, -1, 2), knight_step(x, y, -1, -2), s);
    lemma_contains_add(knight_moves_down(x, y), knight_moves_up(x, y), s);
}

/// The moves a pawn of side `c` on (x, y) is entitled to: white walks up
/// (towards row 0), starts on row 6 and promotes on row 0; black walks down,
/// starts on row 1 and promotes on row 7. A move is one step forward onto a
/// free square, two steps forward from the starting row over a free square
/// onto a free square, or one step diagonally forward onto an opposing
/// piece; a move onto the promotion row, and only such a move, is marked
/// as a promotion.
pub open spec fn pawn_entitled(b: Board, c: PColors, x: int, y: int, s: Step) -> bool {
    let dir: int = if c == PColors::WHITE { -1 } else { 1 };
    let start: int = if c == PColors::WHITE { 6 } else { 1 };
    let last: int = if c == PColors::WHITE { 0 } else { 7 };
    &&& s.fx == x && s.fy == y
    &&& on_board(s.tx, s.ty)
    &&& s.queen == (s.tx == last)
    &&& {
        ||| (s.tx == x + dir && s.ty == y && at(b, s.tx, s.ty).piece == Piece::EMPTY)
        ||| (s.tx == x + 2 * dir && s.ty == y && x == start && at(b, x + dir, y).piece == Piece::EMPTY
            && at(b, s.tx, s.ty).piece == Piece::EMPTY)
        ||| (s.tx == x + dir && (s.ty == y - 1 || s.ty == y + 1) && at(b, s.tx, s.ty).piece != Piece::EMPTY
            && at(b, s.tx, s.ty).color != c)
    }
}

proof fn lemma_sound_add(b: Board, c: PColors, x: int, y: int, m1: Seq<Step>, m2: Seq<Step>)
    requires
        forall|k: int| 0 <= k < m1.len() ==> pawn_entitled(b, c, x, y, #[trigger] m1[k]),
        forall|k: int| 0 <= k < m2.len() ==> pawn_entitled(b, c, x, y, #[trigger] m2[k]),
    ensures
        forall|k: int| 0 <= k < (m1 + m2).len() ==> pawn_entitled(b, c, x, y, #[trigger] (m1 + m2)[k]),
{
    assert forall|k: int| 0 <= k < (m1 + m2).len() implies pawn_entitled(b, c, x, y, #[trigger] (m1 + m2)[k]) by {
        if k >= m1.len() {
            assert((m1 + m2)[k] == m2[k - m1.len()]);
        }
    }
}

/// Every move listed for a pawn is one it is entitled to: in particular a
/// pawn never passes over an occupied square, never takes straight ahead
/// and never takes a piece of its own side.
pub proof fn lemma_pawn_moves_sound(b: Board, p: ChessPiece, x: int, y: int)
    requires
        on_board(x, y),
        p.piece == Piece::PAWN,
    ensures
        forall|k: int| 0 <= k < piece_moves(b, p, x, y).len() ==> pawn_entitled(b, p.color, x, y, #[trigger] piece_moves(b, p, x, y)[k]),
{
    let c = p.color;
    let push = pawn_push(b, c, x, y);
    let left = pawn_capture(b, c, x, y, -1);
    let right = pawn_capture(b, c, x, y, 1);
    assert forall|k: int| 0 <= k < push.len() implies pawn_entitled(b, c, x, y, #[trigger] push[k]) by {
        let dir: int = if c == PColors::WHITE { -1 } else { 1 };
        let nx = x + dir;
        let tail = if x == (if c == PColors::WHITE { 6int } else { 1int }) && at(b, x + 2 * dir, y).piece == Piece::EMPTY {
            seq![step(x, y, x + 2 * dir, y)]
        } else {
            Seq::<Step>::empty()
        };
        assert(push == seq![Step { fx: x, fy: y, tx: nx, ty: y, queen: nx == (if c == PColors::WHITE { 0int } else { 7int }) }] + tail);
        if k > 0 {
            assert(push[k] == tail[k - 1]);
        }
    }
    assert forall|k: int| 0 <= k < left.len() implies pawn_entitled(b, c, x, y, #[trigger] left[k]) by {}
    assert forall|k: int| 0 <= k < right.len() implies pawn_entitled(b, c, x, y, #[trigger] right[k]) by {}
    lemma_sound_add(b, c, x, y, push, left);
    lemma_sound_add(b, c, x, y, push + left, right);
}

/// A pawn lists every move it is entitled to.
pub proof fn lemma_pawn_moves_complete(b: Board, p: ChessPiece, x: int, y: int, s: Step)
    requires
        on_board(x, y),
        p.piece == Piece::PAWN,
        pawn_entitled(b, p.color, x, y, s),
    ensures
        piece_moves(b, p, x, y).contains(s),
{
    let c = p.color;
    let dir: int = if c == PColors::WHITE { -1 } else { 1 };
    let push = pawn_push(b, c, x, y);
    let left = pawn_capture(b, c, x, y, -1);
    let right = pawn_capture(b, c, x, y, 1);
    let nx = x + dir;
    if s.tx == nx && s.ty == y && at(b, s.tx, s.ty).piece == Piece::EMPTY {
        assert(push[0] == s);
        assert(push.contains(s));
    } else if s.tx == x + 2 * dir && s.ty == y {
        assert(push[1] == s);
        assert(push.contains(s));
    } else if s.ty == y - 1 {
        assert(left[0] == s);
        assert(left.contains(s));
    } else {
        assert(right[0] == s);
        assert(right.contains(s));
    }
    lemma_contains_add(push, left, s);
    lemma_contains_add(push + left, right, s);
}

/// Move `s` is a slide of a piece of side `c` from (x, y) in the direction
/// (dx, dy): it goes some k squares that way over free squares only, onto a
/// square that is free or holds an opposing piece.
pub open spec fn slide_move(b: Board, c: PColors, x: int, y: int, dx: int, dy: int, s: Step) -> bool {
    exists|k: int| #[trigger] clear_path(b, x, y, dx, dy, k) && open_target(b, c, along(x, dx, k), along(y, dy, k))
        && s == step(x, y, along(x, dx, k), along(y, dy, k))
}

/// Move `s` is a slide along one of the four diagonals.
pub open spec fn diagonal_slide(b: Board, c: PColors, x: int, y: int, s: Step) -> bool {
    ||| slide_move(b, c, x, y, -1, -1, s)
    ||| slide_move(b, c, x, y, -1, 1, s)
    ||| slide_move(b, c, x, y, 1, -1, s)
    ||| slide_move(b, c, x, y, 1, 1, s)
}

/// Move `s` is a slide along the row or the column.
pub open spec fn straight_slide(b: Board, c: PColors, x: int, y: int, s: Step) -> bool {
    ||| slide_move(b, c, x, y, -1, 0, s)
    ||| slide_move(b, c, x, y, 1, 0, s)
    ||| slide_move(b, c, x, y, 0, -1, s)
    ||| slide_move(b, c, x, y, 0, 1, s)
}

proof fn lemma_ray_sound(b: Board, c: PColors, ox: int, oy: int, dx: int, dy: int, j: int)
    requires
        on_board(ox, oy),
        -1 <= dx <= 1,
        -1 <= dy <= 1,
        1 <= j <= 8,
        forall|m: int| 1 <= m < j ==> #[trigger] at(b, along(ox, dx, m), along(oy, dy, m)).piece == Piece::EMPTY,
    ensures
        forall|i: int| 0 <= i < ray(b, c, ox, oy, along(ox, dx, j), along(oy, dy, j), dx, dy, (8 - j) as nat).len()
            ==> slide_move(b, c, ox, oy, dx, dy, #[trigger] ray(b, c, ox, oy, along(ox, dx, j), along(oy, dy, j), dx, dy, (8 - j) as nat)[i]),
    decreases 8 - j,
{
    let r = ray(b, c, ox, oy, along(ox, dx, j), along(oy, dy, j), dx, dy, (8 - j) as nat);
    let cx = along(ox, dx, j);
    let cy = along(oy, dy, j);
    if j < 8 && on_board(cx, cy) {
        let st = step(ox, oy, cx, cy);
        assert(clear_path(b, ox, oy, dx, dy, j));
        if at(b, cx, cy).piece == Piece::EMPTY {
            assert(open_target(b, c, cx, cy));
            assert(slide_move(b, c, ox, oy, dx, dy, st));
            assert(along(ox, dx, j) + dx == along(ox, dx, j + 1));
            assert(along(oy, dy, j) + dy == along(oy, dy, j + 1));
            lemma_ray_sound(b, c, ox, oy, dx, dy, j + 1);
            let rest = ray(b, c, ox, oy, along(ox, dx, j + 1), along(oy, dy, j + 1), dx, dy, (8 - (j + 1)) as nat);
            assert(r == seq![st] + rest);
            assert forall|i: int| 0 <= i < r.len() implies slide_move(b, c, ox, oy, dx, dy, #[trigger] r[i]) by {
                if i > 0 {
                    assert(r[i] == rest[i - 1]);
                }
            }
        } else if at(b, cx, cy).color != c {
            assert(open_target(b, c, cx, cy));
            assert(slide_move(b, c, ox, oy, dx, dy, st));
            assert(r == seq![st]);
        }
    }
}

proof fn lemma_line_sound(b: Board, c: PColors, x: int, y: int, dx: int, dy: int)
    requires
        on_board(x, y),
        -1 <= dx <= 1,
        -1 <= dy <= 1,
    ensures
        forall|i: int| 0 <= i < line(b, c, x, y, dx, dy).len() ==> slide_move(b, c, x, y, dx, dy, #[trigger] line(b, c, x, y, dx, dy)[i]),
{
    assert(along(x, dx, 1) == x + dx && along(y, dy, 1) == y + dy);
    lemma_ray_sound(b, c, x, y, dx, dy, 1);
    assert(line(b, c, x, y, dx, dy) == ray(b, c, x, y, along(x, dx, 1), along(y, dy, 1), dx, dy, (8 - 1) as nat));
}

/// Every element of the concatenation of four lists is an element of one of
/// them.
proof fn lemma_in_add4(a1: Seq<Step>, a2: Seq<Step>, a3: Seq<Step>, a4: Seq<Step>, i: int)
    requires
        0 <= i < (a1 + a2 + a3 + a4).len(),
    ensures
        a1.contains((a1 + a2 + a3 + a4)[i]) || a2.contains((a1 + a2 + a3 + a4)[i]) || a3.contains((a1 + a2 + a3 + a4)[i])
            || a4.contains((a1 + a2 + a3 + a4)[i]),
{
    let v = (a1 + a2 + a3 + a4)[i];
    if i < a1.len() {
        assert(a1[i] == v);
    } else if i < a1.len() + a2.len() {
        assert(a2[i - a1.len()] == v);
    } else if i < a1.len() + a2.len() + a3.len() {
        assert(a3[i - a1.len() - a2.len()] == v);
    } else {
        assert(a4[i - a1.len() - a2.len() - a3.len()] == v);
    }
}

proof fn lemma_diagonal_sound(b: Board, c: PColors, x: int, y: int)
    requires
        on_board(x, y),
    ensures
        forall|i: int| 0 <= i < diagonal_moves(b, c, x, y).len() ==> diagonal_slide(b, c, x, y, #[trigger] diagonal_moves(b, c, x, y)[i]),
{
    let l1 = line(b, c, x, y, -1, -1);
    let l2 = line(b, c, x, y, -1, 1);
    let l3 = line(b, c, x, y, 1, -1);
    let l4 = line(b, c, x, y, 1, 1);
    lemma_line_sound(b, c, x, y, -1, -1);
    lemma_line_sound(b, c, x, y, -1, 1);
    lemma_line_sound(b, c, x, y, 1, -1);
    lemma_line_sound(b, c, x, y, 1, 1);
    assert forall|i: int| 0 <= i < diagonal_moves(b, c, x, y).len() implies diagonal_slide(b, c, x, y, #[trigger] diagonal_moves(b, c, x, y)[i]) by {
        lemma_in_add4(l1, l2, l3, l4, i);
    }
}

proof fn lemma_straight_sound(b: Board, c: PColors, x: int, y: int)
    requires
        on_board(x, y),
    ensures
        forall|i: int| 0 <= i < straight_moves(b, c, x, y).len() ==> straight_slide(b, c, x, y, #[trigger] straight_moves(b, c, x, y)[i]),
{
    let l1 = line(b, c, x, y, -1, 0);
    let l2 = line(b, c, x, y, 1, 0);
    let l3 = line(b, c, x, y, 0, -1);
    let l4 = line(b, c, x, y, 0, 1);
    lemma_line_sound(b, c, x, y, -1, 0);
    lemma_line_sound(b, c, x, y, 1, 0);
    lemma_line_sound(b, c, x, y, 0, -1);
    lemma_line_sound(b, c, x, y, 0, 1);
    assert forall|i: int| 0 <= i < straight_moves(b, c, x, y).len() implies straight_slide(b, c, x, y, #[trigger] straight_moves(b, c, x, y)[i]) by {
        lemma_in_add4(l1, l2, l3, l4, i);
    }
}

/// Every move listed for a bishop is a diagonal slide, every move listed for
/// a rook a slide along its row or column, and every move listed for a queen
/// one or the other: no sliding piece passes over a piece, and none takes a
/// piece of its own side.
pub proof fn lemma_slides_sound(b: Board, p: ChessPiece, x: int, y: int)
    requires
        on_board(x, y),
    ensures
        p.piece == Piece::BISHOP ==> forall|i: int| 0 <= i < piece_moves(b, p, x, y).len() ==> diagonal_slide(b, p.color, x, y, #[trigger] piece_moves(b, p, x, y)[i]),
        p.piece == Piece::ROOK ==> forall|i: int| 0 <= i < piece_moves(b, p, x, y).len() ==> straight_slide(b, p.color, x, y, #[trigger] piece_moves(b, p, x, y)[i]),
        p.piece == Piece::QUEEN ==> forall|i: int| 0 <= i < piece_moves(b, p, x, y).len() ==> (straight_slide(b, p.color, x, y, #[trigger] piece_moves(b, p, x, y)[i])
            || diagonal_slide(b, p.color, x, y, piece_moves(b, p, x, y)[i])),
{
    let c = p.color;
    lemma_diagonal_sound(b, c, x, y);
    lemma_straight_sound(b, c, x, y);
    if p.piece == Piece::QUEEN {
        let st = straight_moves(b, c, x, y);
        let dg = diagonal_moves(b, c, x, y);
        assert forall|i: int| 0 <= i < (st + dg).len() implies (straight_slide(b, c, x, y, #[trigger] (st + dg)[i])
            || diagonal_slide(b, c, x, y, (st + dg)[i])) by {
            if i >= st.len() {
                assert((st + dg)[i] == dg[i - st.len()]);
            }
        }
    }
}

/// Move `s` is a king's step from (x, y): onto one of the eight
/// neighbouring squares, on the board, free or holding an opposing piece.
pub open spec fn king_entitled(b: Board, c: PColors, x: int, y: int, s: Step) -> bool {
    &&& s.fx == x && s.fy == y && !s.queen
    &&& -1 <= s.tx - x <= 1 && -1 <= s.ty - y <= 1
    &&& (s.tx != x || s.ty != y)
    &&& on_board(s.tx, s.ty)
    &&& open_target(b, c, s.tx, s.ty)
}

/// Every move listed for a king is a single step onto a neighbouring square
/// that is free or holds an opposing piece.
pub proof fn lemma_king_steps_sound(b: Board, p: ChessPiece, x: int, y: int)
    requires
        p.piece == Piece::KING,
    ensures
        forall|i: int| 0 <= i < piece_moves(b, p, x, y).len() ==> king_entitled(b, p.color, x, y, #[trigger] piece_moves(b, p, x, y)[i]),
{
    let c = p.color;
    let a1 = king_step(b, c, x, y, -1, -1);
    let a2 = king_step(b, c, x, y, -1, 0);
    let a3 = king_step(b, c, x, y, -1, 1);
    let a4 = king_step(b, c, x, y, 0, -1);
    let a5 = king_step(b, c, x, y, 0, 1);
    let a6 = king_step(b, c, x, y, 1, -1);
    let a7 = king_step(b, c, x, y, 1, 0);
    let a8 = king_step(b, c, x, y, 1, 1);
    let before = king_moves_before(b, c, x, y);
    let after = king_moves_after(b, c, x, y);
    assert forall|i: int| 0 <= i < before.len() implies king_entitled(b, c, x, y, #[trigger] before[i]) by {
        lemma_in_add4(a1, a2, a3, a4, i);
    }
    assert forall|i: int| 0 <= i < after.len() implies king_entitled(b, c, x, y, #[trigger] after[i]) by {
        lemma_in_add4(a5, a6, a7, a8, i);
    }
    assert forall|i: int| 0 <= i < (before + after).len() implies king_entitled(b, c, x, y, #[trigger] (before + after)[i]) by {
        if i >= before.len() {
            assert((before + after)[i] == after[i - before.len()]);
        }
    }
}

} // verus!
