use vstd::prelude::*;
use crate::pieces::{Piece, PColors, ChessPiece};
use crate::notation::{Step, step};
use crate::moves::{
    Board, on_board, at, ray, line, piece_moves, straight_moves, diagonal_moves, king_step,
    king_moves_before, king_moves_after, knight_step, knight_moves_down, knight_moves_up,
    pawn_push, pawn_capture, pawn_dir,
};
use crate::completeness::along;

verus! {

/// The list's elements grow strictly in rank `r` from first to last.
pub open spec fn increasing_by(l: Seq<Step>, r: spec_fn(Step) -> int) -> bool {
    forall|i: int, j: int| 0 <= i < j < l.len() ==> r(#[trigger] l[i]) < r(#[trigger] l[j])
}

/// Every element of the list has rank in [lo, hi).
pub open spec fn ranks_within(l: Seq<Step>, r: spec_fn(Step) -> int, lo: int, hi: int) -> bool {
    forall|i: int| 0 <= i < l.len() ==> lo <= r(#[trigger] l[i]) < hi
}

proof fn lemma_increasing_add(a: Seq<Step>, c: Seq<Step>, r: spec_fn(Step) -> int, lo: int, mid: int, hi: int)
    requires
        increasing_by(a, r),
        increasing_by(c, r),
        ranks_within(a, r, lo, mid),
        ranks_within(c, r, mid, hi),
        lo <= mid <= hi,
    ensures
        increasing_by(a + c, r),
        ranks_within(a + c, r, lo, hi),
{
    assert forall|i: int, j: int| 0 <= i < j < (a + c).len() implies r(#[trigger] (a + c)[i]) < r(#[trigger] (a + c)[j]) by {
        if j < a.len() {
        } else if i < a.len() {
            assert((a + c)[j] == c[j - a.len()]);
        } else {
            assert((a + c)[i] == c[i - a.len()]);
            assert((a + c)[j] == c[j - a.len()]);
        }
    }
    assert forall|i: int| 0 <= i < (a + c).len() implies lo <= r(#[trigger] (a + c)[i]) < hi by {
        if i >= a.len() {
            assert((a + c)[i] == c[i - a.len()]);
        } else {
            assert((a + c)[i] == a[i]);
        }
    }
}

proof fn lemma_increasing_add4(
    a1: Seq<Step>,
    a2: Seq<Step>,
    a3: Seq<Step>,
    a4: Seq<Step>,
    r: spec_fn(Step) -> int,
    b0: int,
    b1: int,
    b2: int,
    b3: int,
    b4: int,
)
    requires
        increasing_by(a1, r),
        increasing_by(a2, r),
        increasing_by(a3, r),
        increasing_by(a4, r),
        ranks_within(a1, r, b0, b1),
        ranks_within(a2, r, b1, b2),
        ranks_within(a3, r, b2, b3),
        ranks_within(a4, r, b3, b4),
        b0 <= b1 <= b2 <= b3 <= b4,
    ensures
        increasing_by(a1 + a2 + a3 + a4, r),
        ranks_within(a1 + a2 + a3 + a4, r, b0, b4),
{
    lemma_increasing_add(a1, a2, r, b0, b1, b2);
    lemma_increasing_add(a1 + a2, a3, r, b0, b2, b3);
    lemma_increasing_add(a1 + a2 + a3, a4, r, b0, b3, b4);
}

proof fn lemma_increasing_no_dup(l: Seq<Step>, r: spec_fn(Step) -> int)
    requires
        increasing_by(l, r),
    ensures
        l.no_duplicates(),
{
    assert forall|i: int, j: int| 0 <= i < l.len() && 0 <= j < l.len() && i != j implies l[i] != l[j] by {
        if i < j {
            assert(r(l[i]) < r(l[j]));
        } else {
            assert(r(l[j]) < r(l[i]));
        }
    }
}

/// The sign of v.
pub open spec fn sgn(v: int) -> int {
    if v > 0 { 1 } else if v < 0 { -1 } else { 0 }
}

/// How far (in king steps) the target of `s` lies from (x, y).
pub open spec fn reach(x: int, y: int, s: Step) -> int {
    let ax = if s.tx >= x { s.tx - x } else { x - s.tx };
    let ay = if s.ty >= y { s.ty - y } else { y - s.ty };
    if ax >= ay { ax } else { ay }
}

/// The place of a slide's direction in the order the moves are listed:
/// up, down, left, right, then up-left, up-right, down-left, down-right.
pub open spec fn heading_index(hx: int, hy: int) -> int {
    if hx == -1 && hy == 0 {
        0
    } else if hx == 1 && hy == 0 {
        1
    } else if hx == 0 && hy == -1 {
        2
    } else if hx == 0 && hy == 1 {
        3
    } else if hx == -1 && hy == -1 {
        4
    } else if hx == -1 && hy == 1 {
        5
    } else if hx == 1 && hy == -1 {
        6
    } else {
        7
    }
}

/// A rank of slides from (x, y): direction first, distance second.
pub open spec fn slide_rank(x: int, y: int) -> spec_fn(Step) -> int {
    |s: Step| 8 * heading_index(sgn(s.tx - x), sgn(s.ty - y)) + reach(x, y, s)
}

proof fn lemma_ray_increasing(b: Board, c: PColors, ox: int, oy: int, dx: int, dy: int, j: int)
    requires
        -1 <= dx <= 1,
        -1 <= dy <= 1,
        dx != 0 || dy != 0,
        1 <= j <= 8,
    ensures
        increasing_by(ray(b, c, ox, oy, along(ox, dx, j), along(oy, dy, j), dx, dy, (8 - j) as nat), slide_rank(ox, oy)),
        ranks_within(
            ray(b, c, ox, oy, along(ox, dx, j), along(oy, dy, j), dx, dy, (8 - j) as nat),
            slide_rank(ox, oy),
            8 * heading_index(dx, dy) + j,
            8 * heading_index(dx, dy) + 8,
        ),
    decreases 8 - j,
{
    let r = ray(b, c, ox, oy, along(ox, dx, j), along(oy, dy, j), dx, dy, (8 - j) as nat);
    let rk = slide_rank(ox, oy);
    let base = 8 * heading_index(dx, dy);
    let cx = along(ox, dx, j);
    let cy = along(oy, dy, j);
    let st = step(ox, oy, cx, cy);
    assert(sgn(cx - ox) == dx && sgn(cy - oy) == dy);
    assert(reach(ox, oy, st) == j);
    assert(rk(st) == base + j);
    if j < 8 && on_board(cx, cy) {
        if at(b, cx, cy).piece == Piece::EMPTY {
            assert(along(ox, dx, j) + dx == along(ox, dx, j + 1));
            assert(along(oy, dy, j) + dy == along(oy, dy, j + 1));
            lemma_ray_increasing(b, c, ox, oy, dx, dy, j + 1);
            let rest = ray(b, c, ox, oy, along(ox, dx, j + 1), along(oy, dy, j + 1), dx, dy, (8 - (j + 1)) as nat);
            assert(r == seq![st] + rest);
            lemma_increasing_add(seq![st], rest, rk, base + j, base + j + 1, base + 8);
        } else if at(b, cx, cy).color != c {
            assert(r == seq![st]);
        }
    }
}

proof fn lemma_line_increasing(b: Board, c: PColors, x: int, y: int, dx: int, dy: int)
    requires
        -1 <= dx <= 1,
        -1 <= dy <= 1,
        dx != 0 || dy != 0,
    ensures
        increasing_by(line(b, c, x, y, dx, dy), slide_rank(x, y)),
        ranks_within(line(b, c, x, y, dx, dy), slide_rank(x, y), 8 * heading_index(dx, dy), 8 * heading_index(dx, dy) + 8),
{
    lemma_ray_increasing(b, c, x, y, dx, dy, 1);
    assert(line(b, c, x, y, dx, dy) == ray(b, c, x, y, along(x, dx, 1), along(y, dy, 1), dx, dy, (8 - 1) as nat));
}

proof fn lemma_slides_increasing(b: Board, c: PColors, x: int, y: int)
    ensures
        increasing_by(straight_moves(b, c, x, y), slide_rank(x, y)),
        ranks_within(straight_moves(b, c, x, y), slide_rank(x, y), 0, 32),
        increasing_by(diagonal_moves(b, c, x, y), slide_rank(x, y)),
        ranks_within(diagonal_moves(b, c, x, y), slide_rank(x, y), 32, 64),
{
    let rk = slide_rank(x, y);
    lemma_line_increasing(b, c, x, y, -1, 0);
    lemma_line_increasing(b, c, x, y, 1, 0);
    lemma_line_increasing(b, c, x, y, 0, -1);
    lemma_line_increasing(b, c, x, y, 0, 1);
    lemma_line_increasing(b, c, x, y, -1, -1);
    lemma_line_increasing(b, c, x, y, -1, 1);
    lemma_line_increasing(b, c, x, y, 1, -1);
    lemma_line_increasing(b, c, x, y, 1, 1);
    lemma_increasing_add4(
        line(b, c, x, y, -1, 0),
        line(b, c, x, y, 1, 0),
        line(b, c, x, y, 0, -1),
        line(b, c, x, y, 0, 1),
        rk,
        0,
        8,
        16,
        24,
        32,
    );
    lemma_increasing_add4(
        line(b, c, x, y, -1, -1),
        line(b, c, x, y, -1, 1),
        line(b, c, x, y, 1, -1),
        line(b, c, x, y, 1, 1),
        rk,
        32,
        40,
        48,
        56,
        64,
    );
}

/// A rank of single steps from (x, y) by their offset.
pub open spec fn offset_rank(x: int, y: int) -> spec_fn(Step) -> int {
    |s: Step| 8 * (s.tx - x) + (s.ty - y)
}

proof fn lemma_king_increasing(b: Board, c: PColors, x: int, y: int)
    ensures
        increasing_by(king_moves_before(b, c, x, y) + king_moves_after(b, c, x, y), offset_rank(x, y)),
{
    let rk = offset_rank(x, y);
    assert(ranks_within(king_step(b, c, x, y, -1, -1), rk, -9, -8));
    assert(ranks_within(king_step(b, c, x, y, -1, 0), rk, -8, -7));
    assert(ranks_within(king_step(b, c, x, y, -1, 1), rk, -7, -6));
    assert(ranks_within(king_step(b, c, x, y, 0, -1), rk, -1, 0));
    assert(ranks_within(king_step(b, c, x, y, 0, 1), rk, 1, 2));
    assert(ranks_within(king_step(b, c, x, y, 1, -1), rk, 7, 8));
    assert(ranks_within(king_step(b, c, x, y, 1, 0), rk, 8, 9));
    assert(ranks_within(king_step(b, c, x, y, 1, 1), rk, 9, 10));
    lemma_increasing_add4(
        king_step(b, c, x, y, -1, -1),
        king_step(b, c, x, y, -1, 0),
        king_step(b, c, x, y, -1, 1),
        king_step(b, c, x, y, 0, -1),
        rk,
        -9,
        -8,
        -7,
        -1,
        0,
    );
    lemma_increasing_add4(
        king_step(b, c, x, y, 0, 1),
        king_step(b, c, x, y, 1, -1),
        king_step(b, c, x, y, 1, 0),
        king_step(b, c, x, y, 1, 1),
        rk,
        1,
        7,
        8,
        9,
        10,
    );
    lemma_increasing_add(king_moves_before(b, c, x, y), king_moves_after(b, c, x, y), rk, -9, 0, 10);
}

/// A rank of knight jumps from (x, y) in the order they are listed.
pub open spec fn jump_rank(x: int, y: int) -> spec_fn(Step) -> int {
    |s: Step|
        {
            let dx = s.tx - x;
            let dy = s.ty - y;
            if dx == 2 && dy == 1 {
                0
            } else if dx == 2 && dy == -1 {
                1
            } else if dx == 1 && dy == 2 {
                2
            } else if dx == 1 && dy == -2 {
                3
            } else if dx == -2 && dy == 1 {
                4
            } else if dx == -2 && dy == -1 {
                5
            } else if dx == -1 && dy == 2 {
                6
            } else {
                7
            }
        }
}

proof fn lemma_knight_increasing(x: int, y: int)
    ensures
        increasing_by(knight_moves_down(x, y) + knight_moves_up(x, y), jump_rank(x, y)),
{
    let rk = jump_rank(x, y);
    assert(ranks_within(knight_step(x, y, 2, 1), rk, 0, 1));
    assert(ranks_within(knight_step(x, y, 2, -1), rk, 1, 2));
    assert(ranks_within(knight_step(x, y, 1, 2), rk, 2, 3));
    assert(ranks_within(knight_step(x, y, 1, -2), rk, 3, 4));
    assert(ranks_within(knight_step(x, y, -2, 1), rk, 4, 5));
    assert(ranks_within(knight_step(x, y, -2, -1), rk, 5, 6));
    assert(ranks_within(knight_step(x, y, -1, 2), rk, 6, 7));
    assert(ranks_within(knight_step(x, y, -1, -2), rk, 7, 8));
    lemma_increasing_add4(knight_step(x, y, 2, 1), knight_step(x, y, 2, -1), knight_step(x, y, 1, 2), knight_step(x, y, 1, -2), rk, 0, 1, 2, 3, 4);
    lemma_increasing_add4(knight_step(x, y, -2, 1), knight_step(x, y, -2, -1), knight_step(x, y, -1, 2), knight_step(x, y, -1, -2), rk, 4, 5, 6, 7, 8);
    lemma_increasing_add(knight_moves_down(x, y), knight_moves_up(x, y), rk, 0, 4, 8);
}

/// A rank of pawn moves from (x, y) in the order they are listed: the
/// advances by their length, then the capture to the left, then the one to
/// the right.
pub open spec fn pawn_rank(x: int, y: int) -> spec_fn(Step) -> int {
    |s: Step|
        if s.ty == y {
            if s.tx >= x { s.tx - x } else { x - s.tx }
        } else if s.ty < y {
            3
        } else {
            4
        }
}

proof fn lemma_pawn_increasing(b: Board, c: PColors, x: int, y: int)
    ensures
        increasing_by(pawn_push(b, c, x, y) + pawn_capture(b, c, x, y, -1) + pawn_capture(b, c, x, y, 1), pawn_rank(x, y)),
{
    let rk = pawn_rank(x, y);
    let push = pawn_push(b, c, x, y);
    let dir = pawn_dir(c);
    let nx = x + dir;
    let tail = if x == (if c == PColors::WHITE { 6int } else { 1int }) && at(b, x + 2 * dir, y).piece == Piece::EMPTY {
        seq![step(x, y, x + 2 * dir, y)]
    } else {
        Seq::<Step>::empty()
    };
    if on_board(nx, y) && at(b, nx, y).piece == Piece::EMPTY {
        let head = seq![Step { fx: x, fy: y, tx: nx, ty: y, queen: nx == (if c == PColors::WHITE { 0int } else { 7int }) }];
        assert(push == head + tail);
        assert(ranks_within(head, rk, 1, 2));
        assert(ranks_within(tail, rk, 2, 3));
        lemma_increasing_add(head, tail, rk, 1, 2, 3);
    }
    assert(increasing_by(push, rk));
    assert(ranks_within(push, rk, 1, 3));
    assert(ranks_within(pawn_capture(b, c, x, y, -1), rk, 3, 4));
    assert(ranks_within(pawn_capture(b, c, x, y, 1), rk, 4, 5));
    lemma_increasing_add(push, pawn_capture(b, c, x, y, -1), rk, 1, 3, 4);
    lemma_increasing_add(push + pawn_capture(b, c, x, y, -1), pawn_capture(b, c, x, y, 1), rk, 1, 4, 5);
}

/// The order in which the moves of piece `p` on (x, y) are listed: slides
/// direction by direction (up, down, left, right, then up-left, up-right,
/// down-left, down-right), nearer squares first; king steps and knight
/// jumps by their offset as in the listing order; a pawn's one-square
/// advance, its two-square advance, its capture to the left, then to the
/// right.
pub open spec fn listing_rank(p: ChessPiece, x: int, y: int) -> spec_fn(Step) -> int {
    match p.piece {
        Piece::KNIGHT => jump_rank(x, y),
        Piece::KING => offset_rank(x, y),
        Piece::PAWN => pawn_rank(x, y),
        _ => slide_rank(x, y),
    }
}

/// The moves of every piece come out in listing order, each rank at most
/// once: so no move is listed twice.
pub proof fn lemma_moves_distinct(b: Board, p: ChessPiece, x: int, y: int)
    ensures
        increasing_by(piece_moves(b, p, x, y), listing_rank(p, x, y)),
        piece_moves(b, p, x, y).no_duplicates(),
{
    let c = p.color;
    match p.piece {
        Piece::KNIGHT => {
            lemma_knight_increasing(x, y);
            lemma_increasing_no_dup(piece_moves(b, p, x, y), jump_rank(x, y));
        },
        Piece::ROOK => {
            lemma_slides_increasing(b, c, x, y);
            lemma_increasing_no_dup(piece_moves(b, p, x, y), slide_rank(x, y));
        },
        Piece::QUEEN => {
            lemma_slides_increasing(b, c, x, y);
            lemma_increasing_add(straight_moves(b, c, x, y), diagonal_moves(b, c, x, y), slide_rank(x, y), 0, 32, 64);
            lemma_increasing_no_dup(piece_moves(b, p, x, y), slide_rank(x, y));
        },
        Piece::BISHOP => {
            lemma_slides_increasing(b, c, x, y);
            lemma_increasing_no_dup(piece_moves(b, p, x, y), slide_rank(x, y));
        },
        Piece::KING => {
            lemma_king_increasing(b, c, x, y);
            lemma_increasing_no_dup(piece_moves(b, p, x, y), offset_rank(x, y));
        },
        Piece::PAWN => {
            lemma_pawn_increasing(b, c, x, y);
            lemma_increasing_no_dup(piece_moves(b, p, x, y), pawn_rank(x, y));
        },
        Piece::EMPTY => {
        },
    }
}

} // verus!
