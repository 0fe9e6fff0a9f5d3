use vstd::prelude::*;
use crate::pieces::{Piece, PColors, ChessPiece};
use crate::notation::{Step, step};
use crate::moves::{
    Board, on_board, at, ray, line, straight_moves, diagonal_moves, king_step, king_moves,
    king_moves_before, king_moves_after, knight_step, knight_moves, knight_moves_down,
    knight_moves_up, pawn_dir, start_rank, promotion_rank, pawn_push, pawn_capture, pawn_moves,
    piece_moves,
};

verus! {

/// The square (cx, cy) lies strictly ahead of (ox, oy) in the direction
/// (dx, dy), which is one of the eight compass directions.
pub open spec fn ahead(ox: int, oy: int, cx: int, cy: int, dx: int, dy: int) -> bool {
    &&& -1 <= dx <= 1
    &&& -1 <= dy <= 1
    &&& (dx != 0 || dy != 0)
    &&& (dx == 0 ==> cx == ox)
    &&& (dx == 1 ==> cx > ox)
    &&& (dx == -1 ==> cx < ox)
    &&& (dy == 0 ==> cy == oy)
    &&& (dy == 1 ==> cy > oy)
    &&& (dy == -1 ==> cy < oy)
}

/// Move `s` starts on (x, y) and ends on a square of the
/// board other than (x, y) that is free or holds a piece not of side `c`.
pub open spec fn fair_target(b: Board, c: PColors, x: int, y: int, s: Step) -> bool {
    &&& s.fx == x && s.fy == y
    &&& on_board(s.tx, s.ty)
    &&& (s.tx != x || s.ty != y)
    &&& (at(b, s.tx, s.ty).piece == Piece::EMPTY || at(b, s.tx, s.ty).color != c)
}

/// Move k + 1 of the slide `r` goes one square further than move k in the
/// direction (dx, dy), and the square of move k is free.
pub open spec fn path_link(b: Board, r: Seq<Step>, k: int, dx: int, dy: int) -> bool {
    &&& r[k + 1].tx == r[k].tx + dx
    &&& r[k + 1].ty == r[k].ty + dy
    &&& at(b, r[k].tx, r[k].ty).piece == Piece::EMPTY
}

/// Every move of a slide starts on the sliding piece's square and ends on a
/// square of the board, other than the start, that is free or opposing.
proof fn lemma_ray_targets(b: Board, c: PColors, ox: int, oy: int, cx: int, cy: int, dx: int, dy: int, fuel: nat)
    requires
        ahead(ox, oy, cx, cy, dx, dy),
    ensures
        forall|k: int| 0 <= k < ray(b, c, ox, oy, cx, cy, dx, dy, fuel).len() ==> fair_target(
            b,
            c,
            ox,
            oy,
            #[trigger] ray(b, c, ox, oy, cx, cy, dx, dy, fuel)[k],
        ),
    decreases fuel,
{
    if fuel > 0 && on_board(cx, cy) && at(b, cx, cy).piece == Piece::EMPTY {
        let rest = ray(b, c, ox, oy, cx + dx, cy + dy, dx, dy, (fuel - 1) as nat);
        lemma_ray_targets(b, c, ox, oy, cx + dx, cy + dy, dx, dy, (fuel - 1) as nat);
        let r = ray(b, c, ox, oy, cx, cy, dx, dy, fuel);
        assert(r == seq![step(ox, oy, cx, cy)] + rest);
        assert forall|k: int| 0 <= k < r.len() implies fair_target(b, c, ox, oy, #[trigger] r[k]) by {
            if k > 0 {
                assert(r[k] == rest[k - 1]);
            }
        }
    }
}

/// Every move that a sliding piece on (x, y) has in one direction stays on
/// the board, leaves its square, and lands on a free or opposing square.
pub proof fn lemma_line_targets(b: Board, c: PColors, x: int, y: int, dx: int, dy: int)
    requires
        -1 <= dx <= 1,
        -1 <= dy <= 1,
        dx != 0 || dy != 0,
    ensures
        forall|k: int| 0 <= k < line(b, c, x, y, dx, dy).len() ==> fair_target(
            b,
            c,
            x,
            y,
            #[trigger] line(b, c, x, y, dx, dy)[k],
        ),
{
    lemma_ray_targets(b, c, x, y, x + dx, y + dy, dx, dy, 7);
}

/// A slide never jumps: its first move goes to the neighbouring square in
/// its direction, each next move one square further, and every square it
/// passes over before its last move is free.
proof fn lemma_ray_path(b: Board, c: PColors, ox: int, oy: int, cx: int, cy: int, dx: int, dy: int, fuel: nat)
    ensures
        ray(b, c, ox, oy, cx, cy, dx, dy, fuel).len() > 0 ==> ray(b, c, ox, oy, cx, cy, dx, dy, fuel)[0].tx == cx
            && ray(b, c, ox, oy, cx, cy, dx, dy, fuel)[0].ty == cy,
        forall|k: int| 0 <= k < ray(b, c, ox, oy, cx, cy, dx, dy, fuel).len() - 1 ==> #[trigger] path_link(
            b,
            ray(b, c, ox, oy, cx, cy, dx, dy, fuel),
            k,
            dx,
            dy,
        ),
    decreases fuel,
{
    if fuel > 0 && on_board(cx, cy) && at(b, cx, cy).piece == Piece::EMPTY {
        let rest = ray(b, c, ox, oy, cx + dx, cy + dy, dx, dy, (fuel - 1) as nat);
        lemma_ray_path(b, c, ox, oy, cx + dx, cy + dy, dx, dy, (fuel - 1) as nat);
        let r = ray(b, c, ox, oy, cx, cy, dx, dy, fuel);
        assert(r == seq![step(ox, oy, cx, cy)] + rest);
        assert forall|k: int| 0 <= k < r.len() - 1 implies #[trigger] path_link(b, r, k, dx, dy) by {
            if k > 0 {
                assert(r[k] == rest[k - 1]);
                assert(r[k + 1] == rest[k]);
                assert(path_link(b, rest, k - 1, dx, dy));
            } else {
                assert(r[1] == rest[0]);
            }
        }
    }
}

/// A sliding piece on (x, y) never jumps: its first move in a direction
/// goes to the neighbouring square, each next one a square further, and
/// every square passed over is free.
pub proof fn lemma_line_path(b: Board, c: PColors, x: int, y: int, dx: int, dy: int)
    ensures
        line(b, c, x, y, dx, dy).len() > 0 ==> line(b, c, x, y, dx, dy)[0].tx == x + dx
            && line(b, c, x, y, dx, dy)[0].ty == y + dy,
        forall|k: int| 0 <= k < line(b, c, x, y, dx, dy).len() - 1 ==> #[trigger] path_link(
            b,
            line(b, c, x, y, dx, dy),
            k,
            dx,
            dy,
        ),
{
    lemma_ray_path(b, c, x, y, x + dx, y + dy, dx, dy, 7);
}

/// Every move of the list starts on (x, y) and lands on a square of the
/// board other than (x, y) that is free or opposing.
pub open spec fn all_fair(b: Board, c: PColors, x: int, y: int, moves: Seq<Step>) -> bool {
    forall|k: int| 0 <= k < moves.len() ==> fair_target(b, c, x, y, #[trigger] moves[k])
}

proof fn lemma_all_fair_add(b: Board, c: PColors, x: int, y: int, m1: Seq<Step>, m2: Seq<Step>)
    requires
        all_fair(b, c, x, y, m1),
        all_fair(b, c, x, y, m2),
    ensures
        all_fair(b, c, x, y, m1 + m2),
{
    assert forall|k: int| 0 <= k < (m1 + m2).len() implies fair_target(b, c, x, y, #[trigger] (m1 + m2)[k]) by {
        if k >= m1.len() {
            assert((m1 + m2)[k] == m2[k - m1.len()]);
        }
    }
}

proof fn lemma_king_fair(b: Board, c: PColors, x: int, y: int)
    ensures
        all_fair(b, c, x, y, king_moves(b, c, x, y)),
{
    assert(all_fair(b, c, x, y, king_step(b, c, x, y, -1, -1)));
    assert(all_fair(b, c, x, y, king_step(b, c, x, y, -1, 0)));
    assert(all_fair(b, c, x, y, king_step(b, c, x, y, -1, 1)));
    assert(all_fair(b, c, x, y, king_step(b, c, x, y, 0, -1)));
    assert(all_fair(b, c, x, y, king_step(b, c, x, y, 0, 1)));
    assert(all_fair(b, c, x, y, king_step(b, c, x, y, 1, -1)));
    assert(all_fair(b, c, x, y, king_step(b, c, x, y, 1, 0)));
    assert(all_fair(b, c, x, y, king_step(b, c, x, y, 1, 1)));
    lemma_all_fair_add(b, c, x, y, king_step(b, c, x, y, -1, -1), king_step(b, c, x, y, -1, 0));
    lemma_all_fair_add(b, c, x, y, king_step(b, c, x, y, -1, -1) + king_step(b, c, x, y, -1, 0), king_step(b, c, x, y, -1, 1));
    lemma_all_fair_add(b, c, x, y, king_step(b, c, x, y, -1, -1) + king_step(b, c, x, y, -1, 0) + king_step(b, c, x, y, -1, 1), king_step(b, c, x, y, 0, -1));
    lemma_all_fair_add(b, c, x, y, king_step(b, c, x, y, 0, 1), king_step(b, c, x, y, 1, -1));
    lemma_all_fair_add(b, c, x, y, king_step(b, c, x, y, 0, 1) + king_step(b, c, x, y, 1, -1), king_step(b, c, x, y, 1, 0));
    lemma_all_fair_add(b, c, x, y, king_step(b, c, x, y, 0, 1) + king_step(b, c, x, y, 1, -1) + king_step(b, c, x, y, 1, 0), king_step(b, c, x, y, 1, 1));
    lemma_all_fair_add(b, c, x, y, king_moves_before(b, c, x, y), king_moves_after(b, c, x, y));
}

proof fn lemma_lines_fair(b: Board, c: PColors, x: int, y: int)
    ensures
        all_fair(b, c, x, y, straight_moves(b, c, x, y)),
        all_fair(b, c, x, y, diagonal_moves(b, c, x, y)),
{
    lemma_line_targets(b, c, x, y, -1, 0);
    lemma_line_targets(b, c, x, y, 1, 0);
    lemma_line_targets(b, c, x, y, 0, -1);
    lemma_line_targets(b, c, x, y, 0, 1);
    lemma_line_targets(b, c, x, y, -1, -1);
    lemma_line_targets(b, c, x, y, -1, 1);
    lemma_line_targets(b, c, x, y, 1, -1);
    lemma_line_targets(b, c, x, y, 1, 1);
    lemma_all_fair_add(b, c, x, y, line(b, c, x, y, -1, 0), line(b, c, x, y, 1, 0));
    lemma_all_fair_add(b, c, x, y, line(b, c, x, y, -1, 0) + line(b, c, x, y, 1, 0), line(b, c, x, y, 0, -1));
    lemma_all_fair_add(b, c, x, y, line(b, c, x, y, -1, 0) + line(b, c, x, y, 1, 0) + line(b, c, x, y, 0, -1), line(b, c, x, y, 0, 1));
    lemma_all_fair_add(b, c, x, y, line(b, c, x, y, -1, -1), line(b, c, x, y, -1, 1));
    lemma_all_fair_add(b, c, x, y, line(b, c, x, y, -1, -1) + line(b, c, x, y, -1, 1), line(b, c, x, y, 1, -1));
    lemma_all_fair_add(b, c, x, y, line(b, c, x, y, -1, -1) + line(b, c, x, y, -1, 1) + line(b, c, x, y, 1, -1), line(b, c, x, y, 1, 1));
}

proof fn lemma_pawn_fair(b: Board, c: PColors, x: int, y: int)
    requires
        on_board(x, y),
    ensures
        all_fair(b, c, x, y, pawn_moves(b, c, x, y)),
{
    let push = pawn_push(b, c, x, y);
    assert forall|k: int| 0 <= k < push.len() implies fair_target(b, c, x, y, #[trigger] push[k]) by {
        let nx = x + pawn_dir(c);
        let tail = if x == start_rank(c) && at(b, x + 2 * pawn_dir(c), y).piece == Piece::EMPTY {
            seq![crate::notation::step(x, y, x + 2 * pawn_dir(c), y)]
        } else {
            Seq::<Step>::empty()
        };
        assert(push == seq![Step { fx: x, fy: y, tx: nx, ty: y, queen: nx == promotion_rank(c) }] + tail);
        if k > 0 {
            assert(push[k] == tail[k - 1]);
        }
    }
    assert(all_fair(b, c, x, y, pawn_capture(b, c, x, y, -1)));
    assert(all_fair(b, c, x, y, pawn_capture(b, c, x, y, 1)));
    lemma_all_fair_add(b, c, x, y, push, pawn_capture(b, c, x, y, -1));
    lemma_all_fair_add(b, c, x, y, push + pawn_capture(b, c, x, y, -1), pawn_capture(b, c, x, y, 1));
}

/// Every move of a piece other than a knight stays on the board, leaves the
/// piece's square, and lands on a free square or on an opposing piece:
/// such a piece never takes a piece of its own side.
pub proof fn lemma_moves_land_fairly(b: Board, p: ChessPiece, x: int, y: int)
    requires
        on_board(x, y),
        p.piece != Piece::KNIGHT,
    ensures
        all_fair(b, p.color, x, y, piece_moves(b, p, x, y)),
{
    lemma_lines_fair(b, p.color, x, y);
    lemma_king_fair(b, p.color, x, y);
    lemma_pawn_fair(b, p.color, x, y);
    lemma_all_fair_add(b, p.color, x, y, straight_moves(b, p.color, x, y), diagonal_moves(b, p.color, x, y));
}

/// Move `s` is a knight's jump from (x, y) onto the board.
pub open spec fn knight_jump(x: int, y: int, s: Step) -> bool {
    let ax = if s.tx >= x { s.tx - x } else { x - s.tx };
    let ay = if s.ty >= y { s.ty - y } else { y - s.ty };
    &&& s.fx == x && s.fy == y
    &&& on_board(s.tx, s.ty)
    &&& !s.queen
    &&& ((ax == 1 && ay == 2) || (ax == 2 && ay == 1))
}

/// Every move of the list is a knight's jump from (x, y).
pub open spec fn all_jumps(x: int, y: int, moves: Seq<Step>) -> bool {
    forall|k: int| 0 <= k < moves.len() ==> knight_jump(x, y, #[trigger] moves[k])
}

proof fn lemma_all_jumps_add(x: int, y: int, m1: Seq<Step>, m2: Seq<Step>)
    requires
        all_jumps(x, y, m1),
        all_jumps(x, y, m2),
    ensures
        all_jumps(x, y, m1 + m2),
{
    assert forall|k: int| 0 <= k < (m1 + m2).len() implies knight_jump(x, y, #[trigger] (m1 + m2)[k]) by {
        if k >= m1.len() {
            assert((m1 + m2)[k] == m2[k - m1.len()]);
        }
    }
}

/// A knight on (x, y) jumps in an L: two squares one way and one the other,
/// always onto the board, whatever stands on the target square.
pub proof fn lemma_knight_jumps(x: int, y: int)
    ensures
        all_jumps(x, y, knight_moves(x, y)),
{
    assert(all_jumps(x, y, knight_step(x, y, 2, 1)));
    assert(all_jumps(x, y, knight_step(x, y, 2, -1)));
    assert(all_jumps(x, y, knight_step(x, y, 1, 2)));
    assert(all_jumps(x, y, knight_step(x, y, 1, -2)));
    assert(all_jumps(x, y, knight_step(x, y, -2, 1)));
    assert(all_jumps(x, y, knight_step(x, y, -2, -1)));
    assert(all_jumps(x, y, knight_step(x, y, -1, 2)));
    assert(all_jumps(x, y, knight_step(x, y, -1, -2)));
    lemma_all_jumps_add(x, y, knight_step(x, y, 2, 1), knight_step(x, y, 2, -1));
    lemma_all_jumps_add(x, y, knight_step(x, y, 2, 1) + knight_step(x, y, 2, -1), knight_step(x, y, 1, 2));
    lemma_all_jumps_add(x, y, knight_step(x, y, 2, 1) + knight_step(x, y, 2, -1) + knight_step(x, y, 1, 2), knight_step(x, y, 1, -2));
    lemma_all_jumps_add(x, y, knight_step(x, y, -2, 1), knight_step(x, y, -2, -1));
    lemma_all_jumps_add(x, y, knight_step(x, y, -2, 1) + knight_step(x, y, -2, -1), knight_step(x, y, -1, 2));
    lemma_all_jumps_add(x, y, knight_step(x, y, -2, 1) + knight_step(x, y, -2, -1) + knight_step(x, y, -1, 2), knight_step(x, y, -1, -2));
    lemma_all_jumps_add(x, y, knight_moves_down(x, y), knight_moves_up(x, y));
}

} // verus!
