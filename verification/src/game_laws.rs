use vstd::prelude::*;
use crate::pieces::{Piece, PColors, TermColor};
use crate::notation::{Step, encode, encoded, seq_join, digit};
use crate::moves::{Board, on_board, at, piece_moves, move_list};
use crate::pieces::ChessPiece;
use crate::laws::{lemma_moves_land_fairly, lemma_knight_jumps, fair_target, knight_jump};
use crate::board::{
    home_rect, is_initial, initial_square, within, click_fits, cell_rect, no_hit_before, hit_from,
    first_hit, click_search_fits, same_layout, square_shade_spec,
};
use crate::game::{click_outcome, move_accepted, contains_seq, square_digits, moved, other_side, valid_selection};

verus! {

/// The search for a clicked square answers -1 or a square numbered from k
/// on, and a square it answers contains the click.
proof fn lemma_hit_from_range(b: Board, k: int, x: int, y: int)
    requires
        0 <= k <= 64,
    ensures
        hit_from(b, k, x, y) == -1 || (k <= hit_from(b, k, x, y) < 64 && within(
            cell_rect(b, hit_from(b, k, x, y)),
            x,
            y,
        )),
    decreases 64 - k,
{
    if k < 64 && !within(cell_rect(b, k), x, y) {
        lemma_hit_from_range(b, k + 1, x, y);
    }
}

/// The clicked square is -1 or a square of the board.
pub proof fn lemma_first_hit_range(b: Board, x: int, y: int)
    ensures
        -1 <= first_hit(b, x, y) < 64,
{
    lemma_hit_from_range(b, 0, x, y);
}

/// The tests of the click search depend on the squares' places alone, so a
/// board drawn like one whose search fits fits too.
pub proof fn lemma_layout_keeps_fit(b0: Board, b1: Board, x: int, y: int)
    requires
        same_layout(b0, b1),
        click_search_fits(b0, x, y),
    ensures
        click_search_fits(b1, x, y),
{
    assert forall|k: int| 0 <= k < 64 && no_hit_before(b1, k, x, y) implies click_fits(#[trigger] cell_rect(b1, k), x, y) by {
        assert(cell_rect(b1, k) == cell_rect(b0, k));
        assert forall|m: int| 0 <= m < k implies !within(#[trigger] cell_rect(b0, m), x, y) by {
            assert(cell_rect(b1, m) == cell_rect(b0, m));
        }
    }
}

/// Every click on a terminal cell can be searched on the starting board.
pub proof fn lemma_initial_fits(b: Board, x: u16, y: u16)
    requires
        is_initial(b),
    ensures
        click_search_fits(b, x as int, y as int),
{
    assert forall|k: int| 0 <= k < 64 && no_hit_before(b, k, x as int, y as int) implies click_fits(
        #[trigger] cell_rect(b, k),
        x as int,
        y as int,
    ) by {
        assert(at(b, k / 8, k % 8) == initial_square(k / 8, k % 8));
    }
}

/// On the starting board a click inside the place of square (i, j) selects
/// that square: the squares' places do not overlap.
pub proof fn lemma_initial_click_selects(b: Board, i: int, j: int, x: int, y: int)
    requires
        is_initial(b),
        on_board(i, j),
        within(home_rect(i, j), x, y),
    ensures
        first_hit(b, x, y) == i * 8 + j,
{
    let k = i * 8 + j;
    assert(k / 8 == i && k % 8 == j);
    assert(cell_rect(b, k) == home_rect(i, j));
    assert forall|m: int| 0 <= m < k implies !within(#[trigger] cell_rect(b, m), x, y) by {
        assert(at(b, m / 8, m % 8) == initial_square(m / 8, m % 8));
        assert(m / 8 < i || (m / 8 == i && m % 8 < j));
    }
    lemma_hit_skips(b, 0, k, x, y);
}

/// With no square before k containing the click, the search from `start`
/// answers what the search from k answers.
proof fn lemma_hit_skips(b: Board, start: int, k: int, x: int, y: int)
    requires
        0 <= start <= k <= 64,
        forall|m: int| start <= m < k ==> !within(#[trigger] cell_rect(b, m), x, y),
    ensures
        hit_from(b, start, x, y) == hit_from(b, k, x, y),
    decreases k - start,
{
    if start < k {
        lemma_hit_skips(b, start + 1, k, x, y);
    }
}

/// The squares that hold a piece, counted from square number k on.
pub open spec fn pieces_from(b: Board, k: int) -> int
    decreases 64 - k,
{
    if k >= 64 {
        0
    } else {
        (if at(b, k / 8, k % 8).piece != Piece::EMPTY { 1int } else { 0int }) + pieces_from(b, k + 1)
    }
}

/// The number of pieces on the board.
pub open spec fn piece_count(b: Board) -> int {
    pieces_from(b, 0)
}

proof fn lemma_count_after_move(b0: Board, b1: Board, o: int, t: int, k: int)
    requires
        0 <= o < 64,
        0 <= t < 64,
        o != t,
        0 <= k <= 64,
        at(b0, o / 8, o % 8).piece != Piece::EMPTY,
        at(b1, o / 8, o % 8).piece == Piece::EMPTY,
        forall|m: int| 0 <= m < 64 && m != o && m != t ==> #[trigger] at(b1, m / 8, m % 8) == at(b0, m / 8, m % 8),
    ensures
        pieces_from(b1, k) + (if k <= o { 1int } else { 0int }) <= pieces_from(b0, k) + (if k <= t { 1int } else { 0int }),
    decreases 64 - k,
{
    if k < 64 {
        lemma_count_after_move(b0, b1, o, t, k + 1);
        if k != o && k != t {
            assert(at(b1, k / 8, k % 8) == at(b0, k / 8, k % 8));
        }
    }
}

/// When a click passes the turn, a piece of the side to move really stood on
/// the selected square, moved to the clicked square, and left its square
/// free.
pub proof fn lemma_only_own_pieces_move(
    turn0: PColors,
    b0: Board,
    from0: i32,
    turn1: PColors,
    b1: Board,
    msg1: Seq<char>,
    from1: i32,
    x: int,
    y: int,
)
    requires
        valid_selection(from0),
        click_outcome(turn0, b0, from0, turn1, b1, msg1, from1, x, y),
        turn1 != turn0,
    ensures
        0 <= from0 < 64,
        0 <= first_hit(b0, x, y) < 64,
        first_hit(b0, x, y) != from0,
        at(b0, from0 as int / 8, from0 as int % 8).piece != Piece::EMPTY,
        at(b0, from0 as int / 8, from0 as int % 8).color == turn0,
        at(b1, from0 as int / 8, from0 as int % 8).piece == Piece::EMPTY,
        at(b1, first_hit(b0, x, y) / 8, first_hit(b0, x, y) % 8).piece != Piece::EMPTY,
        at(b1, first_hit(b0, x, y) / 8, first_hit(b0, x, y) % 8).color == turn0,
        turn1 == other_side(turn0),
{
    lemma_first_hit_range(b0, x, y);
    let fi = from0 as int / 8;
    let fj = from0 as int % 8;
    let to = first_hit(b0, x, y);
    let p = at(b0, fi, fj);
    if p.piece == Piece::EMPTY {
        assert(piece_moves(b0, p, fi as int, fj as int) =~= Seq::empty());
        assert(encoded(piece_moves(b0, p, fi as int, fj as int)) =~= Seq::<Seq<char>>::empty());
        assert(move_list(b0, p, fi as int, fj as int) == Seq::<char>::empty());
        let ml = move_list(b0, p, fi as int, fj as int);
        assert(!contains_seq(ml, square_digits(to)));
    }
    assert(to / 8 != fi || to % 8 != fj);
    assert(at(b1, fi, fj).piece == Piece::EMPTY);
}

/// No click ever adds a piece to the board: a move leaves one square free
/// and fills at most one other.
pub proof fn lemma_click_never_adds_pieces(
    turn0: PColors,
    b0: Board,
    from0: i32,
    turn1: PColors,
    b1: Board,
    msg1: Seq<char>,
    from1: i32,
    x: int,
    y: int,
)
    requires
        valid_selection(from0),
        click_outcome(turn0, b0, from0, turn1, b1, msg1, from1, x, y),
    ensures
        piece_count(b1) <= piece_count(b0),
{
    if turn1 != turn0 {
        lemma_only_own_pieces_move(turn0, b0, from0, turn1, b1, msg1, from1, x, y);
        let o = from0 as int;
        let t = first_hit(b0, x, y);
        assert forall|m: int| 0 <= m < 64 && m != o && m != t implies #[trigger] at(b1, m / 8, m % 8) == at(b0, m / 8, m % 8) by {
            assert(m / 8 != o / 8 || m % 8 != o % 8);
            assert(m / 8 != t / 8 || m % 8 != t % 8);
        }
        lemma_count_after_move(b0, b1, o, t, 0);
    }
}

/// The squares' backgrounds form a checkerboard: the top-left square is
/// black, and two squares next to each other in a row or a column differ.
pub proof fn lemma_shade_checkerboard(i: int, j: int)
    requires
        on_board(i, j),
    ensures
        square_shade_spec(0, 0) == TermColor::Black,
        j + 1 < 8 ==> square_shade_spec(i, j) != square_shade_spec(i, j + 1),
        i + 1 < 8 ==> square_shade_spec(i, j) != square_shade_spec(i + 1, j),
        square_shade_spec(i, j) == TermColor::White || square_shade_spec(i, j) == TermColor::Black,
{
}

/// Every piece of a joined list occurs in the joined text, at a position
/// from which the whole piece fits.
proof fn lemma_join_holds_parts(list: Seq<Seq<char>>, sep: Seq<char>, k: int) -> (pos: int)
    requires
        0 <= k < list.len(),
    ensures
        0 <= pos,
        pos + list[k].len() <= seq_join(list, sep).len(),
        seq_join(list, sep).subrange(pos, pos + list[k].len()) == list[k],
    decreases list.len(),
{
    if list.len() == 1 {
        assert(seq_join(list, sep).subrange(0, list[k].len() as int) =~= list[k]);
        0
    } else {
        let prefix = seq_join(list.drop_last(), sep);
        let whole = seq_join(list, sep);
        assert(whole == prefix + sep + list.last());
        if k == list.len() - 1 {
            let pos: int = prefix.len() as int + sep.len() as int;
            assert(whole.subrange(pos, pos + list[k].len()) =~= list[k]);
            pos
        } else {
            let pos = lemma_join_holds_parts(list.drop_last(), sep, k);
            assert(list.drop_last()[k] == list[k]);
            assert(whole.subrange(pos, pos + list[k].len()) =~= prefix.subrange(pos, pos + list[k].len()));
            pos
        }
    }
}

/// The written list of `moves` holds the two digits of the target of each
/// of its moves, so a click there is accepted when the target is a square
/// of the board other than (x, y).
proof fn lemma_listed_target_found(moves: Seq<Step>, x: int, y: int, k: int)
    requires
        0 <= k < moves.len(),
        on_board(x, y),
        on_board(moves[k].tx, moves[k].ty),
        moves[k].tx != x || moves[k].ty != y,
    ensures
        move_accepted(seq_join(encoded(moves), seq![',']), x * 8 + y, moves[k].tx * 8 + moves[k].ty),
{
    let s = moves[k];
    let t = s.tx * 8 + s.ty;
    assert(t / 8 == s.tx && t % 8 == s.ty);
    let list = encoded(moves);
    assert(list[k] == encode(s));
    let pos = lemma_join_holds_parts(list, seq![','], k);
    let ml = seq_join(list, seq![',']);
    assert(ml.subrange(pos + 2, pos + 4) =~= ml.subrange(pos, pos + list[k].len()).subrange(2, 4));
    let needle = square_digits(t);
    assert(ml.subrange(pos + 2, pos + 4) =~= needle);
    assert(ml.subrange(pos + 2, pos + 2 + needle.len()) == needle);
    assert(contains_seq(ml, needle));
}

/// A move of piece `p` from (x, y) that the game offers can be played:
/// with the piece selected, a click on the move's target square is
/// accepted.
pub proof fn lemma_listed_moves_playable(b: Board, p: ChessPiece, x: int, y: int, k: int)
    requires
        on_board(x, y),
        0 <= k < piece_moves(b, p, x, y).len(),
    ensures
        move_accepted(
            move_list(b, p, x, y),
            x * 8 + y,
            piece_moves(b, p, x, y)[k].tx * 8 + piece_moves(b, p, x, y)[k].ty,
        ),
{
    let moves = piece_moves(b, p, x, y);
    if p.piece == Piece::KNIGHT {
        lemma_knight_jumps(x, y);
        assert(knight_jump(x, y, moves[k]));
    } else {
        lemma_moves_land_fairly(b, p, x, y);
        assert(fair_target(b, p.color, x, y, moves[k]));
    }
    lemma_listed_target_found(moves, x, y, k);
}

/// The characters a written move list is made of: the digits 0 to 7, the
/// promotion mark `Q` and the comma.
pub open spec fn list_char(c: char) -> bool {
    ('0' <= c && c <= '7') || c == 'Q' || c == ','
}

/// Every character of `s` is a move-list character.
pub open spec fn list_text(s: Seq<char>) -> bool {
    forall|i: int| 0 <= i < s.len() ==> list_char(#[trigger] s[i])
}

proof fn lemma_join_alphabet(list: Seq<Seq<char>>)
    requires
        forall|k: int| 0 <= k < list.len() ==> list_text(#[trigger] list[k]),
    ensures
        list_text(seq_join(list, seq![','])),
    decreases list.len(),
{
    if list.len() == 1 {
        assert(list_text(list[0]));
    } else if list.len() > 1 {
        let prefix = seq_join(list.drop_last(), seq![',']);
        assert forall|k: int| 0 <= k < list.drop_last().len() implies list_text(#[trigger] list.drop_last()[k]) by {
            assert(list_text(list[k]));
        }
        lemma_join_alphabet(list.drop_last());
        let whole = prefix + seq![','] + list.last();
        assert(list_text(list[list.len() - 1]));
        assert forall|i: int| 0 <= i < whole.len() implies list_char(#[trigger] whole[i]) by {
            if i < prefix.len() {
                assert(whole[i] == prefix[i]);
            } else if i == prefix.len() {
                assert(whole[i] == ',');
            } else {
                assert(whole[i] == list.last()[i - prefix.len() - 1]);
            }
        }
    }
}

/// A move list shown for any piece holds only the digits 0 to 7, `Q` and
/// commas. So a click beside the board, whose square the game would write
/// with a digit 8, never matches a move.
pub proof fn lemma_move_list_alphabet(b: Board, p: ChessPiece, x: int, y: int)
    ensures
        list_text(move_list(b, p, x, y)),
{
    let list = encoded(piece_moves(b, p, x, y));
    assert forall|k: int| 0 <= k < list.len() implies list_text(#[trigger] list[k]) by {
        let s = piece_moves(b, p, x, y)[k];
        assert(list[k] == encode(s));
        assert forall|i: int| 0 <= i < encode(s).len() implies list_char(#[trigger] encode(s)[i]) by {
        }
    }
    lemma_join_alphabet(list);
}

} // verus!
