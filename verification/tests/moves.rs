use tui_chess::board::{check_square_click, get_color, get_piece, in_square, init_board, square_shade};
use tui_chess::moves::Board;
use tui_chess::notation::{join_strings, move_text};
use tui_chess::pieces::{print_e_type, ChessPiece, PColors, Piece, Rect, TermColor};

fn empty_board() -> Board {
    [[ChessPiece::default(); 8]; 8]
}

fn start_board() -> Board {
    let mut board = empty_board();
    init_board(&mut board);
    board
}

fn put(board: &mut Board, x: usize, y: usize, piece: Piece, color: PColors) {
    board[x][y].piece = piece;
    board[x][y].color = color;
}

fn piece(piece: Piece, color: PColors) -> ChessPiece {
    ChessPiece::new(piece, color, Rect { x: 0, y: 0, width: 0, height: 0 })
}

#[test]
fn default_square_is_free_and_black() {
    let d = ChessPiece::default();
    assert_eq!(d.piece, Piece::EMPTY);
    assert_eq!(d.color, PColors::BLACK);
    assert_eq!(d.rec, Rect { x: 0, y: 0, width: 0, height: 0 });
}

#[test]
fn new_keeps_its_fields() {
    let r = Rect { x: 1, y: 2, width: 3, height: 4 };
    let p = ChessPiece::new(Piece::ROOK, PColors::WHITE, r);
    assert_eq!(p.piece, Piece::ROOK);
    assert_eq!(p.color, PColors::WHITE);
    assert_eq!(p.rec, r);
}

#[test]
fn home_pieces_and_sides() {
    assert_eq!(get_piece(0, 0), Piece::ROOK);
    assert_eq!(get_piece(7, 1), Piece::KNIGHT);
    assert_eq!(get_piece(0, 5), Piece::BISHOP);
    assert_eq!(get_piece(7, 3), Piece::QUEEN);
    assert_eq!(get_piece(0, 4), Piece::KING);
    assert_eq!(get_piece(1, 6), Piece::PAWN);
    assert_eq!(get_piece(6, 0), Piece::PAWN);
    assert_eq!(get_piece(3, 3), Piece::EMPTY);
    assert_eq!(get_piece(0, 8), Piece::EMPTY);
    assert_eq!(get_color(0), PColors::BLACK);
    assert_eq!(get_color(1), PColors::BLACK);
    assert_eq!(get_color(2), PColors::WHITE);
    assert_eq!(get_color(7), PColors::WHITE);
}

#[test]
fn starting_position() {
    let b = start_board();
    assert_eq!(b[0][0].piece, Piece::ROOK);
    assert_eq!(b[0][0].color, PColors::BLACK);
    assert_eq!(b[0][0].rec, Rect { x: 5, y: 5, width: 7, height: 4 });
    assert_eq!(b[7][4].piece, Piece::KING);
    assert_eq!(b[7][4].color, PColors::WHITE);
    assert_eq!(b[7][7].rec, Rect { x: 54, y: 33, width: 7, height: 4 });
    // the free middle rows belong to white
    assert_eq!(b[3][3].piece, Piece::EMPTY);
    assert_eq!(b[3][3].color, PColors::WHITE);
    let mut count = 0;
    for row in b.iter() {
        for sq in row.iter() {
            if sq.piece != Piece::EMPTY {
                count += 1;
            }
        }
    }
    assert_eq!(count, 32);
}

#[test]
fn in_square_edges() {
    let r = Rect { x: 5, y: 5, width: 7, height: 4 };
    assert!(in_square(r, 5, 5));
    assert!(in_square(r, 11, 8));
    assert!(!in_square(r, 12, 8));
    assert!(!in_square(r, 11, 9));
    assert!(!in_square(r, 4, 5));
    assert!(!in_square(r, 5, 4));
}

#[test]
fn clicks_find_their_square() {
    let b = start_board();
    assert_eq!(check_square_click(&b, 5, 5), 0);
    assert_eq!(check_square_click(&b, 12, 5), 1);
    assert_eq!(check_square_click(&b, 33, 29), 52);
    assert_eq!(check_square_click(&b, 60, 36), 63);
    assert_eq!(check_square_click(&b, 4, 4), -1);
    assert_eq!(check_square_click(&b, 61, 36), -1);
    assert_eq!(check_square_click(&b, 60, 37), -1);
}

#[test]
fn first_square_wins_on_overlap() {
    let mut b = empty_board();
    b[2][3].rec = Rect { x: 0, y: 0, width: 10, height: 10 };
    b[5][1].rec = Rect { x: 0, y: 0, width: 10, height: 10 };
    assert_eq!(check_square_click(&b, 3, 3), 19);
}

#[test]
fn move_text_writes_digits() {
    assert_eq!(move_text(6, 4, 4, 4, false), "6444");
    assert_eq!(move_text(1, 0, 0, 0, true), "1000Q");
    assert_eq!(move_text(0, 7, 7, 0, false), "0770");
}

#[test]
fn join_puts_commas_between() {
    let v: Vec<String> = vec![];
    assert_eq!(join_strings(&v, ","), "");
    let v = vec![String::from("12")];
    assert_eq!(join_strings(&v, ","), "12");
    let v = vec![String::from("12"), String::from("34"), String::from("5")];
    assert_eq!(join_strings(&v, ","), "12,34,5");
}

#[test]
fn opening_moves() {
    let b = start_board();
    assert_eq!(b[6][4].move_get(6, 4, &b), "6454,6444");
    assert_eq!(b[1][3].move_get(1, 3, &b), "1323,1333");
    assert_eq!(b[7][1].move_get(7, 1, &b), "7152,7150,7163");
    assert_eq!(b[0][6].move_get(0, 6, &b), "0627,0625,0614");
    assert_eq!(b[7][0].move_get(7, 0, &b), "");
    assert_eq!(b[7][4].move_get(7, 4, &b), "");
    assert_eq!(b[7][3].move_get(7, 3, &b), "");
    assert_eq!(b[4][4].move_get(4, 4, &b), "");
}

#[test]
fn rook_slides_and_stops() {
    let mut b = empty_board();
    put(&mut b, 4, 4, Piece::ROOK, PColors::WHITE);
    put(&mut b, 2, 4, Piece::PAWN, PColors::BLACK);
    put(&mut b, 4, 6, Piece::PAWN, PColors::WHITE);
    assert_eq!(
        b[4][4].move_get(4, 4, &b),
        "4434,4424,4454,4464,4474,4443,4442,4441,4440,4445"
    );
}

#[test]
fn bishop_on_a_corner() {
    let mut b = empty_board();
    put(&mut b, 7, 0, Piece::BISHOP, PColors::WHITE);
    assert_eq!(b[7][0].move_get(7, 0, &b), "7061,7052,7043,7034,7025,7016,7007");
}

#[test]
fn queen_is_rook_then_bishop() {
    let mut b = empty_board();
    put(&mut b, 0, 0, Piece::QUEEN, PColors::BLACK);
    put(&mut b, 1, 0, Piece::PAWN, PColors::BLACK);
    put(&mut b, 0, 2, Piece::PAWN, PColors::WHITE);
    put(&mut b, 2, 2, Piece::KNIGHT, PColors::WHITE);
    assert_eq!(b[0][0].move_get(0, 0, &b), "0001,0002,0011,0022");
}

#[test]
fn king_takes_but_not_own() {
    let mut b = empty_board();
    put(&mut b, 0, 0, Piece::KING, PColors::WHITE);
    put(&mut b, 0, 1, Piece::PAWN, PColors::WHITE);
    put(&mut b, 1, 1, Piece::PAWN, PColors::BLACK);
    // the free square (1, 0) is black, which does not stop the king
    assert_eq!(b[0][0].move_get(0, 0, &b), "0010,0011");
}

#[test]
fn knight_lands_on_own_pieces() {
    let mut b = empty_board();
    put(&mut b, 4, 4, Piece::KNIGHT, PColors::WHITE);
    put(&mut b, 6, 5, Piece::PAWN, PColors::WHITE);
    assert_eq!(
        b[4][4].move_get(4, 4, &b),
        "4465,4463,4456,4452,4425,4423,4436,4432"
    );
}

#[test]
fn pawn_promotes_on_the_last_row() {
    let mut b = empty_board();
    put(&mut b, 1, 0, Piece::PAWN, PColors::WHITE);
    put(&mut b, 0, 1, Piece::ROOK, PColors::BLACK);
    assert_eq!(b[1][0].move_get(1, 0, &b), "1000Q,1001Q");
    let mut b = empty_board();
    put(&mut b, 6, 7, Piece::PAWN, PColors::BLACK);
    put(&mut b, 7, 6, Piece::ROOK, PColors::WHITE);
    put(&mut b, 7, 7, Piece::ROOK, PColors::WHITE);
    assert_eq!(b[6][7].move_get(6, 7, &b), "6776Q");
}

#[test]
fn pawn_blocked_and_double_step_blocked() {
    let mut b = empty_board();
    put(&mut b, 6, 2, Piece::PAWN, PColors::WHITE);
    put(&mut b, 4, 2, Piece::PAWN, PColors::BLACK);
    assert_eq!(b[6][2].move_get(6, 2, &b), "6252");
    put(&mut b, 5, 2, Piece::PAWN, PColors::BLACK);
    assert_eq!(b[6][2].move_get(6, 2, &b), "");
}

#[test]
fn diagonal_and_straight_helpers_append() {
    let b = empty_board();
    let p = piece(Piece::BISHOP, PColors::WHITE);
    let mut moves = vec![String::from("x")];
    p.check_diagonal_moves(&mut moves, 0, 0, &b);
    assert_eq!(moves.len(), 8);
    assert_eq!(moves[0], "x");
    assert_eq!(moves[1], "0011");
    let mut moves = Vec::new();
    p.check_straight_moves(&mut moves, 0, 0, &b);
    assert_eq!(moves.len(), 14);
    assert_eq!(moves[0], "0010");
    assert_eq!(moves[7], "0001");
    let mut moves = Vec::new();
    p.check_king_moves(&mut moves, 7, 7, &b);
    assert_eq!(moves, vec!["7766", "7767", "7776"]);
    let mut moves = Vec::new();
    p.check_pawn_moves(&mut moves, 6, 3, &b);
    assert_eq!(moves, vec!["6353", "6343"]);
}

#[test]
fn piece_art_and_names() {
    assert_eq!(Piece::KNIGHT.get_text(), vec!["__^", "L_*|>", "..|_|>"]);
    assert_eq!(Piece::QUEEN.get_text(), vec!["|\\|/|", "\\ /", " |_|"]);
    assert_eq!(Piece::EMPTY.get_text(), vec![""]);
    assert_eq!(Piece::PAWN.get_text().len(), 3);
    assert_eq!(print_e_type(Piece::PAWN), "it's a pawn");
    assert_eq!(print_e_type(Piece::BISHOP), "it's a bishop");
    assert_eq!(print_e_type(Piece::QUEEN), "kindly fock uff");
    assert_eq!(PColors::BLACK.get_color(), TermColor::Blue);
    assert_eq!(PColors::WHITE.get_color(), TermColor::Red);
}

#[test]
fn board_is_a_checkerboard() {
    assert_eq!(square_shade(0, 0), TermColor::Black);
    assert_eq!(square_shade(0, 1), TermColor::White);
    assert_eq!(square_shade(1, 0), TermColor::White);
    assert_eq!(square_shade(1, 1), TermColor::Black);
    for i in 0..8 {
        for j in 0..7 {
            assert_ne!(square_shade(i, j), square_shade(i, j + 1));
            assert_ne!(square_shade(j, i), square_shade(j + 1, i));
        }
    }
}
