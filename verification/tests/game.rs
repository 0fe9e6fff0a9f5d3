use tui_chess::board::init_board;
use tui_chess::game::{handle_click, handle_events, UiEvent};
use tui_chess::moves::Board;
use tui_chess::pieces::{ChessPiece, PColors, Piece};

struct Game {
    turn: PColors,
    board: Board,
    message: String,
    from: i32,
}

fn new_game() -> Game {
    let mut board = [[ChessPiece::default(); 8]; 8];
    init_board(&mut board);
    Game { turn: PColors::WHITE, board, message: String::new(), from: -1 }
}

/// The terminal cell at the top-left corner of square (i, j).
fn cell(i: u16, j: u16) -> (u16, u16) {
    (5 + 7 * j, 5 + 4 * i)
}

fn click(g: &mut Game, i: u16, j: u16) -> bool {
    let (column, row) = cell(i, j);
    handle_events(
        &mut g.turn,
        &mut g.board,
        &mut g.message,
        &mut g.from,
        UiEvent::Mouse { left_down: true, column, row },
    )
}

fn pieces(b: &Board) -> usize {
    b.iter().flatten().filter(|s| s.piece != Piece::EMPTY).count()
}

#[test]
fn q_press_quits() {
    let mut g = new_game();
    let quit = handle_events(&mut g.turn, &mut g.board, &mut g.message, &mut g.from, UiEvent::Key { pressed: true, ch: Some('q') });
    assert!(quit);
    let quit = handle_events(&mut g.turn, &mut g.board, &mut g.message, &mut g.from, UiEvent::Key { pressed: false, ch: Some('q') });
    assert!(!quit);
    let quit = handle_events(&mut g.turn, &mut g.board, &mut g.message, &mut g.from, UiEvent::Key { pressed: true, ch: Some('x') });
    assert!(!quit);
    let quit = handle_events(&mut g.turn, &mut g.board, &mut g.message, &mut g.from, UiEvent::Key { pressed: true, ch: None });
    assert!(!quit);
    let quit = handle_events(&mut g.turn, &mut g.board, &mut g.message, &mut g.from, UiEvent::Other);
    assert!(!quit);
    assert_eq!(g.from, -1);
    assert_eq!(g.turn, PColors::WHITE);
}

#[test]
fn other_mouse_events_change_nothing() {
    let mut g = new_game();
    g.message = String::from("keep");
    let quit = handle_events(&mut g.turn, &mut g.board, &mut g.message, &mut g.from, UiEvent::Mouse { left_down: false, column: 33, row: 29 });
    assert!(!quit);
    assert_eq!(g.message, "keep");
    assert_eq!(g.from, -1);
}

#[test]
fn first_click_selects() {
    let mut g = new_game();
    g.message = String::from("old");
    assert!(!click(&mut g, 6, 4));
    assert_eq!(g.from, 52);
    assert_eq!(g.message, "");
    assert_eq!(g.turn, PColors::WHITE);
}

#[test]
fn first_click_off_the_board_selects_nothing() {
    let mut g = new_game();
    handle_click(&mut g.turn, &mut g.board, &mut g.message, &mut g.from, 0, 0);
    assert_eq!(g.from, -1);
    assert_eq!(g.message, "");
}

#[test]
fn pawn_double_step() {
    let mut g = new_game();
    click(&mut g, 6, 4);
    click(&mut g, 4, 4);
    assert_eq!(g.message, "true");
    assert_eq!(g.from, -1);
    assert_eq!(g.turn, PColors::BLACK);
    assert_eq!(g.board[4][4].piece, Piece::PAWN);
    assert_eq!(g.board[4][4].color, PColors::WHITE);
    assert_eq!(g.board[6][4].piece, Piece::EMPTY);
    assert_eq!(g.board[6][4].color, PColors::BLACK);
    // the squares keep their places on the screen
    assert_eq!(g.board[4][4].rec.x, 33);
    assert_eq!(g.board[4][4].rec.y, 21);
    assert_eq!(g.board[6][4].rec.y, 29);
}

#[test]
fn wrong_side_is_refused() {
    let mut g = new_game();
    click(&mut g, 1, 4);
    click(&mut g, 3, 4);
    assert_eq!(g.message, "wrong color");
    assert_eq!(g.from, -1);
    assert_eq!(g.turn, PColors::WHITE);
    assert_eq!(g.board[1][4].piece, Piece::PAWN);
    assert_eq!(g.board[3][4].piece, Piece::EMPTY);
}

#[test]
fn illegal_target_shows_the_moves() {
    let mut g = new_game();
    click(&mut g, 6, 4);
    click(&mut g, 3, 4);
    assert_eq!(g.message, "6454,6444");
    assert_eq!(g.from, -1);
    assert_eq!(g.turn, PColors::WHITE);
    assert_eq!(g.board[6][4].piece, Piece::PAWN);
}

#[test]
fn clicking_the_selected_square_again_moves_nothing() {
    let mut g = new_game();
    click(&mut g, 6, 4);
    click(&mut g, 6, 4);
    assert_eq!(g.message, "6454,6444");
    assert_eq!(g.from, -1);
    assert_eq!(g.turn, PColors::WHITE);
}

#[test]
fn missed_second_click_shows_the_moves() {
    let mut g = new_game();
    click(&mut g, 7, 1);
    handle_click(&mut g.turn, &mut g.board, &mut g.message, &mut g.from, 0, 0);
    assert_eq!(g.message, "7152,7150,7163");
    assert_eq!(g.from, -1);
    assert_eq!(g.turn, PColors::WHITE);
}

#[test]
fn target_digits_anywhere_in_the_list_are_taken() {
    // "6454,6444" holds "45" across the first move, so (4, 5) is taken
    let mut g = new_game();
    click(&mut g, 6, 4);
    click(&mut g, 4, 5);
    assert_eq!(g.message, "true");
    assert_eq!(g.board[4][5].piece, Piece::PAWN);
    assert_eq!(g.board[4][5].color, PColors::WHITE);
    assert_eq!(g.board[6][4].piece, Piece::EMPTY);
    assert_eq!(g.turn, PColors::BLACK);
}

#[test]
fn knight_takes_own_piece() {
    let mut g = new_game();
    click(&mut g, 7, 1);
    click(&mut g, 6, 3);
    assert_eq!(g.message, "true");
    assert_eq!(g.board[6][3].piece, Piece::KNIGHT);
    assert_eq!(pieces(&g.board), 31);
}

#[test]
fn capture_removes_a_piece() {
    let mut g = new_game();
    assert_eq!(pieces(&g.board), 32);
    click(&mut g, 6, 4);
    click(&mut g, 4, 4);
    click(&mut g, 1, 3);
    click(&mut g, 3, 3);
    assert_eq!(g.turn, PColors::WHITE);
    click(&mut g, 4, 4);
    click(&mut g, 3, 3);
    assert_eq!(g.message, "true");
    assert_eq!(g.board[3][3].color, PColors::WHITE);
    assert_eq!(pieces(&g.board), 31);
    assert_eq!(g.turn, PColors::BLACK);
}

#[test]
fn pawn_reaching_the_last_row_becomes_a_queen() {
    let mut g = new_game();
    g.board[1][0].piece = Piece::PAWN;
    g.board[1][0].color = PColors::WHITE;
    g.board[0][0].piece = Piece::EMPTY;
    click(&mut g, 1, 0);
    click(&mut g, 0, 0);
    assert_eq!(g.message, "true");
    assert_eq!(g.board[0][0].piece, Piece::QUEEN);
    assert_eq!(g.board[0][0].color, PColors::WHITE);
    assert_eq!(g.board[1][0].piece, Piece::EMPTY);
    // black promotes on the bottom row
    let mut g = new_game();
    g.turn = PColors::BLACK;
    g.board[6][7].piece = Piece::PAWN;
    g.board[6][7].color = PColors::BLACK;
    click(&mut g, 6, 7);
    click(&mut g, 7, 6);
    assert_eq!(g.message, "true");
    assert_eq!(g.board[7][6].piece, Piece::QUEEN);
    assert_eq!(g.board[7][6].color, PColors::BLACK);
}

#[test]
fn empty_square_of_the_side_to_move_has_no_moves() {
    let mut g = new_game();
    g.turn = PColors::BLACK;
    g.board[3][3].color = PColors::BLACK;
    click(&mut g, 3, 3);
    click(&mut g, 2, 3);
    assert_eq!(g.message, "");
    assert_eq!(g.turn, PColors::BLACK);
    assert_eq!(pieces(&g.board), 32);
}

#[test]
fn every_listed_move_can_be_played() {
    let start = new_game();
    for (i, j) in [(6u16, 4u16), (7, 1), (7, 6), (6, 0)] {
        let list = start.board[i as usize][j as usize].move_get(i as i32, j as i32, &start.board);
        assert!(!list.is_empty());
        for mv in list.split(',') {
            let d: Vec<u16> = mv.chars().take(4).map(|c| c.to_digit(10).unwrap() as u16).collect();
            assert_eq!((d[0], d[1]), (i, j));
            let mut g = new_game();
            click(&mut g, i, j);
            click(&mut g, d[2], d[3]);
            assert_eq!(g.message, "true");
            assert_eq!(g.turn, PColors::BLACK);
            assert_eq!(g.board[i as usize][j as usize].piece, Piece::EMPTY);
        }
    }
}

#[test]
fn move_lists_use_digits_up_to_seven() {
    let g = new_game();
    for i in 0..8usize {
        for j in 0..8usize {
            let list = g.board[i][j].move_get(i as i32, j as i32, &g.board);
            assert!(list.chars().all(|c| ('0'..='7').contains(&c) || c == 'Q' || c == ','));
        }
    }
}
