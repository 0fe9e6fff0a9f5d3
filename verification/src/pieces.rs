use vstd::prelude::*;

verus! {

/// The kind of a piece standing on a square; `EMPTY` marks a free square.
#[derive(Debug, Clone, Copy, PartialEq, Eq, Structural)]
pub enum Piece {
    KING,
    QUEEN,
    ROOK,
    BISHOP,
    KNIGHT,
    PAWN,
    EMPTY,
}

/// The side a piece belongs to. A free square carries `BLACK`.
#[derive(Debug, Clone, Copy, PartialEq, Eq, Structural)]
pub enum PColors {
    BLACK,
    WHITE,
}

/// A rectangle of terminal cells: its top-left corner and its size.
#[derive(Debug, Clone, Copy, PartialEq, Eq, Structural)]
pub struct Rect {
    pub x: u16,
    pub y: u16,
    pub width: u16,
    pub height: u16,
}

/// One square of the board: what stands there, whose it is, and where the
/// square is drawn on the screen.
#[derive(Debug, Clone, Copy, PartialEq, Eq, Structural)]
pub struct ChessPiece {
    pub piece: Piece,
    pub color: PColors,
    pub rec: Rect,
}

/// The terminal colours the board is drawn with.
#[derive(Debug, Clone, Copy, PartialEq, Eq, Structural)]
pub enum TermColor {
    Blue,
    Red,
    White,
    Black,
}

/// The free square: no piece, `BLACK`, drawn nowhere.
pub open spec fn empty_square() -> ChessPiece {
    ChessPiece {
        piece: Piece::EMPTY,
        color: PColors::BLACK,
        rec: Rect { x: 0, y: 0, width: 0, height: 0 },
    }
}

impl ChessPiece {
    pub fn new(piece: Piece, color: PColors, rec: Rect) -> (res: Self)
        ensures
            res == (ChessPiece { piece, color, rec }),
    {
        Self { piece, color, rec }
    }
}

impl Default for ChessPiece {
    fn default() -> (res: Self)
        ensures
            res == empty_square(),
    {
        ChessPiece {
            piece: Piece::EMPTY,
            color: PColors::BLACK,
            rec: Rect { x: 0, y: 0, width: 0, height: 0 },
        }
    }
}

/// The three lines of text art a piece is drawn with (one empty line for a
/// free square), top to bottom.
pub open spec fn piece_art(p: Piece) -> Seq<Seq<char>> {
    match p {
        Piece::KNIGHT => seq!["__^"@, "L_*|>"@, "..|_|>"@],
        Piece::ROOK => seq!["|^^^|"@, " | |"@, " |___|"@],
        Piece::QUEEN => seq!["|\\|/|"@, "\\ /"@, " |_|"@],
        Piece::BISHOP => seq![" .^."@, " \\ /"@, " |.|"@],
        Piece::KING => seq!["|VVV|"@, "\\ /"@, " |_|"@],
        Piece::PAWN => seq![".-."@, "\\ /"@, " l_l"@],
        Piece::EMPTY => seq![""@],
    }
}

/// The views of a list of string slices.
pub open spec fn str_views(v: Seq<&str>) -> Seq<Seq<char>> {
    v.map_values(|s: &str| s@)
}

/// The colour a side's pieces are drawn in.
pub open spec fn side_hue(c: PColors) -> TermColor {
    match c {
        PColors::BLACK => TermColor::Blue,
        PColors::WHITE => TermColor::Red,
    }
}

/// The sentence that names a piece kind.
pub open spec fn kind_sentence(p: Piece) -> Seq<char> {
    match p {
        Piece::PAWN => "it's a pawn"@,
        Piece::KING => "it's a king"@,
        Piece::ROOK => "it's a rook"@,
        Piece::BISHOP => "it's a bishop"@,
        _ => "kindly fock uff"@,
    }
}

impl Piece {
    /// The text art of this piece, one string per line.
    pub fn get_text(self) -> (lines: Vec<&'static str>)
        ensures
            str_views(lines@) == piece_art(self),
    {
        let lines: Vec<&'static str> = match self {
            Piece::KNIGHT => vec!["__^", "L_*|>", "..|_|>"],
            Piece::ROOK => vec!["|^^^|", " | |", " |___|"],
            Piece::QUEEN => vec!["|\\|/|", "\\ /", " |_|"],
            Piece::BISHOP => vec![" .^.", " \\ /", " |.|"],
            Piece::KING => vec!["|VVV|", "\\ /", " |_|"],
            Piece::PAWN => vec![".-.", "\\ /", " l_l"],
            Piece::EMPTY => vec![""],
        };
        assert(str_views(lines@) =~= piece_art(self));
        lines
    }
}

impl PColors {
    /// The colour pieces of this side are drawn in.
    pub fn get_color(self) -> (hue: TermColor)
        ensures
            hue == side_hue(self),
    {
        match self {
            PColors::BLACK => TermColor::Blue,
            PColors::WHITE => TermColor::Red,
        }
    }
}

/// A sentence naming the kind of a piece.
pub fn print_e_type(input: Piece) -> (text: String)
    ensures
        text@ == kind_sentence(input),
{
    match input {
        Piece::PAWN => String::from_str("it's a pawn"),
        Piece::KING => String::from_str("it's a king"),
        Piece::ROOK => String::from_str("it's a rook"),
        Piece::BISHOP => String::from_str("it's a bishop"),
        _ => String::from_str("kindly fock uff"),
    }
}

} // verus!
