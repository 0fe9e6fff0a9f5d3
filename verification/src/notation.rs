use vstd::prelude::*;

verus! {

/// A move from square (fx, fy) to square (tx, ty), the first coordinate being
/// the row; `queen` marks a pawn that is promoted on arrival.
pub struct Step {
    pub fx: int,
    pub fy: int,
    pub tx: int,
    pub ty: int,
    pub queen: bool,
}

/// A plain move between two squares.
pub open spec fn step(fx: int, fy: int, tx: int, ty: int) -> Step {
    Step { fx, fy, tx, ty, queen: false }
}

/// The decimal digit that writes a coordinate of the board.
pub open spec fn digit(d: int) -> char {
    if d == 0 {
        '0'
    } else if d == 1 {
        '1'
    } else if d == 2 {
        '2'
    } else if d == 3 {
        '3'
    } else if d == 4 {
        '4'
    } else if d == 5 {
        '5'
    } else if d == 6 {
        '6'
    } else {
        '7'
    }
}

/// A move written as four digits, origin row and column then target row and
/// column, followed by `Q` when the pawn is promoted.
pub open spec fn encode(s: Step) -> Seq<char> {
    seq![digit(s.fx), digit(s.fy), digit(s.tx), digit(s.ty)] + if s.queen {
        seq!['Q']
    } else {
        Seq::<char>::empty()
    }
}

/// A list of moves, each written out.
pub open spec fn encoded(steps: Seq<Step>) -> Seq<Seq<char>> {
    steps.map_values(|s: Step| encode(s))
}

/// The views of a list of strings.
pub open spec fn texts(v: Seq<String>) -> Seq<Seq<char>> {
    v.map_values(|s: String| s@)
}

/// The pieces of `list` written one after another with `sep` between two
/// neighbours.
pub open spec fn seq_join(list: Seq<Seq<char>>, sep: Seq<char>) -> Seq<char>
    decreases list.len(),
{
    if list.len() == 0 {
        Seq::<char>::empty()
    } else if list.len() == 1 {
        list[0]
    } else {
        seq_join(list.drop_last(), sep) + sep + list.last()
    }
}

/// The one-character string that writes the digit `d`.
fn digit_str(d: usize) -> (s: &'static str)
    requires
        d < 8,
    ensures
        s@ == seq![digit(d as int)],
{
    proof {
        reveal_strlit("0");
        reveal_strlit("1");
        reveal_strlit("2");
        reveal_strlit("3");
        reveal_strlit("4");
        reveal_strlit("5");
        reveal_strlit("6");
        reveal_strlit("7");
    }
    if d == 0 {
        "0"
    } else if d == 1 {
        "1"
    } else if d == 2 {
        "2"
    } else if d == 3 {
        "3"
    } else if d == 4 {
        "4"
    } else if d == 5 {
        "5"
    } else if d == 6 {
        "6"
    } else {
        "7"
    }
}

/// Writes the move from (fx, fy) to (tx, ty), with `Q` for a promotion.
pub fn move_text(fx: usize, fy: usize, tx: usize, ty: usize, queen: bool) -> (s: String)
    requires
        fx < 8,
        fy < 8,
        tx < 8,
        ty < 8,
    ensures
        s@ == encode(Step { fx: fx as int, fy: fy as int, tx: tx as int, ty: ty as int, queen }),
{
    let mut s = String::new();
    s.append(digit_str(fx));
    s.append(digit_str(fy));
    s.append(digit_str(tx));
    s.append(digit_str(ty));
    if queen {
        proof {
            reveal_strlit("Q");
        }
        s.append("Q");
    }
    assert(s@ =~= encode(Step { fx: fx as int, fy: fy as int, tx: tx as int, ty: ty as int, queen }));
    s
}

/// Joins the strings of `list` with `sep` between neighbours.
pub fn join_strings(list: &Vec<String>, sep: &str) -> (res: String)
    ensures
        res@ == seq_join(texts(list@), sep@),
{
    let mut res = String::new();
    let ghost views = texts(list@);
    let n = list.len();
    for i in 0..n
        invariant
            n == list@.len(),
            views == texts(list@),
            res@ == seq_join(views.take(i as int), sep@),
    {
        assert(views.take(i + 1).drop_last() =~= views.take(i as int));
        if i != 0 {
            res.append(sep);
        }
        res.append(list[i].as_str());
    }
    assert(views.take(n as int) =~= views);
    res
}

} // verus!
