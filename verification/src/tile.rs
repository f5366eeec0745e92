//! What a cell holds, and how a dump of the board shows it.

use vstd::prelude::*;
use vstd::string::StringExecFns;
use crate::paint::painted;

verus! {

/// The content of one cell of the board.
#[derive(Debug, Copy, Clone, PartialEq, Eq, Structural)]
pub enum Tile {
    /// The cell holds a mine.
    Bomb,
    /// The cell is free and this many of the cells touching it hold a mine.
    BombNeighbor(u8),
    /// The cell is free and so is every cell touching it.
    Empty,
}

/// The character for a digit.
pub open spec fn digit_char(d: nat) -> char {
    if d == 0 {
        '0'
    } else if d == 1 {
        '1'
    } else if d == 2 {
        '2'
    } else if d == 3 {
        '3'
    } else if d == 4 {
        '4'
    } else if d == 5 {
        '5'
    } else if d == 6 {
        '6'
    } else if d == 7 {
        '7'
    } else if d == 8 {
        '8'
    } else {
        '9'
    }
}

/// A number written in decimal digits, without leading zeros.
pub open spec fn decimal_digits(n: nat) -> Seq<char>
    decreases n,
{
    if n < 10 {
        seq![digit_char(n)]
    } else {
        decimal_digits(n / 10).push(digit_char(n % 10))
    }
}

/// The text of one digit.
fn digit_text(d: u8) -> (s: &'static str)
    requires
        d < 10,
    ensures
        s@ == seq![digit_char(d as nat)],
{
    proof {
        reveal_strlit("0");
        reveal_strlit("1");
        reveal_strlit("2");
        reveal_strlit("3");
        reveal_strlit("4");
        reveal_strlit("5");
        reveal_strlit("6");
        reveal_strlit("7");
        reveal_strlit("8");
        reveal_strlit("9");
    }
    let s: &'static str = if d == 0 {
        "0"
    } else if d == 1 {
        "1"
    } else if d == 2 {
        "2"
    } else if d == 3 {
        "3"
    } else if d == 4 {
        "4"
    } else if d == 5 {
        "5"
    } else if d == 6 {
        "6"
    } else if d == 7 {
        "7"
    } else if d == 8 {
        "8"
    } else {
        "9"
    };
    assert(s@ =~= seq![digit_char(d as nat)]);
    s
}

/// The number in decimal digits.
pub fn decimal(v: u8) -> (s: String)
    ensures
        s@ == decimal_digits(v as nat),
        !s@.contains('\x1b'),
{
    proof {
        reveal_with_fuel(decimal_digits, 3);
    }
    let mut s: String = String::new();
    if v >= 100 {
        s.append(digit_text(v / 100));
    }
    if v >= 10 {
        s.append(digit_text((v / 10) % 10));
    }
    s.append(digit_text(v % 10));
    assert(s@ =~= decimal_digits(v as nat));
    assert(!s@.contains('\x1b')) by {
        if s@.contains('\x1b') {
            let i = choose|i: int| 0 <= i < s@.len() && s@[i] == '\x1b';
            assert(s@[i] == '\x1b');
        }
    }
    s
}

impl Tile {
    /// The character or number that stands for the cell in a dump of the
    /// board.
    pub open spec fn glyph(self) -> Seq<char> {
        match self {
            Tile::Bomb => seq!['*'],
            Tile::BombNeighbor(v) => decimal_digits(v as nat),
            Tile::Empty => seq![' '],
        }
    }

    /// The code of the colour that the cell is dumped in. An empty cell has
    /// none.
    pub open spec fn color_code(self) -> Seq<char> {
        match self {
            Tile::Bomb => seq!['9', '1'],
            Tile::BombNeighbor(v) => if v == 1 {
                seq!['3', '6']
            } else if v == 2 {
                seq!['3', '2']
            } else if v == 3 {
                seq!['3', '3']
            } else {
                seq!['3', '1']
            },
            Tile::Empty => Seq::empty(),
        }
    }

    /// Whether the cell holds a mine.
    pub fn is_bomb(&self) -> (b: bool)
        ensures
            b == (*self is Bomb),
    {
        matches!(self, Tile::Bomb)
    }

    /// The cell as a dump of the board shows it: a bright red `*` for a
    /// mine, the number of mines around a free cell (1 in cyan, 2 in green,
    /// 3 in yellow, any other in red), a blank for an empty cell. Where the
    /// terminal's colours are switched off, the character or number stands
    /// alone.
    pub fn console_output(&self) -> (s: String)
        ensures
            *self is Empty ==> s@ == self.glyph(),
            s@ == self.glyph() || s@ == painted(self.color_code(), self.glyph()),
    {
        proof {
            reveal_strlit("*");
            reveal_strlit("1");
            reveal_strlit("2");
            reveal_strlit("3");
            reveal_strlit(" ");
            reveal_with_fuel(decimal_digits, 2);
        }
        match self {
            Tile::Bomb => {
                assert("*"@ =~= seq!['*']);
                crate::paint::bright_red("*")
            },
            Tile::BombNeighbor(v) => {
                if *v == 1 {
                    assert("1"@ =~= decimal_digits(1));
                    crate::paint::cyan("1")
                } else if *v == 2 {
                    assert("2"@ =~= decimal_digits(2));
                    crate::paint::green("2")
                } else if *v == 3 {
                    assert("3"@ =~= decimal_digits(3));
                    crate::paint::yellow("3")
                } else {
                    let digits: String = decimal(*v);
                    crate::paint::red(digits.as_str())
                }
            },
            Tile::Empty => {
                assert(" "@ =~= seq![' ']);
                crate::paint::normal(" ")
            },
        }
    }
}

} // verus!
