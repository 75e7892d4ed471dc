//! The colour codec: symbolic colour names and their ANSI SGR parameters.

use vstd::prelude::*;
use vstd::string::StringSliceAdditionalSpecFns;

verus! {

/// A highlight colour, each mapped to a fixed ANSI SGR parameter.
#[derive(Debug, Clone, Copy, PartialEq, Eq, Structural)]
pub enum Color {
    /// Red text (SGR parameter "31").
    Red,
    /// Green text (SGR parameter "32").
    Green,
    /// Blue text (SGR parameter "34").
    Blue,
    /// Bold text (SGR parameter "1").
    Bold,
}

/// The SGR parameter of a colour, as a character sequence.
pub open spec fn spec_color_code(c: Color) -> Seq<char> {
    match c {
        Color::Red => "31"@,
        Color::Green => "32"@,
        Color::Blue => "34"@,
        Color::Bold => "1"@,
    }
}

/// The SGR parameter of a colour, as the bytes that are spliced into an
/// escape sequence. Each byte is an ASCII digit.
pub open spec fn spec_color_code_bytes(c: Color) -> Seq<u8> {
    match c {
        Color::Red => seq![51u8, 49u8],
        Color::Green => seq![51u8, 50u8],
        Color::Blue => seq![51u8, 52u8],
        Color::Bold => seq![49u8],
    }
}

/// Lower-cases one ASCII byte; other bytes are unchanged.
pub open spec fn spec_lower_byte(x: u8) -> u8 {
    if 65 <= x <= 90 {
        (x + 32) as u8
    } else {
        x
    }
}

/// Lower-cases a byte sequence, ASCII letter by ASCII letter.
pub open spec fn spec_lower_bytes(s: Seq<u8>) -> Seq<u8> {
    s.map_values(|x: u8| spec_lower_byte(x))
}

/// The colour a name denotes, compared case-insensitively on the name's
/// UTF-8 bytes; any unknown name denotes no colour.
pub open spec fn spec_color_of_name(b: Seq<u8>) -> Option<Color> {
    let l = spec_lower_bytes(b);
    if l == seq![114u8, 101u8, 100u8] {
        // "red"
        Some(Color::Red)
    } else if l == seq![103u8, 114u8, 101u8, 101u8, 110u8] {
        // "green"
        Some(Color::Green)
    } else if l == seq![98u8, 108u8, 117u8, 101u8] {
        // "blue"
        Some(Color::Blue)
    } else if l == seq![98u8, 111u8, 108u8, 100u8] {
        // "bold"
        Some(Color::Bold)
    } else {
        None
    }
}

impl Color {
    /// Returns the ANSI SGR parameter for this colour.
    pub fn to_code(&self) -> (r: &'static str)
        ensures
            r@ == spec_color_code(*self),
    {
        match self {
            Color::Red => "31",
            Color::Green => "32",
            Color::Blue => "34",
            Color::Bold => "1",
        }
    }

    /// Returns the ANSI SGR parameter for this colour as bytes, for splicing
    /// into an escape sequence.
    pub fn to_code_bytes(&self) -> (r: Vec<u8>)
        ensures
            r@ == spec_color_code_bytes(*self),
    {
        let mut v: Vec<u8> = Vec::new();
        match self {
            Color::Red => {
                v.push(51);
                v.push(49);
            },
            Color::Green => {
                v.push(51);
                v.push(50);
            },
            Color::Blue => {
                v.push(51);
                v.push(52);
            },
            Color::Bold => {
                v.push(49);
            },
        }
        assert(v@ =~= spec_color_code_bytes(*self));
        v
    }

    /// Parses a colour from its name, case-insensitively; unknown names give
    /// `None`.
    pub fn from_string(color_str: &str) -> (r: Option<Color>)
        ensures
            r == spec_color_of_name(color_str.spec_bytes()),
    {
        let b = color_str.as_bytes();
        let n = b.len();
        if n == 3 && lower_byte(b[0]) == 114 && lower_byte(b[1]) == 101 && lower_byte(b[2]) == 100
        {
            proof {
                assert(spec_lower_bytes(b@) =~= seq![114u8, 101u8, 100u8]);
            }
            Some(Color::Red)
        } else if n == 5 && lower_byte(b[0]) == 103 && lower_byte(b[1]) == 114 && lower_byte(
            b[2],
        ) == 101 && lower_byte(b[3]) == 101 && lower_byte(b[4]) == 110 {
            proof {
                assert(spec_lower_bytes(b@) =~= seq![103u8, 114u8, 101u8, 101u8, 110u8]);
            }
            Some(Color::Green)
        } else if n == 4 && lower_byte(b[0]) == 98 && lower_byte(b[1]) == 108 && lower_byte(b[2])
            == 117 && lower_byte(b[3]) == 101 {
            proof {
                assert(spec_lower_bytes(b@) =~= seq![98u8, 108u8, 117u8, 101u8]);
            }
            Some(Color::Blue)
        } else if n == 4 && lower_byte(b[0]) == 98 && lower_byte(b[1]) == 111 && lower_byte(b[2])
            == 108 && lower_byte(b[3]) == 100 {
            proof {
                assert(spec_lower_bytes(b@) =~= seq![98u8, 111u8, 108u8, 100u8]);
            }
            Some(Color::Bold)
        } else {
            proof {
                lemma_no_color_name(b@);
            }
            None
        }
    }
}

/// Lower-cases one ASCII byte.
fn lower_byte(x: u8) -> (r: u8)
    ensures
        r == spec_lower_byte(x),
{
    if 65 <= x && x <= 90 {
        x + 32
    } else {
        x
    }
}

/// A byte sequence whose lower-cased bytes differ from every colour name at
/// some position (or in length) denotes no colour.
proof fn lemma_no_color_name(b: Seq<u8>)
    requires
        !(b.len() == 3 && spec_lower_byte(b[0]) == 114 && spec_lower_byte(b[1]) == 101
            && spec_lower_byte(b[2]) == 100),
        !(b.len() == 5 && spec_lower_byte(b[0]) == 103 && spec_lower_byte(b[1]) == 114
            && spec_lower_byte(b[2]) == 101 && spec_lower_byte(b[3]) == 101 && spec_lower_byte(
            b[4],
        ) == 110),
        !(b.len() == 4 && spec_lower_byte(b[0]) == 98 && spec_lower_byte(b[1]) == 108
            && spec_lower_byte(b[2]) == 117 && spec_lower_byte(b[3]) == 101),
        !(b.len() == 4 && spec_lower_byte(b[0]) == 98 && spec_lower_byte(b[1]) == 111
            && spec_lower_byte(b[2]) == 108 && spec_lower_byte(b[3]) == 100),
    ensures
        spec_color_of_name(b) is None,
{
    let l = spec_lower_bytes(b);
    assert(l.len() == b.len());
    assert(forall|i: int| 0 <= i < b.len() ==> l[i] == spec_lower_byte(b[i]));
}

} // verus!
