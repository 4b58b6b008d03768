//! Renderer-facing data contracts: the color theme and the textual form of a
//! color.  The drawing itself (building and saving the vector image) is the
//! application's job; this module only fixes the values the drawing consumes.

use vstd::prelude::*;
use vstd::string::StringExecFns;

use crate::data_model::NodeType;

verus! {

/// An RGB color.
#[derive(Clone, Copy, Debug, PartialEq, Eq, Structural)]
pub struct Color(pub u8, pub u8, pub u8);

/// The decimal digit characters of `n`, most significant first, no leading
/// zeros (`0` is written as the single character `'0'`).
pub open spec fn dec_str(n: int) -> Seq<char>
    decreases n,
{
    if n < 10 {
        seq![digit_char(n)]
    } else {
        dec_str(n / 10).push(digit_char(n % 10))
    }
}

/// The character for one decimal digit.
pub open spec fn digit_char(d: int) -> char {
    if d == 0 {
        '0'
    } else if d == 1 {
        '1'
    } else if d == 2 {
        '2'
    } else if d == 3 {
        '3'
    } else if d == 4 {
        '4'
    } else if d == 5 {
        '5'
    } else if d == 6 {
        '6'
    } else if d == 7 {
        '7'
    } else if d == 8 {
        '8'
    } else {
        '9'
    }
}

/// The `rgb(r, g, b)` notation for a color.
pub open spec fn rgb_str(c: Color) -> Seq<char> {
    "rgb("@ + dec_str(c.0 as int) + ", "@ + dec_str(c.1 as int) + ", "@ + dec_str(c.2 as int)
        + ")"@
}

/// One decimal digit as a string slice.
fn digit_to_str(d: u8) -> (s: &'static str)
    requires
        d < 10,
    ensures
        s@ == seq![digit_char(d as int)],
{
    proof {
        reveal_strlit("0");
        reveal_strlit("1");
        reveal_strlit("2");
        reveal_strlit("3");
        reveal_strlit("4");
        reveal_strlit("5");
        reveal_strlit("6");
        reveal_strlit("7");
        reveal_strlit("8");
        reveal_strlit("9");
    }
    match d {
        0 => "0",
        1 => "1",
        2 => "2",
        3 => "3",
        4 => "4",
        5 => "5",
        6 => "6",
        7 => "7",
        8 => "8",
        _ => "9",
    }
}

/// The decimal digits of `n`, as a string.
fn byte_to_decimal(n: u8) -> (s: String)
    ensures
        s@ == dec_str(n as int),
{
    if n < 10 {
        String::from_str(digit_to_str(n))
    } else if n < 100 {
        let mut s = String::from_str(digit_to_str(n / 10));
        s.append(digit_to_str(n % 10));
        proof {
            reveal_with_fuel(dec_str, 2);
        }
        assert(s@ =~= dec_str(n as int));
        s
    } else {
        let mut s = String::from_str(digit_to_str(n / 100));
        s.append(digit_to_str((n / 10) % 10));
        s.append(digit_to_str(n % 10));
        proof {
            reveal_with_fuel(dec_str, 3);
            assert((n as int) / 10 / 10 == (n as int) / 100);
        }
        assert(s@ =~= dec_str(n as int));
        s
    }
}

impl Color {
    /// The color in `rgb(r, g, b)` notation, as used in a vector image's
    /// fill attribute.
    pub fn to_rgb_string(&self) -> (s: String)
        ensures
            s@ == rgb_str(*self),
    {
        let mut s = String::from_str("rgb(");
        s.append(byte_to_decimal(self.0).as_str());
        s.append(", ");
        s.append(byte_to_decimal(self.1).as_str());
        s.append(", ");
        s.append(byte_to_decimal(self.2).as_str());
        s.append(")");
        assert(s@ =~= rgb_str(*self));
        s
    }
}

/// The read-only color configuration a drawing consumes: one fill color per
/// node kind, plus the canvas background.
#[derive(Clone, Copy, Debug, PartialEq, Eq, Structural)]
pub struct Theme {
    pub background_color: Color,
    pub command_color: Color,
    pub aggregate_color: Color,
    pub event_color: Color,
    pub policy_color: Color,
}

/// The theme every diagram is drawn with.
pub open spec fn spec_standard_theme() -> Theme {
    Theme {
        background_color: Color(30, 30, 30),
        command_color: Color(100, 200, 255),
        aggregate_color: Color(200, 200, 100),
        event_color: Color(255, 150, 75),
        policy_color: Color(200, 100, 200),
    }
}

/// The theme every diagram is drawn with, as a value.
pub fn standard_theme() -> (t: Theme)
    ensures
        t == spec_standard_theme(),
{
    Theme {
        background_color: Color(30, 30, 30),
        command_color: Color(100, 200, 255),
        aggregate_color: Color(200, 200, 100),
        event_color: Color(255, 150, 75),
        policy_color: Color(200, 100, 200),
    }
}

/// The standard theme's fill color for a node of kind `kind`.
pub open spec fn spec_node_fill(kind: NodeType) -> Color {
    match kind {
        NodeType::Command => spec_standard_theme().command_color,
        NodeType::Aggregate => spec_standard_theme().aggregate_color,
        NodeType::Event => spec_standard_theme().event_color,
        NodeType::Policy => spec_standard_theme().policy_color,
    }
}

/// The fill color a node's tile is painted with, by its kind.
pub fn get_node_fill(node_type: &NodeType) -> (c: Color)
    ensures
        c == spec_node_fill(*node_type),
{
    let theme = standard_theme();
    match node_type {
        NodeType::Command => theme.command_color,
        NodeType::Aggregate => theme.aggregate_color,
        NodeType::Event => theme.event_color,
        NodeType::Policy => theme.policy_color,
    }
}

} // verus!
