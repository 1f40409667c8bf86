use crate::vector::Vector;
use vstd::prelude::*;
use vstd::string::StringExecFns;

verus! {

/// The fixed color of each player slot, as a CSS hex string.
pub open spec fn spec_color(num: int) -> Seq<char> {
    if num == 0 {
        "#00ff00"@  // green
    } else if num == 1 {
        "#ff0000"@  // red
    } else if num == 2 {
        "#0080ff"@  // blue
    } else {
        "#ffff00"@  // yellow
    }
}

/// The ordinal label of a finishing position.
pub open spec fn spec_ordinal(ord: int) -> Seq<char> {
    if ord == 0 {
        "1st"@
    } else if ord == 1 {
        "2nd"@
    } else if ord == 2 {
        "3rd"@
    } else {
        "4th"@
    }
}

/// The single digit naming a player to humans: slot number plus one.
pub open spec fn spec_player_digit(num: int) -> Seq<char> {
    if num == 0 {
        "1"@
    } else if num == 1 {
        "2"@
    } else if num == 2 {
        "3"@
    } else {
        "4"@
    }
}

/// The fixed color of a player slot, as a CSS hex string.
pub fn color_of(num: u8) -> (s: String)
    requires
        num < 4,
    ensures
        s@ == spec_color(num as int),
{
    let c: &str = if num == 0 {
        "#00ff00"
    } else if num == 1 {
        "#ff0000"
    } else if num == 2 {
        "#0080ff"
    } else {
        "#ffff00"
    };
    c.to_owned()
}

/// An on-screen label: part of the per-tick renderable object list.
pub struct Text {
    pub color: String,
    pub pos: Vector,
    pub text: String,
}

impl Clone for Text {
    /// An exact copy, so that contracts over broadcast objects can speak of
    /// the cloned label by equality.
    fn clone(&self) -> (t: Self)
        ensures
            t == *self,
    {
        Text { color: self.color.clone(), pos: self.pos, text: self.text.clone() }
    }
}

impl Text {
    pub fn new(color: String, pos: Vector, text: String) -> (t: Text)
        ensures
            t.color == color,
            t.pos == pos,
            t.text == text,
    {
        Text { color, pos, text }
    }

    /// A label in the color of player slot `num` at `(x, y)`.
    fn with_color_num(num: u8, x: i64, y: i64, text: String) -> (t: Text)
        requires
            num < 4,
            crate::vector::coord_wrapped(x as int),
            crate::vector::coord_wrapped(y as int),
        ensures
            t.color@ == spec_color(num as int),
            t.pos == (Vector { x, y }),
            t.text == text,
    {
        proof {
            crate::vector::lemma_wrap_val_identity(x as int);
            crate::vector::lemma_wrap_val_identity(y as int);
        }
        Text { color: color_of(num), pos: Vector::new(x, y), text }
    }

    /// The personalized label announcing a player's slot number.
    pub fn player_num(num: u8) -> (t: Text)
        requires
            num < 4,
        ensures
            t.color@ == spec_color(num as int),
            t.pos == (Vector { x: 300_000int as i64, y: 100_000int as i64 }),
            t.text@ == "You are Player "@ + spec_player_digit(num as int),
    {
        let mut s: String = "You are Player ".to_owned();
        s.append(player_digit(num));
        Self::with_color_num(num, 300_000, 100_000, s)
    }

    /// The personalized marker over a player's own ship slot.
    pub fn you(num: u8) -> (t: Text)
        requires
            num < 4,
        ensures
            t.color@ == spec_color(num as int),
            t.pos == (Vector { x: (150_000 + 100_000 * num as int) as i64, y: 250_000int as i64 }),
            t.text@ == "YOU"@,
    {
        Self::with_color_num(num, 150_000 + 100_000 * (num as i64), 250_000, "YOU".to_owned())
    }

    /// The personalized prompt telling a player how to flag ready.
    pub fn space_to_ready(num: u8) -> (t: Text)
        requires
            num < 4,
        ensures
            t.color@ == spec_color(num as int),
            t.pos == (Vector { x: 300_000int as i64, y: 500_000int as i64 }),
            t.text@ == "Space to Ready"@,
    {
        Self::with_color_num(num, 300_000, 500_000, "Space to Ready".to_owned())
    }

    /// The finish-order line for the player of slot `num` at position `ord`.
    pub fn ranking(ord: usize, num: u8) -> (t: Text)
        requires
            ord < 4,
            num < 4,
        ensures
            t.color@ == spec_color(num as int),
            t.pos == (Vector { x: 300_000int as i64, y: (200_000 + 50_000 * ord as int) as i64 }),
            t.text@ == spec_ordinal(ord as int) + " Player"@ + spec_player_digit(num as int),
    {
        let o: &str = if ord == 0 {
            "1st"
        } else if ord == 1 {
            "2nd"
        } else if ord == 2 {
            "3rd"
        } else {
            "4th"
        };
        let mut s: String = o.to_owned();
        s.append(" Player");
        s.append(player_digit(num));
        Self::with_color_num(num, 300_000, 200_000 + 50_000 * (ord as i64), s)
    }
}

/// The digit naming player slot `num` to humans: the slot number plus one.
fn player_digit(num: u8) -> (d: &'static str)
    requires
        num < 4,
    ensures
        d@ == spec_player_digit(num as int),
{
    if num == 0 {
        "1"
    } else if num == 1 {
        "2"
    } else if num == 2 {
        "3"
    } else {
        "4"
    }
}

} // verus!
