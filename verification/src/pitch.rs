//! Musical pitch.

use vstd::prelude::*;
use vstd::string::*;

verus! {

/// A pitch, as a MIDI note number (0..=127; A4 is 69, 440 Hz).
#[derive(Debug, Clone, Copy, PartialEq, Eq, Structural, PartialOrd, Ord, Hash)]
pub struct Pitch(pub u8);

impl Pitch {
    /// A4, 440 Hz — the reference pitch tuning is built from.
    pub fn a4() -> (p: Pitch)
        ensures
            p == Pitch(69),
    {
        Pitch(69)
    }
}

/// The character for the decimal digit `d` (`0 <= d < 10`).
pub open spec fn digit_char(d: int) -> char {
    (48 + d) as char
}

/// The decimal digits of `n`, most significant first, with no leading zeros.
pub open spec fn decimal(n: nat) -> Seq<char>
    decreases n,
{
    if n < 10 {
        seq![digit_char(n as int)]
    } else {
        decimal(n / 10).push(digit_char((n % 10) as int))
    }
}

/// `n` written in decimal, with a leading `-` when negative.
pub open spec fn signed_decimal(n: int) -> Seq<char> {
    if n < 0 {
        seq!['-'] + decimal((-n) as nat)
    } else {
        decimal(n as nat)
    }
}

/// The name of pitch class `class` (0 is C, 11 is B), sharps rather than flats.
pub open spec fn class_name(class: int) -> Seq<char> {
    if class == 0 {
        seq!['C']
    } else if class == 1 {
        seq!['C', '#']
    } else if class == 2 {
        seq!['D']
    } else if class == 3 {
        seq!['D', '#']
    } else if class == 4 {
        seq!['E']
    } else if class == 5 {
        seq!['F']
    } else if class == 6 {
        seq!['F', '#']
    } else if class == 7 {
        seq!['G']
    } else if class == 8 {
        seq!['G', '#']
    } else if class == 9 {
        seq!['A']
    } else if class == 10 {
        seq!['A', '#']
    } else {
        seq!['B']
    }
}

/// A pitch's name in scientific pitch notation: its class, then its octave, where middle C
/// (60) is `C4`.
pub open spec fn pitch_name(p: Pitch) -> Seq<char> {
    class_name((p.0 % 12) as int) + signed_decimal(p.0 / 12 - 1)
}

/// The label of pitch class `class`.
fn class_label(class: u8) -> (s: &'static str)
    requires
        class < 12,
    ensures
        s@ == class_name(class as int),
{
    if class == 0 {
        proof { reveal_strlit("C"); }
        "C"
    } else if class == 1 {
        proof { reveal_strlit("C#"); }
        "C#"
    } else if class == 2 {
        proof { reveal_strlit("D"); }
        "D"
    } else if class == 3 {
        proof { reveal_strlit("D#"); }
        "D#"
    } else if class == 4 {
        proof { reveal_strlit("E"); }
        "E"
    } else if class == 5 {
        proof { reveal_strlit("F"); }
        "F"
    } else if class == 6 {
        proof { reveal_strlit("F#"); }
        "F#"
    } else if class == 7 {
        proof { reveal_strlit("G"); }
        "G"
    } else if class == 8 {
        proof { reveal_strlit("G#"); }
        "G#"
    } else if class == 9 {
        proof { reveal_strlit("A"); }
        "A"
    } else if class == 10 {
        proof { reveal_strlit("A#"); }
        "A#"
    } else {
        proof { reveal_strlit("B"); }
        "B"
    }
}

/// The single decimal digit `d`, as text.
fn digit_label(d: u8) -> (s: &'static str)
    requires
        d < 10,
    ensures
        s@ == seq![digit_char(d as int)],
{
    if d == 0 {
        proof { reveal_strlit("0"); }
        "0"
    } else if d == 1 {
        proof { reveal_strlit("1"); }
        "1"
    } else if d == 2 {
        proof { reveal_strlit("2"); }
        "2"
    } else if d == 3 {
        proof { reveal_strlit("3"); }
        "3"
    } else if d == 4 {
        proof { reveal_strlit("4"); }
        "4"
    } else if d == 5 {
        proof { reveal_strlit("5"); }
        "5"
    } else if d == 6 {
        proof { reveal_strlit("6"); }
        "6"
    } else if d == 7 {
        proof { reveal_strlit("7"); }
        "7"
    } else if d == 8 {
        proof { reveal_strlit("8"); }
        "8"
    } else {
        proof { reveal_strlit("9"); }
        "9"
    }
}

impl Pitch {
    /// Return the pitch's name, in scientific pitch notation (`"A4"`, `"C#5"`, ...) — MIDI's own
    /// convention, where middle C (60) is `C4`.
    pub fn name(self) -> (s: String)
        ensures
            s@ == pitch_name(self),
    {
        let class = self.0 % 12;
        let mut s = String::from_str(class_label(class));
        let octave_plus_one: u8 = self.0 / 12;
        if octave_plus_one == 0 {
            proof { reveal_strlit("-1"); }
            s.append("-1");
            assert(s@ == class_name(class as int) + signed_decimal(-1));
        } else {
            let octave: u8 = octave_plus_one - 1;
            proof { reveal(decimal); }
            if octave >= 10 {
                s.append(digit_label(octave / 10));
                assert(decimal((octave / 10) as nat) == seq![digit_char((octave / 10) as int)]);
            }
            s.append(digit_label(octave % 10));
        }
        s
    }
}

} // verus!
