use crate::random::{coin_outcome, lemma_coin_outcome, random_bool};
use crate::text::{lowercase_chars, same_text, to_lowercase};
use vstd::prelude::*;

verus! {

/// One light of the screen, either dark or lit.
#[derive(Copy, Clone, Eq, PartialEq, Structural, Hash, Debug)]
pub enum Pixel {
    Off,
    On,
}

impl Default for Pixel {
    /// A light is dark unless something lights it.
    fn default() -> (pixel: Pixel)
        ensures
            pixel == Pixel::Off,
    {
        Pixel::Off
    }
}

impl Pixel {
    /// The pixel that is lit exactly when `on` holds.
    pub open spec fn lit_when(on: bool) -> Pixel {
        if on {
            Pixel::On
        } else {
            Pixel::Off
        }
    }

    pub fn on(on: bool) -> (pixel: Pixel)
        ensures
            pixel == Pixel::lit_when(on),
    {
        if on {
            Pixel::On
        } else {
            Pixel::Off
        }
    }

    /// The pixel that a number stands for: lit unless it is zero.
    pub fn from_integer(integer: i64) -> (pixel: Pixel)
        ensures
            pixel == Pixel::lit_when(integer != 0),
    {
        Pixel::on(integer != 0)
    }

    /// The pixel that a lower-case name stands for: "on" and "red" light it,
    /// "off" and "black" darken it; other names stand for nothing.
    pub open spec fn named(name: Seq<char>) -> Option<Pixel> {
        if name == "on"@ || name == "red"@ {
            Some(Pixel::On)
        } else if name == "off"@ || name == "black"@ {
            Some(Pixel::Off)
        } else {
            None
        }
    }

    /// Exactly four names stand for a pixel: "on" and "red" for a lit one,
    /// "off" and "black" for a dark one; every other name stands for none.
    pub proof fn lemma_names(name: Seq<char>)
        ensures
            Pixel::named(name) == Some(Pixel::On) <==> (name == "on"@ || name == "red"@),
            Pixel::named(name) == Some(Pixel::Off) <==> (name == "off"@ || name == "black"@),
            Pixel::named(name) is None <==> !(name == "on"@ || name == "red"@ || name == "off"@
                || name == "black"@),
    {
        reveal_strlit("on");
        reveal_strlit("red");
        reveal_strlit("off");
        reveal_strlit("black");
        assert("off"@ != "red"@) by {
            assert("off"@[0] != "red"@[0]);
        }
        assert("off"@ != "on"@) by {
            assert("off"@.len() != "on"@.len());
        }
        assert("black"@ != "on"@ && "black"@ != "red"@) by {
            assert("black"@.len() == 5);
        }
    }

    pub fn from_lowercase_name(name: &str) -> (pixel: Option<Pixel>)
        ensures
            pixel == Pixel::named(name@),
    {
        if same_text(name, "on") || same_text(name, "red") {
            Some(Pixel::On)
        } else if same_text(name, "off") || same_text(name, "black") {
            Some(Pixel::Off)
        } else {
            None
        }
    }

    /// The pixel that a name stands for, in any mix of upper and lower case.
    pub fn from_name(name: &str) -> (pixel: Option<Pixel>)
        ensures
            pixel == Pixel::named(lowercase_chars(name@)),
    {
        let lower = to_lowercase(name);
        Pixel::from_lowercase_name(lower.as_str())
    }
}

/// Whether `pixel` is lit exactly when a coin tossed by the random source came up.
pub open spec fn tossed(pixel: Pixel) -> bool {
    exists|coin: bool| coin_outcome(coin) && pixel == Pixel::lit_when(coin)
}

/// A pixel that is lit or dark with equal chance: lit exactly when a fair
/// coin from the random source comes up.
pub fn random_pixel() -> (pixel: Pixel)
    ensures
        tossed(pixel),
{
    let coin = random_bool();
    proof {
        lemma_coin_outcome(coin);
    }
    Pixel::on(coin)
}

} // verus!
