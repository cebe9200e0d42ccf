//! The on/off switch that a feature request may carry.

use vstd::prelude::*;
use vstd::std_specs::convert::FromSpecImpl;
use crate::text::same_text;

verus! {

/// An explicit request to switch a feature off or on.
#[derive(Clone, Copy, Debug, PartialEq, Eq, Structural)]
pub enum Flipper {
    Off,
    On,
}

/// The words that switch a feature on.
pub open spec fn is_on_word(s: Seq<char>) -> bool {
    s == "on"@ || s == "ON"@ || s == "true"@ || s == "yes"@ || s == "y"@ || s == "1"@
}

/// The words that switch a feature off.
pub open spec fn is_off_word(s: Seq<char>) -> bool {
    s == "0"@ || s == "n"@ || s == "no"@ || s == "false"@ || s == "OFF"@ || s == "off"@
}

/// What a word means as a switch, if it means anything.
pub open spec fn word_meaning(s: Seq<char>) -> Option<Flipper> {
    if is_on_word(s) {
        Some(Flipper::On)
    } else if is_off_word(s) {
        Some(Flipper::Off)
    } else {
        None
    }
}

/// What is said of a word that is no switch.
pub open spec fn refusal() -> Seq<char> {
    "This is not a valid feature flag value."@
}

impl From<bool> for Flipper {
    fn from(v: bool) -> (r: Flipper) {
        if v {
            Flipper::On
        } else {
            Flipper::Off
        }
    }
}

impl FromSpecImpl<bool> for Flipper {
    open spec fn obeys_from_spec() -> bool {
        true
    }

    open spec fn from_spec(v: bool) -> Flipper {
        if v {
            Flipper::On
        } else {
            Flipper::Off
        }
    }
}

impl Flipper {
    /// Reads a switch from one of the accepted words; any other word is
    /// refused.
    pub fn parse(s: &str) -> (r: Option<Flipper>)
        ensures
            r == word_meaning(s@),
    {
        if same_text(s, "on") || same_text(s, "ON") || same_text(s, "true") || same_text(s, "yes")
            || same_text(s, "y") || same_text(s, "1") {
            Some(Flipper::On)
        } else if same_text(s, "0") || same_text(s, "n") || same_text(s, "no") || same_text(
            s,
            "false",
        ) || same_text(s, "OFF") || same_text(s, "off") {
            Some(Flipper::Off)
        } else {
            None
        }
    }

    /// Whether the switch is on.
    pub fn is_on(&self) -> (r: bool)
        ensures
            r == (*self == Flipper::On),
    {
        match self {
            Flipper::On => true,
            Flipper::Off => false,
        }
    }
}

impl std::str::FromStr for Flipper {
    type Err = String;

    /// Reads a switch from one of the accepted words. Any other word is an
    /// error that says so.
    fn from_str(s: &str) -> (r: Result<Flipper, String>)
        ensures
            r is Ok == word_meaning(s@) is Some,
            r is Ok ==> Some(r->Ok_0) == word_meaning(s@),
            r is Err ==> r->Err_0@ == refusal(),
    {
        match Flipper::parse(s) {
            Some(f) => Ok(f),
            None => Err("This is not a valid feature flag value.".to_owned()),
        }
    }
}

} // verus!
