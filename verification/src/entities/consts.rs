use vstd::prelude::*;

verus! {

pub const SPACE_SHIP: &'static str = "    ^    \n   /|\\   \n<=[###]=>";

pub const ASTEROID: &'static str = "/##\\\n\\##/";

pub const BASIC_BULLET: &'static str = "|";

pub const SPREAD_BULLET: &'static str = "| | | | |";

} // verus!
