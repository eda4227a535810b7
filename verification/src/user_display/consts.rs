use vstd::prelude::*;

verus! {

pub const ZERO: &'static str = "000000\n00  00\n00  00\n00  00\n000000";

pub const ONE: &'static str = "1111\n  11\n  11\n  11\n111111";

pub const TWO: &'static str = "222222\n     2\n222222\n2\n222222";

pub const THREE: &'static str = "333333\n    33\n333333\n    33\n333333";

pub const FOUR: &'static str = "44  44\n44  44\n444444\n    44\n    44";

pub const FIVE: &'static str = "555555\n55\n555555\n    55\n555555";

pub const SIX: &'static str = "666666\n66\n666666\n66  66\n666666";

pub const SEVEN: &'static str = "777777\n    77\n    77\n    77\n    77";

pub const EIGHT: &'static str = "888888\n88  88\n888888\n88  88\n888888";

pub const NINE: &'static str = "999999\n99  99\n999999\n    99\n999999";

pub const X: &'static str = "xx xx\n  x\nxx xx";

pub const HEART: &'static str = " ###   ### \n###########\n###########\n #########\n   #####\n     #";

pub const GAME_OVER_TEXT: &'static str = " #######    #####   ##     ## #########            #######  ##     ## ######### ########\n##         ##   ##  ###   ### ##                  ##     ## ##     ## ##        ##     ##\n##  ####  ######### ## ### ## #######             ##     ##  ##   ##  #######   ########\n##     ## ##     ## ##  #  ## ##                  ##     ##   ## ##   ##        ##   ##\n #######  ##     ## ##     ## #########            #######     ###    ######### ##     ##";

pub const NUMBER_VECTOR: [&'static str; 10] = [ZERO, ONE, TWO, THREE, FOUR, FIVE, SIX, SEVEN, EIGHT, NINE];

/// The drawing of a decimal digit.
pub open spec fn number_text(digit: int) -> &'static str {
    if digit == 0 {
        ZERO
    } else if digit == 1 {
        ONE
    } else if digit == 2 {
        TWO
    } else if digit == 3 {
        THREE
    } else if digit == 4 {
        FOUR
    } else if digit == 5 {
        FIVE
    } else if digit == 6 {
        SIX
    } else if digit == 7 {
        SEVEN
    } else if digit == 8 {
        EIGHT
    } else {
        NINE
    }
}

/// The drawing of a decimal digit.
pub fn number_art(digit: u32) -> (art: &'static str)
    requires
        digit < 10,
    ensures
        art == number_text(digit as int),
{
    NUMBER_VECTOR[digit as usize]
}

} // verus!
