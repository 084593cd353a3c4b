use vstd::prelude::*;

verus! {

/// The karma level of a user, from zero to five.
#[derive(Debug, Copy, Clone, PartialEq, Eq, Hash, Structural)]
pub enum KarmaLevel {
    Zero,
    One,
    Two,
    Three,
    Four,
    Five,
}

impl KarmaLevel {
    /// The number that a level stands for.
    pub open spec fn number(self) -> u8 {
        match self {
            KarmaLevel::Zero => 0,
            KarmaLevel::One => 1,
            KarmaLevel::Two => 2,
            KarmaLevel::Three => 3,
            KarmaLevel::Four => 4,
            KarmaLevel::Five => 5,
        }
    }

    /// The level that stands for `value`, if it is one of zero to five.
    pub fn new(value: u8) -> (level: Option<KarmaLevel>)
        ensures
            value <= 5 <==> level is Some,
            level matches Some(found) ==> found.number() == value,
    {
        match KarmaLevel::try_from(value) {
            Ok(level) => Some(level),
            Err(_) => None,
        }
    }

    /// The number that this level stands for.
    pub fn value(self) -> (value: u8)
        ensures
            value == self.number(),
            value <= 5,
    {
        match self {
            KarmaLevel::Zero => 0,
            KarmaLevel::One => 1,
            KarmaLevel::Two => 2,
            KarmaLevel::Three => 3,
            KarmaLevel::Four => 4,
            KarmaLevel::Five => 5,
        }
    }

    /// The level that stands for `value`, or `value` itself where there is none.
    pub fn try_from(value: u8) -> (level: Result<KarmaLevel, u8>)
        ensures
            value <= 5 <==> level is Ok,
            level matches Ok(found) ==> found.number() == value,
            level matches Err(rejected) ==> rejected == value,
    {
        match value {
            0 => Ok(KarmaLevel::Zero),
            1 => Ok(KarmaLevel::One),
            2 => Ok(KarmaLevel::Two),
            3 => Ok(KarmaLevel::Three),
            4 => Ok(KarmaLevel::Four),
            5 => Ok(KarmaLevel::Five),
            _ => Err(value),
        }
    }

    /// The level written as its number, one decimal digit.
    pub fn to_string(self) -> (text: String)
        ensures
            text@ == seq![KarmaLevel::digit(self.number())],
    {
        let digit = match self {
            KarmaLevel::Zero => '0',
            KarmaLevel::One => '1',
            KarmaLevel::Two => '2',
            KarmaLevel::Three => '3',
            KarmaLevel::Four => '4',
            KarmaLevel::Five => '5',
        };
        let mut text = String::new();
        text.push(digit);
        assert(text@ =~= seq![digit]);
        text
    }

    /// The decimal digit for a number below ten.
    pub open spec fn digit(number: u8) -> char {
        if number == 0 {
            '0'
        } else if number == 1 {
            '1'
        } else if number == 2 {
            '2'
        } else if number == 3 {
            '3'
        } else if number == 4 {
            '4'
        } else if number == 5 {
            '5'
        } else if number == 6 {
            '6'
        } else if number == 7 {
            '7'
        } else if number == 8 {
            '8'
        } else {
            '9'
        }
    }
}

impl From<KarmaLevel> for u8 {
    fn from(level: KarmaLevel) -> (value: u8) {
        level.value()
    }
}

impl vstd::std_specs::convert::FromSpecImpl<KarmaLevel> for u8 {
    open spec fn obeys_from_spec() -> bool {
        true
    }

    open spec fn from_spec(level: KarmaLevel) -> u8 {
        level.number()
    }
}

} // verus!
