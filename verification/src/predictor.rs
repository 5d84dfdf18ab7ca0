use vstd::prelude::*;

use crate::error::ModularError;

verus! {

/// Sample predictors of the modular mode, in the order of their numbers in
/// the bitstream.
#[derive(Debug, Clone, Copy, PartialEq, Eq, Structural)]
pub enum Predictor {
    Zero,
    West,
    North,
    AvgWestAndNorth,
    Select,
    Gradient,
    SelfCorrecting,
    NorthEast,
    NorthWest,
    WestWest,
    AvgWestAndNorthWest,
    AvgNorthAndNorthWest,
    AvgNorthAndNorthEast,
    AvgAll,
}

/// The predictor with number `id`, if there is one.
pub open spec fn predictor_of_id(id: u32) -> Option<Predictor> {
    match id {
        0 => Some(Predictor::Zero),
        1 => Some(Predictor::West),
        2 => Some(Predictor::North),
        3 => Some(Predictor::AvgWestAndNorth),
        4 => Some(Predictor::Select),
        5 => Some(Predictor::Gradient),
        6 => Some(Predictor::SelfCorrecting),
        7 => Some(Predictor::NorthEast),
        8 => Some(Predictor::NorthWest),
        9 => Some(Predictor::WestWest),
        10 => Some(Predictor::AvgWestAndNorthWest),
        11 => Some(Predictor::AvgNorthAndNorthWest),
        12 => Some(Predictor::AvgNorthAndNorthEast),
        13 => Some(Predictor::AvgAll),
        _ => None,
    }
}

impl Predictor {
    /// Decodes a predictor number; numbers above 13 are refused.
    pub fn from_id(id: u32) -> (r: Result<Predictor, ModularError>)
        ensures
            r == (match predictor_of_id(id) {
                Some(p) => Ok(p),
                None => Err(ModularError::InvalidPredictor(id)),
            }),
    {
        match id {
            0 => Ok(Predictor::Zero),
            1 => Ok(Predictor::West),
            2 => Ok(Predictor::North),
            3 => Ok(Predictor::AvgWestAndNorth),
            4 => Ok(Predictor::Select),
            5 => Ok(Predictor::Gradient),
            6 => Ok(Predictor::SelfCorrecting),
            7 => Ok(Predictor::NorthEast),
            8 => Ok(Predictor::NorthWest),
            9 => Ok(Predictor::WestWest),
            10 => Ok(Predictor::AvgWestAndNorthWest),
            11 => Ok(Predictor::AvgNorthAndNorthWest),
            12 => Ok(Predictor::AvgNorthAndNorthEast),
            13 => Ok(Predictor::AvgAll),
            _ => Err(ModularError::InvalidPredictor(id)),
        }
    }

    /// Whether this is the self-correcting (weighted) predictor.
    pub fn is_self_correcting(&self) -> (r: bool)
        ensures
            r == (*self == Predictor::SelfCorrecting),
    {
        match self {
            Predictor::SelfCorrecting => true,
            _ => false,
        }
    }
}

/// The signed integer that an unsigned symbol stands for: even numbers are
/// the non-negative integers, odd numbers the negative ones.
pub open spec fn spec_unpack_signed(x: u32) -> int {
    if x % 2 == 0 {
        (x / 2) as int
    } else {
        -((x / 2) as int) - 1
    }
}

/// Whether `value` is what symbol `s` stands for in zigzag form: an even
/// `s` stands for `s / 2`, an odd one for `-(s + 1) / 2` (so 1 is -1 and 3
/// is -2).
pub open spec fn zigzag(s: u32, value: int) -> bool {
    &&& s % 2 == 0 ==> 2 * value == s
    &&& s % 2 == 1 ==> 2 * value + 1 == -(s as int)
}

/// Unpacking a symbol gives the one value that it stands for in zigzag
/// form, and that value fits in an `i32`.
pub proof fn law_unpack_signed_is_zigzag(s: u32, value: int)
    ensures
        zigzag(s, spec_unpack_signed(s)),
        i32::MIN <= spec_unpack_signed(s) <= i32::MAX,
        zigzag(s, value) ==> value == spec_unpack_signed(s),
{
}

/// Maps an unsigned symbol to the signed integer it encodes
/// (0, 1, 2, 3, 4, ... to 0, -1, 1, -2, 2, ...).
pub fn unpack_signed(x: u32) -> (r: i32)
    ensures
        r as int == spec_unpack_signed(x),
{
    let half: u32 = x / 2;
    if x % 2 == 0 {
        half as i32
    } else {
        -(half as i32) - 1
    }
}

/// The property values of one sample, by property number.
pub struct Properties {
    values: Vec<i32>,
}

impl View for Properties {
    type V = Seq<i32>;

    closed spec fn view(&self) -> Seq<i32> {
        self.values@
    }
}

impl Properties {
    /// Properties with the given values; `values[i]` is property `i`.
    pub fn new(values: Vec<i32>) -> (r: Properties)
        ensures
            r@ == values@,
    {
        Properties { values }
    }

    /// The number of properties.
    pub fn len(&self) -> (r: usize)
        ensures
            r == self@.len(),
    {
        self.values.len()
    }

    /// The value of property `idx`, or an error if there is no such property.
    pub fn get(&self, idx: usize) -> (r: Result<i32, ModularError>)
        ensures
            r == (if idx < self@.len() {
                Ok(self@[idx as int])
            } else {
                Err(ModularError::InvalidProperty(idx))
            }),
    {
        if idx < self.values.len() {
            Ok(self.values[idx])
        } else {
            Err(ModularError::InvalidProperty(idx))
        }
    }
}

} // verus!
