use vstd::prelude::*;

verus! {

use crate::FX_ONE;
use crate::sdf3d::SDF3D;

/// One value of the command stream: markers for word definitions, numbers
/// (fixed-point), shapes, arrays of numbers (all an array ever carries
/// here), and raw command or configuration words.
#[derive(Clone, Debug)]
pub enum Value {
    WordDefinitionStart(),
    WordDefinitionEnd(),
    Number(i64),
    Shape3D(SDF3D),
    Array(Vec<i64>),
    Command(String),
    Config(String),
}

/// The color index a number denotes: its whole-unit part, clamped to a byte.
pub open spec fn color_of_number(v: i64) -> u8 {
    if v < 0 {
        0u8
    } else if (v as int) / (FX_ONE as int) > 255 {
        255u8
    } else {
        ((v as int) / (FX_ONE as int)) as u8
    }
}

impl Value {
    /// The number a value carries, when it carries one.
    pub fn to_number(&self) -> (r: Option<i64>)
        ensures
            r == match *self {
                Value::Number(v) => Some(v),
                _ => None::<i64>,
            },
    {
        match self {
            Value::Number(v) => Some(*v),
            _ => None,
        }
    }

    /// The color index a value denotes, when it is numeric.
    pub fn to_color(&self) -> (r: Option<u8>)
        ensures
            r == match *self {
                Value::Number(v) => Some(color_of_number(v)),
                _ => None::<u8>,
            },
    {
        match self {
            Value::Number(v) => {
                if *v < 0 {
                    Some(0)
                } else {
                    let u = crate::fx::fx_floor_nonneg(*v);
                    if u > 255 {
                        Some(255)
                    } else {
                        Some(u as u8)
                    }
                }
            },
            _ => None,
        }
    }
}

} // verus!
