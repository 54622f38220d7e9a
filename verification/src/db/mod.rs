//! The relational state of the reader: records, keys and the store.

use vstd::prelude::*;

use crate::number::{parse_integer, parsed, ParseIntError};

pub mod helper;
pub mod models;
pub mod tables;

pub use helper::Helper;
pub use tables::Error;

verus! {

/// Key of a row.
#[derive(Debug, Clone, Copy, Hash, PartialEq, Eq, Structural)]
pub struct Id(pub i32);

impl View for Id {
    type V = int;

    open spec fn view(&self) -> int {
        self.0 as int
    }
}

impl Id {
    /// The key with the given number.
    pub fn from_raw(value: i32) -> (id: Self)
        ensures
            id == Id(value),
            id@ == value,
    {
        Id(value)
    }

    /// Reads a key in decimal notation.
    pub fn from_str(s: &str) -> (r: Result<Self, ParseIntError>)
        ensures
            match parsed(s@, 10, i32::MIN as int, i32::MAX as int) {
                Ok(value) => r == Ok::<Id, ParseIntError>(Id(value as i32)),
                Err(e) => r == Err::<Id, ParseIntError>(e),
            },
    {
        match parse_integer(s, 10, -0x8000_0000, 0x7fff_ffff) {
            Ok(value) => Ok(Id(value as i32)),
            Err(e) => Err(e),
        }
    }

    /// The number of this key.
    pub fn inner(self) -> (value: i32)
        ensures
            value == self@,
    {
        self.0
    }
}

} // verus!
