use vstd::prelude::*;

verus! {

/// Which side of the book an event belongs to.
#[derive(Clone, Copy, Debug, PartialEq, Eq, Structural)]
pub enum Side {
    Bid,
    Ask,
}

/// Whether a record adds or changes a resting order, or removes it.
#[derive(Clone, Copy, Debug, PartialEq, Eq, Structural)]
pub enum Action {
    Upsert,
    Cancel,
}

/// The logical channel that produced a record.
#[derive(Clone, Copy, Debug, PartialEq, Eq, Structural)]
pub enum Source {
    Book,
    Trade,
}

/// The canonical fixed-width event.
///
/// `price` is in hundredths, `size` in millionths of a unit; `size` is always
/// a magnitude, the sign of the raw amount being carried by `side`.
#[derive(Clone, Copy, Debug, PartialEq, Eq, Structural)]
pub struct Record {
    pub id: u64,
    pub price: i32,
    pub size: u64,
    pub side: Side,
    pub action: Action,
    pub source: Source,
}

impl Side {
    /// The byte that stands for this side in the shared layout.
    pub fn code(&self) -> (r: u8)
        ensures
            r == (if *self == Side::Bid { 0u8 } else { 1u8 }),
    {
        match self {
            Side::Bid => 0,
            Side::Ask => 1,
        }
    }
}

impl Action {
    /// The byte that stands for this action in the shared layout.
    pub fn code(&self) -> (r: u8)
        ensures
            r == (if *self == Action::Upsert { 0u8 } else { 1u8 }),
    {
        match self {
            Action::Upsert => 0,
            Action::Cancel => 1,
        }
    }
}

impl Source {
    /// The byte that stands for this source in the shared layout.
    pub fn code(&self) -> (r: u8)
        ensures
            r == (if *self == Source::Book { 0u8 } else { 1u8 }),
    {
        match self {
            Source::Book => 0,
            Source::Trade => 1,
        }
    }
}

} // verus!
