//! The price document of the goonmetrics service, as it is transmitted: every
//! number still in its textual form.
use vstd::prelude::*;

verus! {

/// A whole response document.
#[derive(Debug, PartialEq, Clone)]
pub struct Goonmetrics {
    pub price_data: PriceData,
}

/// The price records of one response.
#[derive(Debug, PartialEq, Clone)]
pub struct PriceData {
    pub types: Vec<Types>,
}

/// One entry of a response.
#[derive(Debug, PartialEq, Clone)]
pub enum Types {
    Type(ItemType),
}

/// The price record of one item in one market.
#[derive(Debug, PartialEq, Clone)]
pub struct ItemType {
    pub id: i32,
    pub updated: String,
    pub all: All,
    pub buy: Buy,
    pub sell: Sell,
}

/// Figures over both sides of the market.
#[derive(Debug, PartialEq, Clone)]
pub struct All {
    pub weekly_movement: String,
}

/// The sell side: number of orders and lowest price.
#[derive(Debug, PartialEq, Clone)]
pub struct Sell {
    pub listed: String,
    pub min: String,
}

/// The buy side: number of orders and highest price.
#[derive(Debug, PartialEq, Clone)]
pub struct Buy {
    pub listed: String,
    pub max: String,
}

impl Types {
    /// The record that this entry carries.
    pub open spec fn record(self) -> ItemType {
        match self {
            Types::Type(item) => item,
        }
    }

    /// The id of the item that this entry is about.
    pub fn type_id(&self) -> (id: i32)
        ensures
            id == self.record().id,
    {
        match self {
            Types::Type(item) => item.id,
        }
    }
}

} // verus!
