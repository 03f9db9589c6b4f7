//! Quotes: one market's price snapshot per item, with its counts read, and
//! the quote set of a market as a mapping from item id to quote.
use crate::goonmetrics::Types;
use crate::text::{reads_as_float, count_value, is_float_text, parse_count};
use vstd::prelude::*;

verus! {

/// One market's price snapshot for one item. The two counts are numbers; the
/// three figures that may carry a fraction stay in the decimal text in which
/// they were transmitted, checked to be numbers.
#[derive(Debug, PartialEq, Clone)]
pub struct TradeData {
    pub updated: String,
    pub weekly_movement: String,
    pub buy_max: String,
    pub buy_listed: i64,
    pub sell_min: String,
    pub sell_listed: i64,
}

/// A snapshot together with the id of the item it prices.
#[derive(Debug, PartialEq, Clone)]
pub struct Quote {
    pub type_id: i32,
    pub trade_data: TradeData,
}

/// The quotes of one market, in the order in which they were gathered.
#[derive(Debug, PartialEq, Clone)]
pub struct QuoteSet {
    pub quotes: Vec<Quote>,
}

/// Whether every figure of a record is a number: both counts whole numbers,
/// and the weekly movement and both prices numbers with a fraction.
pub open spec fn readable(entry: Types) -> bool {
    let item = entry.record();
    is_float_text(item.all.weekly_movement@) && is_float_text(item.buy.max@) && count_value(
        item.buy.listed@,
    ).is_some() && is_float_text(item.sell.min@) && count_value(item.sell.listed@).is_some()
}

/// The quote that a readable record gives: its counts as numbers, every other
/// field as it stands.
pub open spec fn quote_of_entry(entry: Types) -> Quote {
    let item = entry.record();
    Quote {
        type_id: item.id,
        trade_data: TradeData {
            updated: item.updated,
            weekly_movement: item.all.weekly_movement,
            buy_max: item.buy.max,
            buy_listed: count_value(item.buy.listed@).unwrap(),
            sell_min: item.sell.min,
            sell_listed: count_value(item.sell.listed@).unwrap(),
        },
    }
}

/// The first snapshot for `id` among `quotes`, if there is one.
pub open spec fn lookup(quotes: Seq<Quote>, id: i32) -> Option<TradeData>
    decreases quotes.len(),
{
    if quotes.len() == 0 {
        None
    } else if quotes[0].type_id == id {
        Some(quotes[0].trade_data)
    } else {
        lookup(quotes.drop_first(), id)
    }
}

/// A list of quotes as a mapping: each id that occurs, to its first snapshot.
pub open spec fn quote_map(quotes: Seq<Quote>) -> Map<i32, TradeData> {
    Map::new(|id: i32| lookup(quotes, id).is_some(), |id: i32| lookup(quotes, id).unwrap())
}

/// What `lookup` finds is the snapshot at the least position that carries the
/// id, and it finds nothing only where no position carries it.
pub proof fn lemma_lookup_first(quotes: Seq<Quote>, id: i32)
    ensures
        match lookup(quotes, id) {
            Some(found) => exists|p: int|
                0 <= p < quotes.len() && (#[trigger] quotes[p]).type_id == id && quotes[p].trade_data
                    == found && forall|e: int| 0 <= e < p ==> (#[trigger] quotes[e]).type_id != id,
            None => forall|p: int| 0 <= p < quotes.len() ==> (#[trigger] quotes[p]).type_id != id,
        },
    decreases quotes.len(),
{
    if quotes.len() == 0 {
    } else if quotes[0].type_id == id {
        assert(quotes[0].type_id == id);
    } else {
        let rest = quotes.drop_first();
        lemma_lookup_first(rest, id);
        match lookup(rest, id) {
            Some(found) => {
                let p = choose|p: int|
                    0 <= p < rest.len() && (#[trigger] rest[p]).type_id == id && rest[p].trade_data
                        == found && forall|e: int|
                        0 <= e < p ==> (#[trigger] rest[e]).type_id != id;
                assert(quotes[p + 1] == rest[p]);
                assert forall|e: int| 0 <= e < p + 1 implies (#[trigger] quotes[e]).type_id
                    != id by {
                    if e > 0 {
                        assert(quotes[e] == rest[e - 1]);
                    }
                }
            },
            None => {
                assert forall|p: int| 0 <= p < quotes.len() implies (#[trigger] quotes[p]).type_id
                    != id by {
                    if p > 0 {
                        assert(quotes[p] == rest[p - 1]);
                    }
                }
            },
        }
    }
}

/// Reads one record. `None` where one of its figures is not a number.
pub fn read_quote(entry: &Types) -> (r: Option<Quote>)
    ensures
        r.is_some() == readable(*entry),
        readable(*entry) ==> r == Some(quote_of_entry(*entry)),
{
    match entry {
        Types::Type(item) => {
            if !reads_as_float(item.all.weekly_movement.as_str()) || !reads_as_float(
                item.buy.max.as_str(),
            ) || !reads_as_float(item.sell.min.as_str()) {
                return None;
            }
            let buy_listed: Option<i64> = parse_count(item.buy.listed.as_str());
            let sell_listed: Option<i64> = parse_count(item.sell.listed.as_str());
            match (buy_listed, sell_listed) {
                (Some(bought), Some(sold)) => Some(
                    Quote {
                        type_id: item.id,
                        trade_data: TradeData {
                            updated: item.updated.clone(),
                            weekly_movement: item.all.weekly_movement.clone(),
                            buy_max: item.buy.max.clone(),
                            buy_listed: bought,
                            sell_min: item.sell.min.clone(),
                            sell_listed: sold,
                        },
                    },
                ),
                _ => None,
            }
        },
    }
}

impl TradeData {
    /// A copy of this snapshot.
    pub fn duplicate(&self) -> (copy: TradeData)
        ensures
            copy == *self,
    {
        TradeData {
            updated: self.updated.clone(),
            weekly_movement: self.weekly_movement.clone(),
            buy_max: self.buy_max.clone(),
            buy_listed: self.buy_listed,
            sell_min: self.sell_min.clone(),
            sell_listed: self.sell_listed,
        }
    }
}

impl QuoteSet {
    /// The set as a mapping from item id to snapshot.
    pub open spec fn view(&self) -> Map<i32, TradeData> {
        quote_map(self.quotes@)
    }

    /// The snapshot for `type_id`, if the set has one.
    pub fn find(&self, type_id: i32) -> (found: Option<&TradeData>)
        ensures
            found.is_some() == self@.contains_key(type_id),
            found.is_some() ==> *found.unwrap() == self@[type_id],
    {
        let mut i: usize = 0;
        assert(self.quotes@.skip(0) == self.quotes@);
        while i < self.quotes.len()
            invariant
                i <= self.quotes.len(),
                lookup(self.quotes@, type_id) == lookup(self.quotes@.skip(i as int), type_id),
            decreases self.quotes.len() - i,
        {
            proof {
                assert(self.quotes@.skip(i as int).drop_first() == self.quotes@.skip(i + 1));
            }
            if self.quotes[i].type_id == type_id {
                return Some(&self.quotes[i].trade_data);
            }
            i = i + 1;
        }
        None
    }
}

} // verus!
