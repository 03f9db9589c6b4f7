//! The join of the item catalog with the quote sets of the two markets.
use crate::quotes::{QuoteSet, TradeData};
use crate::text::{decimal_text, push_decimal};
use vstd::prelude::*;
use vstd::string::*;

verus! {

/// One tracked item. `V` is the catalog's measure of the item's volume, which
/// this library only carries along. Both snapshots are absent until the item
/// has been merged, and both present afterwards.
#[derive(Debug, PartialEq, Clone)]
pub struct ItemData<V> {
    pub type_id: i32,
    pub type_volume: V,
    pub item_name: String,
    pub jita_trade_data: Option<TradeData>,
    pub abroad_trade_data: Option<TradeData>,
}

impl<V> ItemData<V> {
    /// Whether the item carries the snapshots of both markets.
    pub open spec fn is_merged(self) -> bool {
        self.jita_trade_data.is_some() && self.abroad_trade_data.is_some()
    }

    /// An item as the catalog gives it, with no snapshot yet.
    pub fn new(type_id: i32, type_volume: V, item_name: String) -> (item: Self)
        ensures
            item == (ItemData {
                type_id,
                type_volume,
                item_name,
                jita_trade_data: None,
                abroad_trade_data: None,
            }),
    {
        ItemData { type_id, type_volume, item_name, jita_trade_data: None, abroad_trade_data: None }
    }
}

/// The two markets that are compared: goods are bought in Jita and sold
/// abroad.
#[derive(Debug, PartialEq, Eq, Clone, Copy)]
pub enum Market {
    Jita,
    Abroad,
}

/// An item of the catalog for which a market has no quote.
#[derive(Debug, PartialEq, Eq, Clone, Copy)]
pub struct MissingQuote {
    pub type_id: i32,
    pub market: Market,
}

/// The name under which a market appears in messages.
pub open spec fn market_text(market: Market) -> Seq<char> {
    match market {
        Market::Jita => "Jita"@,
        Market::Abroad => "abroad"@,
    }
}

/// The message that reports a missing quote.
pub open spec fn missing_quote_text(gap: MissingQuote) -> Seq<char> {
    "no quote for item "@ + decimal_text(gap.type_id as int) + " in market "@ + market_text(
        gap.market,
    )
}

impl Market {
    /// The name under which the market appears in messages.
    pub fn name(&self) -> (name: &'static str)
        ensures
            name@ == market_text(*self),
    {
        match self {
            Market::Jita => "Jita",
            Market::Abroad => "abroad",
        }
    }
}

impl MissingQuote {
    /// A message that names the item and the market that lacks it.
    pub fn message(&self) -> (text: String)
        ensures
            text@ == missing_quote_text(*self),
    {
        let mut text: String = String::from_str("no quote for item ");
        push_decimal(&mut text, self.type_id);
        text.append(" in market ");
        text.append(self.market.name());
        text
    }
}

/// Whether both markets quote the item `id`.
pub open spec fn priced(id: i32, jita: Map<i32, TradeData>, abroad: Map<i32, TradeData>) -> bool {
    jita.contains_key(id) && abroad.contains_key(id)
}

/// The item with the snapshots of both markets attached.
pub open spec fn merged_item<V>(
    item: ItemData<V>,
    jita: Map<i32, TradeData>,
    abroad: Map<i32, TradeData>,
) -> ItemData<V> {
    ItemData {
        type_id: item.type_id,
        type_volume: item.type_volume,
        item_name: item.item_name,
        jita_trade_data: Some(jita[item.type_id]),
        abroad_trade_data: Some(abroad[item.type_id]),
    }
}

/// What is reported for an item that is not priced in both markets: its id,
/// and Jita if Jita lacks it, else the market abroad.
pub open spec fn missing_quote(
    id: i32,
    jita: Map<i32, TradeData>,
    abroad: Map<i32, TradeData>,
) -> MissingQuote {
    MissingQuote {
        type_id: id,
        market: if jita.contains_key(id) {
            Market::Abroad
        } else {
            Market::Jita
        },
    }
}

/// Whether both markets quote every item of the catalog.
pub open spec fn all_priced<V>(
    items: Seq<ItemData<V>>,
    jita: Map<i32, TradeData>,
    abroad: Map<i32, TradeData>,
) -> bool {
    forall|i: int| 0 <= i < items.len() ==> priced((#[trigger] items[i]).type_id, jita, abroad)
}

/// Whether `gap` reports the first item of the catalog that is not priced in
/// both markets.
pub open spec fn first_gap<V>(
    items: Seq<ItemData<V>>,
    jita: Map<i32, TradeData>,
    abroad: Map<i32, TradeData>,
    gap: MissingQuote,
) -> bool {
    exists|i: int|
        0 <= i < items.len() && !priced((#[trigger] items[i]).type_id, jita, abroad) && gap
            == missing_quote(items[i].type_id, jita, abroad) && forall|e: int|
            0 <= e < i ==> priced((#[trigger] items[e]).type_id, jita, abroad)
}

/// The catalog with the snapshots of both markets attached to every item.
pub open spec fn merged_items<V>(
    items: Seq<ItemData<V>>,
    jita: Map<i32, TradeData>,
    abroad: Map<i32, TradeData>,
) -> Seq<ItemData<V>> {
    items.map_values(|item: ItemData<V>| merged_item(item, jita, abroad))
}

/// Attaches to every item of the catalog its quote in each market, keeping
/// the catalog's order. The merge is whole or fails: if any item lacks a
/// quote in either market, the first such item is reported and no item is
/// handed out.
pub fn merge_trade_data<V: Copy>(
    items_data: &Vec<ItemData<V>>,
    jita_trade_data: &QuoteSet,
    abroad_trade_data: &QuoteSet,
) -> (r: Result<Vec<ItemData<V>>, MissingQuote>)
    ensures
        r.is_ok() <==> all_priced(items_data@, jita_trade_data@, abroad_trade_data@),
        match r {
            Ok(merged) => merged@ == merged_items(
                items_data@,
                jita_trade_data@,
                abroad_trade_data@,
            ),
            Err(gap) => first_gap(items_data@, jita_trade_data@, abroad_trade_data@, gap),
        },
{
    let mut merged: Vec<ItemData<V>> = Vec::new();
    let mut i: usize = 0;
    while i < items_data.len()
        invariant
            i <= items_data.len(),
            merged@.len() == i,
            forall|e: int|
                0 <= e < i ==> priced(
                    (#[trigger] items_data@[e]).type_id,
                    jita_trade_data@,
                    abroad_trade_data@,
                ),
            forall|e: int|
                0 <= e < i ==> #[trigger] merged@[e] == merged_item(
                    items_data@[e],
                    jita_trade_data@,
                    abroad_trade_data@,
                ),
        decreases items_data.len() - i,
    {
        let item: &ItemData<V> = &items_data[i];
        let id: i32 = item.type_id;
        let jita: TradeData = match jita_trade_data.find(id) {
            Some(found) => found.duplicate(),
            None => {
                return Err(MissingQuote { type_id: id, market: Market::Jita });
            },
        };
        let abroad: TradeData = match abroad_trade_data.find(id) {
            Some(found) => found.duplicate(),
            None => {
                return Err(MissingQuote { type_id: id, market: Market::Abroad });
            },
        };
        merged.push(
            ItemData {
                type_id: id,
                type_volume: item.type_volume,
                item_name: item.item_name.clone(),
                jita_trade_data: Some(jita),
                abroad_trade_data: Some(abroad),
            },
        );
        i = i + 1;
    }
    assert(merged@ =~= merged_items(items_data@, jita_trade_data@, abroad_trade_data@));
    Ok(merged)
}

/// A merged catalog is the catalog itself, item for item and in its order,
/// and every item of it carries both snapshots, each the one that its market
/// gives for the item's id.
pub proof fn lemma_merged_items_whole<V>(
    items: Seq<ItemData<V>>,
    jita: Map<i32, TradeData>,
    abroad: Map<i32, TradeData>,
)
    ensures
        merged_items(items, jita, abroad).len() == items.len(),
        forall|i: int|
            0 <= i < items.len() ==> {
                let merged = #[trigger] merged_items(items, jita, abroad)[i];
                &&& merged.is_merged()
                &&& merged.type_id == items[i].type_id
                &&& merged.type_volume == items[i].type_volume
                &&& merged.item_name == items[i].item_name
                &&& merged.jita_trade_data == Some(jita[items[i].type_id])
                &&& merged.abroad_trade_data == Some(abroad[items[i].type_id])
            },
{
}

/// The items of the catalog that both markets quote, in the catalog's order.
pub open spec fn priced_items<V>(
    items: Seq<ItemData<V>>,
    jita: Map<i32, TradeData>,
    abroad: Map<i32, TradeData>,
) -> Seq<ItemData<V>>
    decreases items.len(),
{
    if items.len() == 0 {
        Seq::empty()
    } else if priced(items.last().type_id, jita, abroad) {
        priced_items(items.drop_last(), jita, abroad).push(items.last())
    } else {
        priced_items(items.drop_last(), jita, abroad)
    }
}

/// The reports for the items of the catalog that are not quoted in both
/// markets, in the catalog's order.
pub open spec fn gaps<V>(
    items: Seq<ItemData<V>>,
    jita: Map<i32, TradeData>,
    abroad: Map<i32, TradeData>,
) -> Seq<MissingQuote>
    decreases items.len(),
{
    if items.len() == 0 {
        Seq::empty()
    } else if priced(items.last().type_id, jita, abroad) {
        gaps(items.drop_last(), jita, abroad)
    } else {
        gaps(items.drop_last(), jita, abroad).push(
            missing_quote(items.last().type_id, jita, abroad),
        )
    }
}

/// Merges the items that both markets quote and leaves the others out,
/// keeping the catalog's order. The second list reports every item that was
/// left out, so that none goes missing in silence.
pub fn merge_priced<V: Copy>(
    items_data: &Vec<ItemData<V>>,
    jita_trade_data: &QuoteSet,
    abroad_trade_data: &QuoteSet,
) -> (r: (Vec<ItemData<V>>, Vec<MissingQuote>))
    ensures
        r.0@ == merged_items(
            priced_items(items_data@, jita_trade_data@, abroad_trade_data@),
            jita_trade_data@,
            abroad_trade_data@,
        ),
        r.1@ == gaps(items_data@, jita_trade_data@, abroad_trade_data@),
{
    let mut merged: Vec<ItemData<V>> = Vec::new();
    let mut left_out: Vec<MissingQuote> = Vec::new();
    let mut i: usize = 0;
    assert(items_data@.take(0) == Seq::<ItemData<V>>::empty());
    assert(merged@ =~= merged_items(
        priced_items(items_data@.take(0), jita_trade_data@, abroad_trade_data@),
        jita_trade_data@,
        abroad_trade_data@,
    ));
    while i < items_data.len()
        invariant
            i <= items_data.len(),
            merged@ == merged_items(
                priced_items(items_data@.take(i as int), jita_trade_data@, abroad_trade_data@),
                jita_trade_data@,
                abroad_trade_data@,
            ),
            left_out@ == gaps(items_data@.take(i as int), jita_trade_data@, abroad_trade_data@),
        decreases items_data.len() - i,
    {
        let item: &ItemData<V> = &items_data[i];
        let id: i32 = item.type_id;
        proof {
            assert(items_data@.take(i + 1).drop_last() == items_data@.take(i as int));
            assert(items_data@.take(i + 1).last() == items_data@[i as int]);
        }
        let ghost before = priced_items(
            items_data@.take(i as int),
            jita_trade_data@,
            abroad_trade_data@,
        );
        match jita_trade_data.find(id) {
            None => {
                left_out.push(MissingQuote { type_id: id, market: Market::Jita });
            },
            Some(jita) => match abroad_trade_data.find(id) {
                None => {
                    left_out.push(MissingQuote { type_id: id, market: Market::Abroad });
                },
                Some(abroad) => {
                    merged.push(
                        ItemData {
                            type_id: id,
                            type_volume: item.type_volume,
                            item_name: item.item_name.clone(),
                            jita_trade_data: Some(jita.duplicate()),
                            abroad_trade_data: Some(abroad.duplicate()),
                        },
                    );
                    assert(merged@ =~= merged_items(
                        before.push(*item),
                        jita_trade_data@,
                        abroad_trade_data@,
                    ));
                },
            },
        }
        i = i + 1;
    }
    assert(items_data@.take(i as int) == items_data@);
    (merged, left_out)
}

/// Where both markets quote every item, leaving out the unpriced ones leaves
/// out nothing: the whole catalog is merged and nothing is reported.
pub proof fn lemma_priced_items_whole<V>(
    items: Seq<ItemData<V>>,
    jita: Map<i32, TradeData>,
    abroad: Map<i32, TradeData>,
)
    requires
        all_priced(items, jita, abroad),
    ensures
        priced_items(items, jita, abroad) == items,
        gaps(items, jita, abroad) == Seq::<MissingQuote>::empty(),
    decreases items.len(),
{
    if items.len() > 0 {
        let init = items.drop_last();
        assert forall|i: int| 0 <= i < init.len() implies priced(
            (#[trigger] init[i]).type_id,
            jita,
            abroad,
        ) by {
            assert(init[i] == items[i]);
        }
        lemma_priced_items_whole(init, jita, abroad);
        assert(priced(items[items.len() - 1].type_id, jita, abroad));
        assert(init.push(items.last()) == items);
    } else {
        assert(items == Seq::<ItemData<V>>::empty());
    }
}

/// A failed merge has one description only: no two different reports both
/// name the first item that is not priced, and none does where all are.
pub proof fn lemma_first_gap_unique<V>(
    items: Seq<ItemData<V>>,
    jita: Map<i32, TradeData>,
    abroad: Map<i32, TradeData>,
    one: MissingQuote,
    other: MissingQuote,
)
    requires
        first_gap(items, jita, abroad, one),
        first_gap(items, jita, abroad, other),
    ensures
        one == other,
        !all_priced(items, jita, abroad),
{
    let i = choose|i: int|
        0 <= i < items.len() && !priced((#[trigger] items[i]).type_id, jita, abroad) && one
            == missing_quote(items[i].type_id, jita, abroad) && forall|e: int|
            0 <= e < i ==> priced((#[trigger] items[e]).type_id, jita, abroad);
    let m = choose|m: int|
        0 <= m < items.len() && !priced((#[trigger] items[m]).type_id, jita, abroad) && other
            == missing_quote(items[m].type_id, jita, abroad) && forall|e: int|
            0 <= e < m ==> priced((#[trigger] items[e]).type_id, jita, abroad);
    assert(i == m);
}

} // verus!
