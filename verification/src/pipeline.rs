//! The whole run after the network: from the catalog and the outcomes of both
//! markets' batches to the merged catalog, or to the one error that stopped it.
use crate::batcher::batches;
use crate::fetcher::{
    all_batches_ok, collect_quotes, fetch_error_text, fetch_failure, gathered, plan_requests,
    request_url_text, FetchError, MAX_GOONMETRICS_ID_QUANTITY,
};
use crate::goonmetrics::PriceData;
use crate::merger::{
    all_priced, first_gap, market_text, merge_priced, merge_trade_data, merged_items,
    gaps, missing_quote_text, priced_items, lemma_priced_items_whole, ItemData, Market, MissingQuote,
};
use crate::quotes::{quote_map, QuoteSet};
use vstd::prelude::*;
use vstd::string::*;

verus! {

/// What a run does with an item that a market does not quote.
#[derive(Debug, PartialEq, Eq, Clone, Copy)]
pub enum MissingPolicy {
    /// The run stops and reports the item.
    Abort,
    /// The item is left out and the run goes on.
    Skip,
}

/// The settings of a run.
#[derive(Debug, PartialEq, Eq, Clone, Copy)]
pub struct PipelineConfig {
    /// The most ids that one request carries.
    pub batch_limit: usize,
    pub missing_policy: MissingPolicy,
}

impl PipelineConfig {
    /// Whether the settings can be used: a batch holds at least one id.
    pub open spec fn valid(&self) -> bool {
        self.batch_limit > 0
    }

    /// The settings of the price service as it stands: its own limit of ids
    /// per request, and a run that stops at the first missing quote.
    pub fn standard() -> (config: PipelineConfig)
        ensures
            config.valid(),
            config.batch_limit == MAX_GOONMETRICS_ID_QUANTITY,
            config.missing_policy == MissingPolicy::Abort,
    {
        PipelineConfig {
            batch_limit: MAX_GOONMETRICS_ID_QUANTITY,
            missing_policy: MissingPolicy::Abort,
        }
    }

    /// The requests of one market's fetch under these settings, or `None`
    /// where the settings cannot be used.
    pub fn plan(&self, station_id: &str, item_ids: &Vec<i32>) -> (r: Option<Vec<String>>)
        ensures
            r.is_some() == self.valid(),
            r.is_some() ==> r.unwrap()@.len() == batches(item_ids@, self.batch_limit as nat).len()
                && forall|k: int|
                0 <= k < r.unwrap()@.len() ==> (#[trigger] r.unwrap()@[k])@ == request_url_text(
                    station_id@,
                    batches(item_ids@, self.batch_limit as nat)[k],
                ),
    {
        if self.batch_limit == 0 {
            None
        } else {
            Some(plan_requests(station_id, item_ids, self.batch_limit))
        }
    }
}

/// Why a run gave no merged catalog.
#[derive(Debug, PartialEq, Eq, Clone, Copy)]
pub enum PipelineError {
    /// The fetch from this market failed.
    Fetch { market: Market, error: FetchError },
    /// Both fetches succeeded, but an item of the catalog has no quote.
    Missing(MissingQuote),
}

/// The message that reports a failed run.
pub open spec fn pipeline_error_text(error: PipelineError) -> Seq<char> {
    match error {
        PipelineError::Fetch { market, error } => "fetch from market "@ + market_text(market)
            + ": "@ + fetch_error_text(error),
        PipelineError::Missing(gap) => missing_quote_text(gap),
    }
}

impl PipelineError {
    /// A message that names the failing market, and the batch or the item.
    pub fn message(&self) -> (text: String)
        ensures
            text@ == pipeline_error_text(*self),
    {
        match self {
            PipelineError::Fetch { market, error } => {
                let mut text: String = String::from_str("fetch from market ");
                text.append(market.name());
                text.append(": ");
                let detail: String = error.message();
                text.append(detail.as_str());
                text
            },
            PipelineError::Missing(gap) => gap.message(),
        }
    }
}

/// The ids of the catalog's items, in the catalog's order.
pub fn catalog_ids<V>(items_data: &Vec<ItemData<V>>) -> (ids: Vec<i32>)
    ensures
        ids@ == items_data@.map_values(|item: ItemData<V>| item.type_id),
{
    let mut ids: Vec<i32> = Vec::new();
    let mut i: usize = 0;
    while i < items_data.len()
        invariant
            i <= items_data.len(),
            ids@ == items_data@.take(i as int).map_values(|item: ItemData<V>| item.type_id),
        decreases items_data.len() - i,
    {
        ids.push(items_data[i].type_id);
        i = i + 1;
        assert(ids@ =~= items_data@.take(i as int).map_values(
            |item: ItemData<V>| item.type_id,
        ));
    }
    assert(items_data@.take(i as int) == items_data@);
    ids
}

/// What a run hands out: the merged items in the catalog's order, and a
/// report for every item of the catalog that was left out.
#[derive(Debug, PartialEq, Clone)]
pub struct PricedCatalog<V> {
    pub items: Vec<ItemData<V>>,
    pub left_out: Vec<MissingQuote>,
}

/// Prices the catalog from the outcomes of the batches of both markets. The
/// run needs both fetches to succeed. Under `MissingPolicy::Abort` it also
/// needs every item to be quoted in both markets; under `MissingPolicy::Skip`
/// it leaves out the items that are not and reports each of them beside the
/// result. Of several faults one is reported: a failed fetch from Jita before
/// one from abroad, and either before a missing quote.
pub fn price_catalog<V: Copy>(
    config: &PipelineConfig,
    items_data: &Vec<ItemData<V>>,
    jita_outcomes: &Vec<Option<PriceData>>,
    abroad_outcomes: &Vec<Option<PriceData>>,
) -> (r: Result<PricedCatalog<V>, PipelineError>)
    ensures
        r.is_ok() <==> all_batches_ok(jita_outcomes@) && all_batches_ok(abroad_outcomes@) && (
        config.missing_policy == MissingPolicy::Skip || all_priced(
            items_data@,
            quote_map(gathered(jita_outcomes@)),
            quote_map(gathered(abroad_outcomes@)),
        )),
        match r {
            Ok(catalog) => catalog.items@ == merged_items(
                priced_items(
                    items_data@,
                    quote_map(gathered(jita_outcomes@)),
                    quote_map(gathered(abroad_outcomes@)),
                ),
                quote_map(gathered(jita_outcomes@)),
                quote_map(gathered(abroad_outcomes@)),
            ) && catalog.left_out@ == gaps(
                items_data@,
                quote_map(gathered(jita_outcomes@)),
                quote_map(gathered(abroad_outcomes@)),
            ) && (config.missing_policy == MissingPolicy::Abort ==> catalog.items@
                == merged_items(
                items_data@,
                quote_map(gathered(jita_outcomes@)),
                quote_map(gathered(abroad_outcomes@)),
            ) && catalog.left_out@.len() == 0),
            Err(PipelineError::Fetch { market: Market::Jita, error }) => fetch_failure(
                jita_outcomes@,
                error,
            ),
            Err(PipelineError::Fetch { market: Market::Abroad, error }) => all_batches_ok(
                jita_outcomes@,
            ) && fetch_failure(abroad_outcomes@, error),
            Err(PipelineError::Missing(gap)) => config.missing_policy == MissingPolicy::Abort
                && all_batches_ok(jita_outcomes@) && all_batches_ok(abroad_outcomes@)
                && first_gap(
                items_data@,
                quote_map(gathered(jita_outcomes@)),
                quote_map(gathered(abroad_outcomes@)),
                gap,
            ),
        },
{
    let jita: QuoteSet = match collect_quotes(jita_outcomes) {
        Ok(set) => set,
        Err(error) => {
            return Err(PipelineError::Fetch { market: Market::Jita, error });
        },
    };
    let abroad: QuoteSet = match collect_quotes(abroad_outcomes) {
        Ok(set) => set,
        Err(error) => {
            return Err(PipelineError::Fetch { market: Market::Abroad, error });
        },
    };
    match config.missing_policy {
        MissingPolicy::Abort => match merge_trade_data(items_data, &jita, &abroad) {
            Ok(merged) => {
                proof {
                    lemma_priced_items_whole(items_data@, jita@, abroad@);
                }
                Ok(PricedCatalog { items: merged, left_out: Vec::new() })
            },
            Err(gap) => Err(PipelineError::Missing(gap)),
        },
        MissingPolicy::Skip => {
            let (merged, left_out) = merge_priced(items_data, &jita, &abroad);
            Ok(PricedCatalog { items: merged, left_out })
        },
    }
}

} // verus!
