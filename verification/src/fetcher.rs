//! One market's fetch, without the network: which requests to make for a list
//! of item ids, and how the answers of all batches become one quote set.
use crate::batcher::{batch_views, batches, split_large_id_bulks};
use crate::goonmetrics::PriceData;
use crate::quotes::{
    lemma_lookup_first, lookup, quote_map, quote_of_entry, read_quote, readable, Quote, QuoteSet,
};
use crate::text::{decimal_text, digits_of, push_decimal, push_digits};
use vstd::prelude::*;
use vstd::string::*;

verus! {

/// The most ids that the price service accepts in one request.
pub const MAX_GOONMETRICS_ID_QUANTITY: usize = 99;

/// Why a market's fetch gave no quote set.
#[derive(Debug, PartialEq, Eq, Clone, Copy)]
pub enum FetchError {
    /// The request of this batch failed, or its answer was no price document.
    BatchFailed { batch: usize },
    /// The answer of this batch holds a record for this item with a figure
    /// that is not a number.
    UnreadableQuote { batch: usize, type_id: i32 },
}

/// The message that reports a failed fetch.
pub open spec fn fetch_error_text(error: FetchError) -> Seq<char> {
    match error {
        FetchError::BatchFailed { batch } => "batch "@ + digits_of(batch as nat) + " failed"@,
        FetchError::UnreadableQuote { batch, type_id } => "batch "@ + digits_of(batch as nat)
            + " holds an unreadable quote for item "@ + decimal_text(type_id as int),
    }
}

impl FetchError {
    /// A message that names the batch, and the item where one is at fault.
    /// Batches are counted from 0.
    pub fn message(&self) -> (text: String)
        ensures
            text@ == fetch_error_text(*self),
    {
        let mut text: String = String::from_str("batch ");
        match self {
            FetchError::BatchFailed { batch } => {
                push_digits(&mut text, *batch as u64);
                text.append(" failed");
            },
            FetchError::UnreadableQuote { batch, type_id } => {
                push_digits(&mut text, *batch as u64);
                text.append(" holds an unreadable quote for item ");
                push_decimal(&mut text, *type_id);
            },
        }
        text
    }
}

/// The ids of one batch as the service wants them: each in decimal, each
/// followed by a comma.
pub open spec fn id_list_text(ids: Seq<i32>) -> Seq<char>
    decreases ids.len(),
{
    if ids.len() == 0 {
        Seq::empty()
    } else {
        id_list_text(ids.drop_last()) + decimal_text(ids.last() as int) + seq![',']
    }
}

/// The address that asks one market for the prices of one batch of ids.
pub open spec fn request_url_text(station_id: Seq<char>, ids: Seq<i32>) -> Seq<char> {
    "https://goonmetrics.apps.goonswarm.org/api/price_data/?station_id="@ + station_id
        + "&type_id="@ + id_list_text(ids)
}

/// Writes the ids of one batch as the service wants them.
pub fn id_list(ids: &Vec<i32>) -> (list: String)
    ensures
        list@ == id_list_text(ids@),
{
    let mut list: String = String::new();
    let mut i: usize = 0;
    assert(ids@.take(0) == Seq::<i32>::empty());
    while i < ids.len()
        invariant
            i <= ids.len(),
            list@ == id_list_text(ids@.take(i as int)),
        decreases ids.len() - i,
    {
        proof {
            assert(ids@.take(i + 1).drop_last() == ids@.take(i as int));
            assert(ids@.take(i + 1).last() == ids@[i as int]);
        }
        push_decimal(&mut list, ids[i]);
        list.push(',');
        i = i + 1;
    }
    assert(ids@.take(i as int) == ids@);
    list
}

/// Builds the address that asks the market `station_id` for one batch of ids.
pub fn request_url(station_id: &str, ids: &Vec<i32>) -> (url: String)
    ensures
        url@ == request_url_text(station_id@, ids@),
{
    let mut url: String = String::from_str(
        "https://goonmetrics.apps.goonswarm.org/api/price_data/?station_id=",
    );
    url.append(station_id);
    url.append("&type_id=");
    let list: String = id_list(ids);
    url.append(list.as_str());
    url
}

/// The requests of one market's fetch: one address per batch of at most
/// `batch_limit` ids, in the order of the ids.
pub fn plan_requests(station_id: &str, item_ids: &Vec<i32>, batch_limit: usize) -> (urls: Vec<
    String,
>)
    requires
        batch_limit > 0,
    ensures
        urls@.len() == batches(item_ids@, batch_limit as nat).len(),
        forall|k: int|
            0 <= k < urls@.len() ==> (#[trigger] urls@[k])@ == request_url_text(
                station_id@,
                batches(item_ids@, batch_limit as nat)[k],
            ),
{
    let groups: Vec<Vec<i32>> = split_large_id_bulks(item_ids, batch_limit);
    let mut urls: Vec<String> = Vec::new();
    let mut k: usize = 0;
    while k < groups.len()
        invariant
            k <= groups.len(),
            batch_views(groups@) == batches(item_ids@, batch_limit as nat),
            urls@.len() == k,
            forall|e: int|
                0 <= e < k ==> (#[trigger] urls@[e])@ == request_url_text(
                    station_id@,
                    batches(item_ids@, batch_limit as nat)[e],
                ),
        decreases groups.len() - k,
    {
        assert(batch_views(groups@)[k as int] == groups@[k as int]@);
        let url: String = request_url(station_id, &groups[k]);
        urls.push(url);
        k = k + 1;
    }
    assert(batch_views(groups@).len() == groups@.len());
    urls
}

/// The quotes that the records of one answer give, in the answer's order.
pub open spec fn batch_quotes(answer: PriceData) -> Seq<Quote> {
    answer.types@.map_values(|entry: crate::goonmetrics::Types| quote_of_entry(entry))
}

/// Whether a batch was answered and every record of the answer is readable.
pub open spec fn batch_ok(outcome: Option<PriceData>) -> bool {
    outcome.is_some() && forall|k: int|
        0 <= k < outcome.unwrap().types@.len() ==> readable(#[trigger] outcome.unwrap().types@[k])
}

/// The quotes that one batch brings: those of its answer, none without one.
pub open spec fn outcome_quotes(outcome: Option<PriceData>) -> Seq<Quote> {
    match outcome {
        Some(answer) => batch_quotes(answer),
        None => Seq::empty(),
    }
}

/// The quotes of all answers, batch after batch.
pub open spec fn gathered(outcomes: Seq<Option<PriceData>>) -> Seq<Quote>
    decreases outcomes.len(),
{
    if outcomes.len() == 0 {
        Seq::empty()
    } else {
        gathered(outcomes.drop_last()) + outcome_quotes(outcomes.last())
    }
}

/// Whether every batch was answered with readable records only.
pub open spec fn all_batches_ok(outcomes: Seq<Option<PriceData>>) -> bool {
    forall|i: int| 0 <= i < outcomes.len() ==> batch_ok(#[trigger] outcomes[i])
}

/// Whether the first unreadable record of `answer` is about the item
/// `type_id`.
pub open spec fn first_unreadable(answer: PriceData, type_id: i32) -> bool {
    exists|k: int|
        0 <= k < answer.types@.len() && !readable(#[trigger] answer.types@[k])
            && answer.types@[k].record().id == type_id && forall|e: int|
            0 <= e < k ==> readable(#[trigger] answer.types@[e])
}

/// Whether `error` describes the first batch of `outcomes` that is not in
/// order: either it was not answered, or `error` names the item of its first
/// unreadable record.
pub open spec fn fetch_failure(outcomes: Seq<Option<PriceData>>, error: FetchError) -> bool {
    match error {
        FetchError::BatchFailed { batch } => batch < outcomes.len() && outcomes[batch as int].is_none()
            && forall|i: int| 0 <= i < batch ==> batch_ok(#[trigger] outcomes[i]),
        FetchError::UnreadableQuote { batch, type_id } => batch < outcomes.len()
            && outcomes[batch as int].is_some() && first_unreadable(
            outcomes[batch as int].unwrap(),
            type_id,
        ) && forall|i: int| 0 <= i < batch ==> batch_ok(#[trigger] outcomes[i]),
    }
}

/// Turns the outcomes of all batches of one market into its quote set.
/// `None` stands for a batch whose request failed or whose answer could not
/// be read as a price document. The fetch succeeds only if every batch did;
/// otherwise the first batch in the list that did not is reported, and
/// nothing of the others is handed out.
pub fn collect_quotes(outcomes: &Vec<Option<PriceData>>) -> (r: Result<QuoteSet, FetchError>)
    ensures
        r.is_ok() <==> all_batches_ok(outcomes@),
        match r {
            Ok(set) => set.quotes@ == gathered(outcomes@),
            Err(error) => fetch_failure(outcomes@, error),
        },
{
    let mut quotes: Vec<Quote> = Vec::new();
    let mut b: usize = 0;
    assert(outcomes@.take(0) == Seq::<Option<PriceData>>::empty());
    while b < outcomes.len()
        invariant
            b <= outcomes.len(),
            quotes@ == gathered(outcomes@.take(b as int)),
            forall|i: int| 0 <= i < b ==> batch_ok(#[trigger] outcomes@[i]),
        decreases outcomes.len() - b,
    {
        match &outcomes[b] {
            None => {
                assert(!batch_ok(outcomes@[b as int]));
                return Err(FetchError::BatchFailed { batch: b });
            },
            Some(answer) => {
                let ghost before = quotes@;
                let mut k: usize = 0;
                while k < answer.types.len()
                    invariant
                        k <= answer.types.len(),
                        b < outcomes.len(),
                        outcomes@[b as int] == Some(*answer),
                        quotes@ == before + batch_quotes(*answer).take(k as int),
                        forall|e: int| 0 <= e < k ==> readable(#[trigger] answer.types@[e]),
                        forall|i: int| 0 <= i < b ==> batch_ok(#[trigger] outcomes@[i]),
                    decreases answer.types.len() - k,
                {
                    match read_quote(&answer.types[k]) {
                        None => {
                            let type_id: i32 = answer.types[k].type_id();
                            assert(!readable(answer.types@[k as int]));
                            assert(first_unreadable(*answer, type_id));
                            assert(!readable(outcomes@[b as int].unwrap().types@[k as int]));
                            assert(!batch_ok(outcomes@[b as int]));
                            return Err(FetchError::UnreadableQuote { batch: b, type_id });
                        },
                        Some(quote) => {
                            quotes.push(quote);
                            assert(batch_quotes(*answer).take(k + 1) == batch_quotes(
                                *answer,
                            ).take(k as int).push(quote));
                        },
                    }
                    k = k + 1;
                }
                proof {
                    assert(batch_quotes(*answer).take(k as int) == batch_quotes(*answer));
                    assert(outcomes@.take(b + 1).drop_last() == outcomes@.take(b as int));
                    assert(outcomes@.take(b + 1).last() == outcomes@[b as int]);
                }
            },
        }
        b = b + 1;
    }
    assert(outcomes@.take(b as int) == outcomes@);
    Ok(QuoteSet { quotes })
}

/// A failed fetch has one description only: no two different errors both
/// describe the first batch that is not in order.
pub proof fn lemma_fetch_failure_unique(
    outcomes: Seq<Option<PriceData>>,
    one: FetchError,
    other: FetchError,
)
    requires
        fetch_failure(outcomes, one),
        fetch_failure(outcomes, other),
    ensures
        one == other,
        !all_batches_ok(outcomes),
{
    let at = match one {
        FetchError::BatchFailed { batch } => batch,
        FetchError::UnreadableQuote { batch, .. } => batch,
    };
    let at_other = match other {
        FetchError::BatchFailed { batch } => batch,
        FetchError::UnreadableQuote { batch, .. } => batch,
    };
    assert(!batch_ok(outcomes[at as int])) by {
        if let FetchError::UnreadableQuote { batch, type_id } = one {
            let answer = outcomes[batch as int].unwrap();
            let k = choose|k: int|
                0 <= k < answer.types@.len() && !readable(#[trigger] answer.types@[k])
                    && answer.types@[k].record().id == type_id;
            assert(!readable(outcomes[batch as int].unwrap().types@[k]));
        }
    }
    assert(!batch_ok(outcomes[at_other as int])) by {
        if let FetchError::UnreadableQuote { batch, type_id } = other {
            let answer = outcomes[batch as int].unwrap();
            let k = choose|k: int|
                0 <= k < answer.types@.len() && !readable(#[trigger] answer.types@[k])
                    && answer.types@[k].record().id == type_id;
            assert(!readable(outcomes[batch as int].unwrap().types@[k]));
        }
    }
    assert(at == at_other);
    if let FetchError::UnreadableQuote { batch, type_id } = one {
        if let FetchError::UnreadableQuote { type_id: other_id, .. } = other {
            let answer = outcomes[batch as int].unwrap();
            let k = choose|k: int|
                0 <= k < answer.types@.len() && !readable(#[trigger] answer.types@[k])
                    && answer.types@[k].record().id == type_id && forall|e: int|
                    0 <= e < k ==> readable(#[trigger] answer.types@[e]);
            let m = choose|m: int|
                0 <= m < answer.types@.len() && !readable(#[trigger] answer.types@[m])
                    && answer.types@[m].record().id == other_id && forall|e: int|
                    0 <= e < m ==> readable(#[trigger] answer.types@[e]);
            assert(k == m);
        }
    }
}

/// The quote at place `j` of the answer of batch `i`.
pub open spec fn entry_at(outcomes: Seq<Option<PriceData>>, i: int, j: int) -> Quote {
    outcome_quotes(outcomes[i])[j]
}

/// Whether `(i, j)` names a record of an answer.
pub open spec fn in_range(outcomes: Seq<Option<PriceData>>, i: int, j: int) -> bool {
    0 <= i < outcomes.len() && 0 <= j < outcome_quotes(outcomes[i]).len()
}

/// Whether some answer holds `quote`.
pub open spec fn in_batches(outcomes: Seq<Option<PriceData>>, quote: Quote) -> bool {
    exists|i: int, j: int|
        in_range(outcomes, i, j) && #[trigger] entry_at(outcomes, i, j) == quote
}

/// Whether every item id is priced by exactly one record of one answer.
pub open spec fn ids_distinct(outcomes: Seq<Option<PriceData>>) -> bool {
    forall|i: int, j: int, m: int, n: int|
        in_range(outcomes, i, j) && in_range(outcomes, m, n) && (#[trigger] entry_at(
            outcomes,
            i,
            j,
        )).type_id == (#[trigger] entry_at(outcomes, m, n)).type_id ==> i == m && j == n
}

/// The gathered quotes are exactly the quotes of the answers.
pub proof fn lemma_gathered_holds(outcomes: Seq<Option<PriceData>>, quote: Quote)
    ensures
        gathered(outcomes).contains(quote) <==> in_batches(outcomes, quote),
    decreases outcomes.len(),
{
    if outcomes.len() == 0 {
    } else {
        let init = outcomes.drop_last();
        let top = outcomes.len() - 1;
        lemma_gathered_holds(init, quote);
        if gathered(outcomes).contains(quote) {
            let p = choose|p: int| 0 <= p < gathered(outcomes).len() && gathered(outcomes)[p] == quote;
            if p < gathered(init).len() {
                assert(gathered(init)[p] == quote);
                assert(gathered(init).contains(quote));
                let (i, j) = choose|i: int, j: int|
                    in_range(init, i, j) && #[trigger] entry_at(init, i, j) == quote;
                assert(in_range(outcomes, i, j) && entry_at(outcomes, i, j) == quote);
            } else {
                let j = p - gathered(init).len();
                assert(in_range(outcomes, top, j) && entry_at(outcomes, top, j) == quote);
            }
        }
        if in_batches(outcomes, quote) {
            let (i, j) = choose|i: int, j: int|
                in_range(outcomes, i, j) && #[trigger] entry_at(outcomes, i, j) == quote;
            if i < top {
                assert(in_range(init, i, j) && entry_at(init, i, j) == quote);
                let p = choose|p: int| 0 <= p < gathered(init).len() && gathered(init)[p] == quote;
                assert(gathered(outcomes)[p] == quote);
            } else {
                assert(gathered(outcomes)[gathered(init).len() + j] == quote);
            }
        }
    }
}

/// A quote of `second` is a quote of `first` at the same place of some
/// answer, when every outcome of `second` is an outcome of `first`.
proof fn lemma_same_batches(
    first: Seq<Option<PriceData>>,
    second: Seq<Option<PriceData>>,
    quote: Quote,
)
    requires
        first.to_multiset() == second.to_multiset(),
        in_batches(second, quote),
    ensures
        in_batches(first, quote),
{
    first.to_multiset_ensures();
    second.to_multiset_ensures();
    let (i, j) = choose|i: int, j: int|
        in_range(second, i, j) && #[trigger] entry_at(second, i, j) == quote;
    assert(second.contains(second[i]));
    assert(first.to_multiset().count(second[i]) > 0);
    assert(first.contains(second[i]));
    let m = choose|m: int| 0 <= m < first.len() && first[m] == second[i];
    assert(in_range(first, m, j) && entry_at(first, m, j) == quote);
}

/// The order in which the batches come in does not matter: two lists of the
/// same outcomes in different orders succeed or fail together and give the
/// same mapping from item id to quote, provided that no id is priced twice.
pub proof fn lemma_completion_order_irrelevant(
    first: Seq<Option<PriceData>>,
    second: Seq<Option<PriceData>>,
)
    requires
        first.to_multiset() == second.to_multiset(),
        ids_distinct(first),
    ensures
        all_batches_ok(first) <==> all_batches_ok(second),
        quote_map(gathered(first)) == quote_map(gathered(second)),
{
    first.to_multiset_ensures();
    second.to_multiset_ensures();
    if all_batches_ok(first) {
        assert forall|i: int| 0 <= i < second.len() implies batch_ok(#[trigger] second[i]) by {
            assert(second.contains(second[i]));
            assert(first.to_multiset().count(second[i]) > 0);
            assert(first.contains(second[i]));
            let m = choose|m: int| 0 <= m < first.len() && first[m] == second[i];
            assert(batch_ok(first[m]));
        }
    }
    if all_batches_ok(second) {
        assert forall|i: int| 0 <= i < first.len() implies batch_ok(#[trigger] first[i]) by {
            assert(first.contains(first[i]));
            assert(second.to_multiset().count(first[i]) > 0);
            assert(second.contains(first[i]));
            let m = choose|m: int| 0 <= m < second.len() && second[m] == first[i];
            assert(batch_ok(second[m]));
        }
    }
    let left = gathered(first);
    let right = gathered(second);
    assert forall|id: i32| lookup(left, id) == lookup(right, id) by {
        lemma_lookup_first(left, id);
        lemma_lookup_first(right, id);
        if lookup(left, id).is_some() {
            let p = choose|p: int|
                0 <= p < left.len() && (#[trigger] left[p]).type_id == id && left[p].trade_data
                    == lookup(left, id).unwrap();
            assert(left.contains(left[p]));
            lemma_gathered_holds(first, left[p]);
            lemma_same_batches(second, first, left[p]);
            lemma_gathered_holds(second, left[p]);
            let q = choose|q: int| 0 <= q < right.len() && right[q] == left[p];
            assert(right[q].type_id == id);
            assert(lookup(right, id).is_some());
        }
        if lookup(right, id).is_some() {
            let q = choose|q: int|
                0 <= q < right.len() && (#[trigger] right[q]).type_id == id && right[q].trade_data
                    == lookup(right, id).unwrap();
            assert(right.contains(right[q]));
            lemma_gathered_holds(second, right[q]);
            lemma_same_batches(first, second, right[q]);
            lemma_gathered_holds(first, right[q]);
            let p = choose|p: int| 0 <= p < left.len() && left[p] == right[q];
            assert(left[p].type_id == id);
            assert(lookup(left, id).is_some());
            let found = choose|f: int|
                0 <= f < left.len() && (#[trigger] left[f]).type_id == id && left[f].trade_data
                    == lookup(left, id).unwrap();
            assert(left.contains(left[found]));
            lemma_gathered_holds(first, left[found]);
            lemma_gathered_holds(first, left[p]);
            let (i, j) = choose|i: int, j: int|
                in_range(first, i, j) && #[trigger] entry_at(first, i, j) == left[found];
            let (m, n) = choose|m: int, n: int|
                in_range(first, m, n) && #[trigger] entry_at(first, m, n) == left[p];
            assert(i == m && j == n);
        }
    }
    assert(quote_map(left) =~= quote_map(right));
}

} // verus!
