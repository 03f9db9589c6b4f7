use eve_arbitrage::fetcher::{
    collect_quotes, id_list, plan_requests, request_url, FetchError, MAX_GOONMETRICS_ID_QUANTITY,
};
use eve_arbitrage::goonmetrics::{All, Buy, ItemType, PriceData, Sell, Types};
use eve_arbitrage::quotes::{read_quote, Quote, QuoteSet, TradeData};

fn record(id: i32, buy_listed: &str, sell_listed: &str, price: &str) -> Types {
    Types::Type(ItemType {
        id,
        updated: "2024-05-03T13:36:22Z".to_string(),
        all: All { weekly_movement: "62.5".to_string() },
        buy: Buy { listed: buy_listed.to_string(), max: price.to_string() },
        sell: Sell { listed: sell_listed.to_string(), min: "15000000.00".to_string() },
    })
}

fn quote(id: i32, buy_listed: i64, sell_listed: i64, price: &str) -> Quote {
    Quote {
        type_id: id,
        trade_data: TradeData {
            updated: "2024-05-03T13:36:22Z".to_string(),
            weekly_movement: "62.5".to_string(),
            buy_max: price.to_string(),
            buy_listed,
            sell_min: "15000000.00".to_string(),
            sell_listed,
        },
    }
}

#[test]
fn id_list_ends_every_id_with_a_comma() {
    assert_eq!(id_list(&vec![33, 55, 31]), "33,55,31,");
    assert_eq!(id_list(&vec![-4]), "-4,");
    assert_eq!(id_list(&vec![]), "");
}

#[test]
fn request_url_names_station_and_ids() {
    assert_eq!(
        request_url("60003760", &vec![34, 11192, 22544]),
        "https://goonmetrics.apps.goonswarm.org/api/price_data/?station_id=60003760&type_id=34,11192,22544,"
    );
}

#[test]
fn plan_requests_makes_one_address_per_batch() {
    let urls = plan_requests("1030049082711", &vec![33, 55, 31, 77, 99], 2);
    let base = "https://goonmetrics.apps.goonswarm.org/api/price_data/?station_id=1030049082711&type_id=";
    assert_eq!(
        urls,
        vec![format!("{}33,55,", base), format!("{}31,77,", base), format!("{}99,", base)]
    );
}

#[test]
fn plan_requests_keeps_to_the_service_limit() {
    let ids: Vec<i32> = (1..=100).collect();
    let urls = plan_requests("60003760", &ids, MAX_GOONMETRICS_ID_QUANTITY);
    assert_eq!(MAX_GOONMETRICS_ID_QUANTITY, 99);
    assert_eq!(urls.len(), 2);
    assert!(urls[0].ends_with(",98,99,"));
    assert!(urls[1].ends_with("&type_id=100,"));
}

#[test]
fn plan_requests_for_no_ids_asks_nothing() {
    let urls = plan_requests("60003760", &vec![], 99);
    assert!(urls.is_empty());
}

#[test]
fn read_quote_reads_the_counts() {
    assert_eq!(read_quote(&record(34, "138", "758", "3.10")), Some(quote(34, 138, 758, "3.10")));
    assert_eq!(read_quote(&record(34, "many", "758", "3.10")), None);
    assert_eq!(read_quote(&record(34, "138", "7.5", "3.10")), None);
}

#[test]
fn read_quote_checks_the_prices() {
    assert_eq!(read_quote(&record(34, "138", "758", "a lot")), None);
    assert_eq!(read_quote(&record(34, "138", "758", "")), None);
    assert_eq!(read_quote(&record(34, "138", "758", "1e7")), Some(quote(34, 138, 758, "1e7")));
    let mut entry = record(34, "138", "758", "3.10");
    match &mut entry {
        Types::Type(item) => item.all.weekly_movement = "often".to_string(),
    }
    assert_eq!(read_quote(&entry), None);
    let mut entry = record(34, "138", "758", "3.10");
    match &mut entry {
        Types::Type(item) => item.sell.min = "-".to_string(),
    }
    assert_eq!(read_quote(&entry), None);
}

#[test]
fn collect_quotes_fails_on_an_unreadable_price() {
    let outcomes = vec![
        Some(PriceData { types: vec![record(34, "1", "2", "3.10"), record(35, "1", "2", "dear")] }),
    ];
    assert_eq!(
        collect_quotes(&outcomes),
        Err(FetchError::UnreadableQuote { batch: 0, type_id: 35 })
    );
}

#[test]
fn collect_quotes_joins_all_batches_in_order() {
    let outcomes = vec![
        Some(PriceData { types: vec![record(34, "1", "2", "3.10"), record(35, "3", "4", "9")] }),
        Some(PriceData { types: vec![] }),
        Some(PriceData { types: vec![record(36, "5", "6", "7")] }),
    ];
    let expected = QuoteSet {
        quotes: vec![quote(34, 1, 2, "3.10"), quote(35, 3, 4, "9"), quote(36, 5, 6, "7")],
    };
    assert_eq!(collect_quotes(&outcomes), Ok(expected));
}

#[test]
fn collect_quotes_of_no_batches_is_empty() {
    assert_eq!(collect_quotes(&vec![]), Ok(QuoteSet { quotes: vec![] }));
}

#[test]
fn collect_quotes_fails_as_a_whole_on_a_failed_batch() {
    let outcomes = vec![
        Some(PriceData { types: vec![record(34, "1", "2", "3.10")] }),
        None,
        Some(PriceData { types: vec![record(36, "5", "6", "7")] }),
        None,
    ];
    assert_eq!(collect_quotes(&outcomes), Err(FetchError::BatchFailed { batch: 1 }));
}

#[test]
fn collect_quotes_fails_on_an_unreadable_count() {
    let outcomes = vec![
        Some(PriceData { types: vec![record(34, "1", "2", "3.10")] }),
        Some(PriceData { types: vec![record(35, "1", "2", "1"), record(36, "5", "", "7"), record(37, "x", "1", "1")] }),
        None,
    ];
    assert_eq!(
        collect_quotes(&outcomes),
        Err(FetchError::UnreadableQuote { batch: 1, type_id: 36 })
    );
}

#[test]
fn collect_quotes_gives_the_same_mapping_in_any_batch_order() {
    let first = Some(PriceData { types: vec![record(34, "1", "2", "3.10"), record(35, "3", "4", "9")] });
    let second = Some(PriceData { types: vec![record(36, "5", "6", "7")] });
    let one = collect_quotes(&vec![first.clone(), second.clone()]).unwrap();
    let other = collect_quotes(&vec![second, first]).unwrap();
    for id in [33, 34, 35, 36, 37] {
        assert_eq!(one.find(id), other.find(id));
    }
    assert_eq!(one.find(36), Some(&quote(36, 5, 6, "7").trade_data));
    assert_eq!(one.find(33), None);
}

#[test]
fn find_takes_the_first_quote_of_an_id() {
    let set = QuoteSet { quotes: vec![quote(34, 1, 2, "1.0"), quote(34, 3, 4, "2.0")] };
    assert_eq!(set.find(34), Some(&quote(34, 1, 2, "1.0").trade_data));
}

#[test]
fn duplicate_copies_every_field() {
    let snapshot = quote(34, 1, 2, "3.10").trade_data;
    assert_eq!(snapshot.duplicate(), snapshot);
}
