use eve_arbitrage::fetcher::FetchError;
use eve_arbitrage::goonmetrics::{All, Buy, Goonmetrics, ItemType, PriceData, Sell, Types};
use eve_arbitrage::merger::{ItemData, Market, MissingQuote};
use eve_arbitrage::pipeline::{
    catalog_ids, price_catalog, MissingPolicy, PipelineConfig, PipelineError, PricedCatalog,
};

fn record(id: i32, listed: &str) -> Types {
    Types::Type(ItemType {
        id,
        updated: "2024-08-21T16:15:35Z".to_string(),
        all: All { weekly_movement: "62.5".to_string() },
        buy: Buy { listed: listed.to_string(), max: "11000000.00".to_string() },
        sell: Sell { listed: "95".to_string(), min: "15000000.00".to_string() },
    })
}

fn answer(ids: &[i32]) -> Option<PriceData> {
    let document = Goonmetrics {
        price_data: PriceData { types: ids.iter().map(|id| record(*id, "18")).collect() },
    };
    Some(document.price_data)
}

fn catalog() -> Vec<ItemData<f32>> {
    [(34, "Tritanium", 0.01f32), (11192, "Buzzard", 19400.0), (22544, "Hulk", 3750.0)]
        .iter()
        .map(|(id, name, volume)| ItemData {
            type_id: *id,
            type_volume: *volume,
            item_name: name.to_string(),
            jita_trade_data: None,
            abroad_trade_data: None,
        })
        .collect()
}

#[test]
fn catalog_ids_keeps_the_order() {
    assert_eq!(catalog_ids(&catalog()), vec![34, 11192, 22544]);
    let nothing: Vec<ItemData<f32>> = vec![];
    assert_eq!(catalog_ids(&nothing), Vec::<i32>::new());
}

#[test]
fn price_catalog_merges_when_all_is_there() {
    let jita = vec![answer(&[34, 11192]), answer(&[22544])];
    let abroad = vec![answer(&[22544]), answer(&[34, 11192])];
    let priced = price_catalog(&PipelineConfig::standard(), &catalog(), &jita, &abroad).unwrap();
    assert!(priced.left_out.is_empty());
    let merged = priced.items;
    assert_eq!(merged.len(), 3);
    let ids: Vec<i32> = merged.iter().map(|m| m.type_id).collect();
    assert_eq!(ids, vec![34, 11192, 22544]);
    for item in &merged {
        let jita = item.jita_trade_data.as_ref().unwrap();
        let abroad = item.abroad_trade_data.as_ref().unwrap();
        assert_eq!(jita.buy_listed, 18);
        assert_eq!(abroad.sell_listed, 95);
        assert_eq!(abroad.weekly_movement, "62.5");
        assert_eq!(abroad.sell_min, "15000000.00");
        assert_eq!(jita.buy_max, "11000000.00");
        assert_eq!(jita.updated, "2024-08-21T16:15:35Z");
    }
    assert_eq!(merged[2].item_name, "Hulk");
    assert_eq!(merged[2].type_volume, 3750.0);
}

#[test]
fn price_catalog_reports_jita_before_abroad() {
    let jita = vec![answer(&[34]), None];
    let abroad = vec![None];
    assert_eq!(
        price_catalog(&PipelineConfig::standard(), &catalog(), &jita, &abroad),
        Err(PipelineError::Fetch { market: Market::Jita, error: FetchError::BatchFailed { batch: 1 } })
    );
}

#[test]
fn price_catalog_reports_a_failed_fetch_abroad() {
    let jita = vec![answer(&[34, 11192, 22544])];
    let abroad = vec![Some(PriceData { types: vec![record(34, "18"), record(11192, "a few")] })];
    assert_eq!(
        price_catalog(&PipelineConfig::standard(), &catalog(), &jita, &abroad),
        Err(PipelineError::Fetch {
            market: Market::Abroad,
            error: FetchError::UnreadableQuote { batch: 0, type_id: 11192 },
        })
    );
}

#[test]
fn price_catalog_reports_a_missing_quote() {
    let jita = vec![answer(&[34, 11192, 22544])];
    let abroad = vec![answer(&[34, 22544])];
    assert_eq!(
        price_catalog(&PipelineConfig::standard(), &catalog(), &jita, &abroad),
        Err(PipelineError::Missing(MissingQuote { type_id: 11192, market: Market::Abroad }))
    );
}

#[test]
fn messages_name_market_batch_and_item() {
    assert_eq!(Market::Jita.name(), "Jita");
    assert_eq!(Market::Abroad.name(), "abroad");
    assert_eq!(
        MissingQuote { type_id: 11192, market: Market::Abroad }.message(),
        "no quote for item 11192 in market abroad"
    );
    assert_eq!(FetchError::BatchFailed { batch: 12 }.message(), "batch 12 failed");
    assert_eq!(
        FetchError::UnreadableQuote { batch: 0, type_id: -7 }.message(),
        "batch 0 holds an unreadable quote for item -7"
    );
    assert_eq!(
        PipelineError::Fetch { market: Market::Jita, error: FetchError::BatchFailed { batch: 3 } }
            .message(),
        "fetch from market Jita: batch 3 failed"
    );
    assert_eq!(
        PipelineError::Missing(MissingQuote { type_id: 34, market: Market::Jita }).message(),
        "no quote for item 34 in market Jita"
    );
}

#[test]
fn standard_settings() {
    let config = PipelineConfig::standard();
    assert_eq!(config.batch_limit, 99);
    assert_eq!(config.missing_policy, MissingPolicy::Abort);
}

#[test]
fn plan_follows_the_settings() {
    let config = PipelineConfig { batch_limit: 2, missing_policy: MissingPolicy::Abort };
    let base = "https://goonmetrics.apps.goonswarm.org/api/price_data/?station_id=60003760&type_id=";
    assert_eq!(
        config.plan("60003760", &vec![34, 11192, 22544]),
        Some(vec![format!("{}34,11192,", base), format!("{}22544,", base)])
    );
    let unusable = PipelineConfig { batch_limit: 0, missing_policy: MissingPolicy::Abort };
    assert_eq!(unusable.plan("60003760", &vec![34]), None);
}

#[test]
fn price_catalog_can_leave_unpriced_items_out() {
    let config = PipelineConfig { batch_limit: 99, missing_policy: MissingPolicy::Skip };
    let jita = vec![answer(&[11192, 22544])];
    let abroad = vec![answer(&[34, 22544])];
    let priced: PricedCatalog<f32> = price_catalog(&config, &catalog(), &jita, &abroad).unwrap();
    let ids: Vec<i32> = priced.items.iter().map(|m| m.type_id).collect();
    assert_eq!(ids, vec![22544]);
    assert_eq!(
        priced.left_out,
        vec![
            MissingQuote { type_id: 34, market: Market::Jita },
            MissingQuote { type_id: 11192, market: Market::Abroad },
        ]
    );
}

#[test]
fn price_catalog_fails_on_a_failed_fetch_whatever_the_policy() {
    let config = PipelineConfig { batch_limit: 99, missing_policy: MissingPolicy::Skip };
    let jita = vec![answer(&[34, 11192, 22544])];
    let abroad = vec![answer(&[34]), None];
    assert_eq!(
        price_catalog(&config, &catalog(), &jita, &abroad),
        Err(PipelineError::Fetch {
            market: Market::Abroad,
            error: FetchError::BatchFailed { batch: 1 },
        })
    );
}
