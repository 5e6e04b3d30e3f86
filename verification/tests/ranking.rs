use kimchi_arbitrage::utils::ranking::stable_sort;
use kimchi_arbitrage::utils::ranking::text_before;
use kimchi_arbitrage::models::arbitrage::KimchiHistoryPoint;
use kimchi_arbitrage::decimal::Decimal;

fn point(ts: i64, tag: &str) -> KimchiHistoryPoint {
    KimchiHistoryPoint {
        symbol: "ETH".to_string(),
        from_exchange: "Binance".to_string(),
        to_exchange: "Upbit".to_string(),
        fx_type: tag.to_string(),
        ts,
        from_price_krw: Decimal::from_u32(1),
        to_price_krw: Decimal::from_u32(2),
        profit_percentage: Decimal::from_u32(3),
        from_volume_24h: None,
        to_volume_24h: None,
        from_notional_24h: None,
        to_notional_24h: None,
    }
}

#[test]
fn texts_are_ordered_character_by_character() {
    assert!(text_before("BTC", "ETH"));
    assert!(!text_before("ETH", "BTC"));
    assert!(text_before("BT", "BTC"));
    assert!(!text_before("BTC", "BT"));
    assert!(!text_before("BTC", "BTC"));
    assert!(text_before("", "A"));
    assert!(!text_before("", ""));
    assert!(text_before("XRP", "ZEC"));
    assert!(text_before("Z", "a"));
}

#[test]
fn sorting_texts() {
    let sorted = stable_sort(vec![
        "XRP".to_string(),
        "BTC".to_string(),
        "ETH".to_string(),
        "ADA".to_string(),
        "BTC".to_string(),
    ]);
    assert_eq!(sorted, vec!["ADA", "BTC", "BTC", "ETH", "XRP"]);
    let empty: Vec<String> = stable_sort(Vec::new());
    assert!(empty.is_empty());
}

#[test]
fn sorting_keeps_equal_ranks_in_order() {
    let sorted = stable_sort(vec![
        point(30, "a"),
        point(10, "b"),
        point(30, "c"),
        point(10, "d"),
        point(20, "e"),
    ]);
    let tags: Vec<String> = sorted.iter().map(|p| p.fx_type.clone()).collect();
    assert_eq!(tags, vec!["b", "d", "e", "a", "c"]);
}
