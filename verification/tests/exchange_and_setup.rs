use tradeogre_bot::backtest::{BackTest, Record};
use tradeogre_bot::exchange::{
    balance_position, next_history_step, next_step, order_market, split_market, AttemptOutcome,
    HistoryStep, NextStep, TradeOgre, MAX_RETRIES, RETRY_DELAY,
};
use tradeogre_bot::report::csv_rows;
use tradeogre_bot::setup::{
    config_loader, download_vec_csv_cache, get_first_arg, vec_cache_path, CacheDownload,
    ConfigSource,
};

#[test]
fn endpoint_urls() {
    let api = TradeOgre::new();
    assert_eq!(api.balances_url(), "https://tradeogre.com/api/v1/account/balances");
    assert_eq!(api.sell_url(), "https://tradeogre.com/api/v1/order/sell");
    assert_eq!(api.buy_url(), "https://tradeogre.com/api/v1/order/buy");
    assert_eq!(api.ticker_url("USDT-BTC"), "https://tradeogre.com/api/v1/ticker/USDT-BTC");
    assert_eq!(api.history_url("BTC-LTC"), "https://tradeogre.com/api/v1/history/BTC-LTC");
}

#[test]
fn auth_header_is_basic_base64() {
    let api = TradeOgre::new();
    assert_eq!(api.auth_header_value("pub", "priv"), "Basic cHViOnByaXY=");
    assert_eq!(api.auth_header_value("key", "sécret"), "Basic a2V5OnPDqWNyZXQ=");
    assert_eq!(api.auth_header_value("", ""), "Basic Og==");
}

#[test]
fn order_bodies() {
    let api = TradeOgre::new();
    assert_eq!(
        api.buy_body("BTC-USDT", "42000.5", "0.001"),
        "market=BTC-USDT&price=42000.5&quantity=0.001"
    );
    assert_eq!(
        api.sell_form("BTC-USDT", "0.5", "41000"),
        vec![
            ("market".to_string(), "BTC-USDT".to_string()),
            ("quantity".to_string(), "0.5".to_string()),
            ("price".to_string(), "41000".to_string()),
        ]
    );
}

#[test]
fn retry_policy() {
    assert_eq!(MAX_RETRIES, 5);
    assert_eq!(RETRY_DELAY, 3000);
    assert_eq!(next_step(0, &AttemptOutcome::Received), NextStep::Accept);
    assert_eq!(next_step(4, &AttemptOutcome::Received), NextStep::Accept);
    assert_eq!(next_step(0, &AttemptOutcome::Unparsable), NextStep::RetryAfterMillis(3000));
    assert_eq!(
        next_step(3, &AttemptOutcome::RequestFailed("timeout".to_string())),
        NextStep::RetryAfterMillis(3000)
    );
    assert_eq!(
        next_step(4, &AttemptOutcome::Unparsable),
        NextStep::GiveUp("Failed to parse JSON response".to_string())
    );
    assert_eq!(
        next_step(4, &AttemptOutcome::RequestFailed("timeout".to_string())),
        NextStep::GiveUp("Failed to get ticker: timeout".to_string())
    );
}

#[test]
fn history_retry_policy() {
    assert_eq!(next_history_step(0, &AttemptOutcome::Received), HistoryStep::Accept);
    assert_eq!(next_history_step(0, &AttemptOutcome::Unparsable), HistoryStep::Fail);
    let failed = AttemptOutcome::RequestFailed("refused".to_string());
    assert_eq!(next_history_step(0, &failed), HistoryStep::RetryAfterMillis(3000));
    assert_eq!(next_history_step(3, &failed), HistoryStep::RetryAfterMillis(3000));
    assert_eq!(next_history_step(4, &failed), HistoryStep::Fail);
}

#[test]
fn requests_end_within_max_tries() {
    let failed = AttemptOutcome::RequestFailed("down".to_string());
    let mut attempt = 0;
    let mut tries = 0;
    loop {
        tries += 1;
        match next_step(attempt, &failed) {
            NextStep::RetryAfterMillis(_) => attempt += 1,
            _ => break,
        }
    }
    assert_eq!(tries, MAX_RETRIES);
}

#[test]
fn balance_lookup() {
    let names: Vec<String> = ["BTC", "USDT", "LTC"].iter().map(|s| s.to_string()).collect();
    assert_eq!(balance_position(&names, "USDT"), Some(1));
    assert_eq!(balance_position(&names, "BTC"), Some(0));
    assert_eq!(balance_position(&names, "XMR"), None);
    assert_eq!(balance_position(&vec![], "BTC"), None);
}

#[test]
fn market_split_and_reverse() {
    assert_eq!(split_market("USDT-BTC"), Some(("USDT".to_string(), "BTC".to_string())));
    assert_eq!(split_market("A-B-C"), Some(("A".to_string(), "B".to_string())));
    assert_eq!(split_market("-"), Some((String::new(), String::new())));
    assert_eq!(split_market("USDTBTC"), None);
    assert_eq!(split_market(""), None);
    assert_eq!(order_market("USDT", "BTC"), "BTC-USDT");
}

#[test]
fn market_split_round_trip_law() {
    let (bought_with, traded) = split_market("USDT-XMR").unwrap();
    assert_eq!(order_market(&bought_with, &traded), "XMR-USDT");
    assert_eq!(order_market(&traded, &bought_with), "USDT-XMR");
}

#[test]
fn first_argument_and_config_source() {
    let args: Vec<String> = vec!["bot".to_string()];
    assert_eq!(get_first_arg(&args), None);
    let args: Vec<String> = vec!["bot".to_string(), "config.toml".to_string(), "x".to_string()];
    assert_eq!(get_first_arg(&args), Some("config.toml".to_string()));
    assert_eq!(config_loader("--generate-config"), ConfigSource::Generate);
    assert_eq!(config_loader("config.toml"), ConfigSource::File("config.toml".to_string()));
    assert_eq!(config_loader("--generate"), ConfigSource::File("--generate".to_string()));
}

#[test]
fn cache_download_decision() {
    assert_eq!(download_vec_csv_cache(true), None);
    assert_eq!(
        download_vec_csv_cache(false),
        Some(CacheDownload {
            url: "https://raw.githubusercontent.com/Quicksticks-oss/stock-csv/main/converted_aapl.csv"
                .to_string(),
            path: ".vcache".to_string(),
        })
    );
    assert_eq!(vec_cache_path(), ".vcache");
}

fn records(n: usize) -> Vec<Record> {
    (0..n).map(|i| Record { open: format!("{}.5", i) }).collect()
}

#[test]
fn backtest_replays_from_index_25() {
    let mut bt = BackTest::new(records(27));
    assert_eq!(bt.current_index(), 25);
    assert_eq!(bt.len(), 27);
    assert_eq!(bt.get_ticker("any").price, "25.5");
    assert_eq!(bt.current_index(), 26);
    let h = bt.get_history("any");
    assert_eq!(h.len(), 26);
    assert_eq!(h[0].price, "0.5");
    assert_eq!(h[25].price, "25.5");
    assert_eq!(bt.get_ticker("any").price, "26.5");
    assert_eq!(bt.current_index(), 27);
}

#[test]
fn backtest_history_shows_last_fifty() {
    let mut bt = BackTest::new(records(80));
    for _ in 0..30 {
        bt.get_ticker("m");
    }
    assert_eq!(bt.current_index(), 55);
    let h = bt.get_history("m");
    assert_eq!(h.len(), 50);
    assert_eq!(h[0].price, "5.5");
    assert_eq!(h[49].price, "54.5");
}

#[test]
fn replayed_price_ends_history_law() {
    let mut bt = BackTest::new(records(40));
    let t = bt.get_ticker("m");
    let h = bt.get_history("m");
    assert_eq!(h.last().unwrap().price, t.price);
}

#[test]
fn csv_rows_of_trade_log() {
    let prices = vec!["1.5".to_string(), "2".to_string()];
    let actions = vec!["buy".to_string(), "hold".to_string()];
    assert_eq!(
        csv_rows(&prices, &actions),
        Ok(vec![
            ("0".to_string(), "1.5".to_string(), "buy".to_string()),
            ("1".to_string(), "2".to_string(), "hold".to_string()),
        ])
    );
    assert_eq!(
        csv_rows(&prices, &vec![]),
        Err("Prices and actions vectors must be of the same length.".to_string())
    );
    assert_eq!(csv_rows(&vec![], &vec![]), Ok(vec![]));
}
