use trend_signals::ingest::{
    decode_tick, double_delay, subscription, subscriptions, Action, Event, Phase, StreamIngestor,
    Tick, INITIAL_BACKOFF, MAX_BACKOFF,
};

fn ticker(symbol: &str, price: &str, volume: &str) -> String {
    format!(
        "{{\"type\":\"v2/ticker\",\"data\":{{\"symbol\":\"{}\",\"mark_price\":{},\"volume_24h\":{}}}}}",
        symbol, price, volume
    )
}

#[test]
fn three_failures_in_a_row_wait_one_two_and_four_seconds() {
    let mut s = StreamIngestor::new();
    assert_eq!(s.phase(), Phase::Connecting);
    let mut waits = Vec::new();
    for _ in 0..3 {
        match s.step(Event::ConnectFailed) {
            Action::Wait(seconds) => waits.push(seconds),
            other => panic!("expected a wait, got {:?}", other),
        }
        assert_eq!(s.phase(), Phase::ConnectError);
        assert_eq!(s.step(Event::BackoffElapsed), Action::Connect);
        assert_eq!(s.phase(), Phase::Connecting);
    }
    assert_eq!(waits, vec![1, 2, 4]);
    assert_eq!(s.delay(), 8);
}

#[test]
fn the_delay_doubles_up_to_thirty_two_seconds() {
    let mut s = StreamIngestor::new();
    let mut waits = Vec::new();
    for _ in 0..9 {
        if let Action::Wait(seconds) = s.step(Event::ConnectFailed) {
            waits.push(seconds);
        }
        s.step(Event::BackoffElapsed);
    }
    assert_eq!(waits, vec![1, 2, 4, 8, 16, 32, 32, 32, 32]);
    assert_eq!(INITIAL_BACKOFF, 1);
    assert_eq!(MAX_BACKOFF, 32);
}

#[test]
fn double_delay_is_capped() {
    assert_eq!(double_delay(1), 2);
    assert_eq!(double_delay(2), 4);
    assert_eq!(double_delay(15), 30);
    assert_eq!(double_delay(16), 32);
    assert_eq!(double_delay(17), 32);
    assert_eq!(double_delay(32), 32);
    assert_eq!(double_delay(0), 0);
    assert_eq!(double_delay(u64::MAX), 32);
}

#[test]
fn a_connection_subscribes_streams_and_is_retried_when_lost() {
    let mut s = StreamIngestor::new();
    assert_eq!(s.step(Event::Connected), Action::Subscribe);
    assert_eq!(s.phase(), Phase::Streaming);
    assert_eq!(s.step(Event::StreamEnded), Action::Wait(1));
    assert_eq!(s.phase(), Phase::Disconnected);
    assert_eq!(s.step(Event::BackoffElapsed), Action::Connect);
    assert_eq!(s.phase(), Phase::Connecting);
    assert_eq!(s.step(Event::Connected), Action::Subscribe);
    assert_eq!(s.step(Event::StreamEnded), Action::Wait(2));
    assert_eq!(s.delay(), 4);
}

#[test]
fn the_delay_is_not_set_back_by_a_connection() {
    let mut s = StreamIngestor::new();
    s.step(Event::ConnectFailed);
    s.step(Event::BackoffElapsed);
    s.step(Event::ConnectFailed);
    s.step(Event::BackoffElapsed);
    assert_eq!(s.step(Event::Connected), Action::Subscribe);
    assert_eq!(s.delay(), 4);
    assert_eq!(s.step(Event::StreamEnded), Action::Wait(4));
}

#[test]
fn an_event_out_of_place_changes_nothing() {
    let mut s = StreamIngestor::new();
    assert_eq!(s.step(Event::StreamEnded), Action::Proceed);
    assert_eq!(s.step(Event::BackoffElapsed), Action::Proceed);
    assert_eq!(s.phase(), Phase::Connecting);
    assert_eq!(s.delay(), 1);
    s.step(Event::Connected);
    assert_eq!(s.step(Event::Connected), Action::Proceed);
    assert_eq!(s.step(Event::ConnectFailed), Action::Proceed);
    assert_eq!(s.step(Event::BackoffElapsed), Action::Proceed);
    assert_eq!(s.phase(), Phase::Streaming);
    s.step(Event::StreamEnded);
    assert_eq!(s.step(Event::StreamEnded), Action::Proceed);
    assert_eq!(s.step(Event::Connected), Action::Proceed);
    assert_eq!(s.phase(), Phase::Disconnected);
    assert_eq!(s.delay(), 2);
}

#[test]
fn the_stop_signal_ends_every_phase() {
    for events in [
        vec![],
        vec![Event::Connected],
        vec![Event::ConnectFailed],
        vec![Event::Connected, Event::StreamEnded],
    ] {
        let mut s = StreamIngestor::new();
        for e in events {
            s.step(e);
        }
        let delay = s.delay();
        assert_eq!(s.step(Event::Shutdown), Action::Close);
        assert_eq!(s.phase(), Phase::Stopped);
        for e in [
            Event::Connected,
            Event::ConnectFailed,
            Event::StreamEnded,
            Event::BackoffElapsed,
            Event::Shutdown,
        ] {
            assert_eq!(s.step(e), Action::Proceed);
            assert_eq!(s.phase(), Phase::Stopped);
        }
        assert_eq!(s.delay(), delay);
    }
}

#[test]
fn a_full_record_is_a_tick() {
    let tick = decode_tick(&ticker("BTCUSD", "64250.5", "1200")).unwrap();
    assert_eq!(tick.symbol, "BTCUSD");
    assert_eq!(f64::from_bits(tick.price), 64250.5);
    assert_eq!(f64::from_bits(tick.volume), 1200.0);
    let tick = decode_tick("{\"data\":{\"volume_24h\":-3,\"mark_price\":1e-3,\"symbol\":\"\"}}").unwrap();
    assert_eq!(
        tick,
        Tick { symbol: String::new(), price: 0.001f64.to_bits(), volume: (-3.0f64).to_bits() }
    );
}

#[test]
fn a_partial_record_is_no_tick() {
    assert_eq!(decode_tick("{\"data\":{\"symbol\":\"BTCUSD\",\"mark_price\":1.0}}"), None);
    assert_eq!(decode_tick("{\"data\":{\"symbol\":\"BTCUSD\",\"volume_24h\":1.0}}"), None);
    assert_eq!(decode_tick("{\"data\":{\"mark_price\":1.0,\"volume_24h\":1.0}}"), None);
    assert_eq!(decode_tick("{\"data\":{}}"), None);
    assert_eq!(decode_tick("{\"symbol\":\"BTCUSD\",\"mark_price\":1.0,\"volume_24h\":1.0}"), None);
    assert_eq!(decode_tick("{\"type\":\"subscriptions\"}"), None);
}

#[test]
fn a_field_of_the_wrong_kind_is_missing() {
    assert_eq!(decode_tick(&ticker("BTCUSD", "\"64250.5\"", "1200")), None);
    assert_eq!(decode_tick(&ticker("BTCUSD", "64250.5", "null")), None);
    assert_eq!(decode_tick("{\"data\":{\"symbol\":7,\"mark_price\":1.0,\"volume_24h\":1.0}}"), None);
    assert_eq!(decode_tick("{\"data\":[\"symbol\",\"mark_price\",\"volume_24h\"]}"), None);
    assert_eq!(decode_tick("{\"data\":\"symbol mark_price volume_24h\"}"), None);
}

#[test]
fn a_message_that_is_no_json_is_no_tick() {
    assert_eq!(decode_tick(""), None);
    assert_eq!(decode_tick("pong"), None);
    assert_eq!(decode_tick("{\"data\":{\"symbol\":\"BTCUSD\",\"mark_price\":1.0,\"volume_24h\":1.0}"), None);
    assert_eq!(decode_tick("[1,2,3]"), None);
}

#[test]
fn from_fields_needs_all_three() {
    assert_eq!(
        Tick::from_fields(Some("ETHUSD"), Some(7), Some(9)),
        Some(Tick { symbol: "ETHUSD".to_string(), price: 7, volume: 9 })
    );
    assert_eq!(Tick::from_fields(None, Some(7), Some(9)), None);
    assert_eq!(Tick::from_fields(Some("ETHUSD"), None, Some(9)), None);
    assert_eq!(Tick::from_fields(Some("ETHUSD"), Some(7), None), None);
    assert_eq!(Tick::from_fields(None, None, None), None);
}

#[test]
fn messages_go_through_the_rate_limiter() {
    let mut s = StreamIngestor::new();
    s.step(Event::Connected);
    let message = ticker("BTCUSD", "100.0", "5.0");
    let mut delivered = 0;
    for i in 0..100u64 {
        let got = s.on_message(&message, 1_000_000 * i);
        if i < 60 {
            assert_eq!(got.unwrap().symbol, "BTCUSD");
            delivered += 1;
        } else {
            assert_eq!(got, None);
        }
    }
    assert_eq!(delivered, 60);
    assert_eq!(s.phase(), Phase::Streaming);
    assert_eq!(s.delay(), 1);
}

#[test]
fn messages_that_are_no_ticks_do_not_count_against_the_limit() {
    let mut s = StreamIngestor::new();
    for i in 0..1000u64 {
        assert_eq!(s.on_message("{\"type\":\"heartbeat\"}", i), None);
        assert_eq!(s.on_message("not json", i), None);
    }
    let message = ticker("SOLUSD", "1.5", "2");
    for i in 0..60u64 {
        assert!(s.on_message(&message, 2000 + i).is_some());
    }
    assert!(s.on_message(&message, 3000).is_none());
    assert!(!s.accept_tick(60_000_002_000));
    assert!(s.accept_tick(60_000_002_001));
}

#[test]
fn a_subscription_names_the_ticker_channel_and_the_symbol() {
    assert_eq!(
        subscription("BTCUSD"),
        "{\"channels\":[{\"name\":\"v2/ticker\",\"symbols\":[\"BTCUSD\"]}],\"type\":\"subscribe\"}"
    );
    let request: serde_json::Value = serde_json::from_str(&subscription("ETHUSD")).unwrap();
    assert_eq!(request.get("type").unwrap().as_str(), Some("subscribe"));
    let channels = request.get("channels").unwrap().as_array().unwrap();
    assert_eq!(channels.len(), 1);
    assert_eq!(channels[0].get("name").unwrap().as_str(), Some("v2/ticker"));
    let symbols = channels[0].get("symbols").unwrap().as_array().unwrap();
    assert_eq!(symbols.len(), 1);
    assert_eq!(symbols[0].as_str(), Some("ETHUSD"));
}

#[test]
fn a_symbol_is_written_as_a_json_string() {
    for symbol in ["", "A\"B", "back\\slash", "line\nbreak", "tab\there", "\u{1}", "MARK-\u{e9}"] {
        let text = subscription(symbol);
        let request: serde_json::Value = serde_json::from_str(&text).unwrap();
        let symbols = request.get("channels").unwrap().get(0).unwrap().get("symbols").unwrap();
        assert_eq!(symbols.get(0).unwrap().as_str(), Some(symbol));
    }
    assert_eq!(
        subscription("A\"B"),
        "{\"channels\":[{\"name\":\"v2/ticker\",\"symbols\":[\"A\\\"B\"]}],\"type\":\"subscribe\"}"
    );
}

#[test]
fn there_is_one_subscription_for_each_instrument() {
    let symbols = vec!["BTCUSD".to_string(), "ETHUSD".to_string(), "BTCUSD".to_string()];
    let requests = subscriptions(&symbols);
    assert_eq!(requests.len(), 3);
    for (request, symbol) in requests.iter().zip(symbols.iter()) {
        assert_eq!(request, &subscription(symbol));
    }
    assert!(subscriptions(&[]).is_empty());
}
