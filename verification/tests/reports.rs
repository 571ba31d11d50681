use edge_revenue_mcp::clock::{epoch_millis, now_millis};
use edge_revenue_mcp::config::{db_path, default_db_path, square_token};
use edge_revenue_mcp::error::json_message;
use edge_revenue_mcp::report::{
    daily_tally_reply, money, receipt_verify_reply, reconcile_reply, reconcile_threshold,
    render_tally, render_tx, sale_record_reply, square_sync_reply, sync_status_reply,
};
use edge_revenue_mcp::text::{
    blank, decimal_text, join, signed_decimal_text, text_precedes, trimmed_uppercase,
    two_digits_text,
};
use edge_revenue_mcp::{Error, ReconcileReport, Store, Tally, Transaction};

fn sale(synced: bool, square_id: Option<&str>, note: Option<&str>) -> Transaction {
    Transaction {
        receipt_id: "abc".to_string(),
        amount_cents: 1299,
        currency: "USD".to_string(),
        item: "T-shirt".to_string(),
        method: "card".to_string(),
        note: note.map(|s| s.to_string()),
        synced,
        square_id: square_id.map(|s| s.to_string()),
        created_at: 5,
        synced_at: if synced { Some(6) } else { None },
    }
}

fn group(key: &str, total_cents: i64, count: i64) -> Tally {
    Tally { key: key.to_string(), total_cents, count }
}

fn strings(parts: &[&str]) -> Vec<String> {
    parts.iter().map(|s| s.to_string()).collect()
}

#[test]
fn money_shows_units_and_cents() {
    assert_eq!(money(1299, "USD"), "12.99 USD");
    assert_eq!(money(5, "EUR"), "0.05 EUR");
    assert_eq!(money(100, ""), "1.00 ");
    assert_eq!(money(0, "USD"), "0.00 USD");
    assert_eq!(money(-1299, "USD"), "-12.99 USD");
    // the cents have no sign
    assert_eq!(money(-5, "USD"), "0.05 USD");
    assert_eq!(money(i64::MAX, "X"), "92233720368547758.07 X");
    assert_eq!(money(i64::MIN, "X"), "-92233720368547758.08 X");
}

#[test]
fn tally_is_rendered_one_group_on_a_line() {
    assert_eq!(render_tally("by method", &[]), "  by method: (none)\n");
    assert_eq!(
        render_tally("by method", &[group("card", 800, 1), group("cash", 700, 2)]),
        "  by method:\n    card \u{2014} 8.00  (1 sale(s))\n    cash \u{2014} 7.00  (2 sale(s))\n"
    );
}

#[test]
fn sale_is_rendered_in_one_line() {
    assert_eq!(
        render_tx(&sale(false, None, None)),
        "Receipt abc: 12.99 USD for 'T-shirt' via card \u{2014} queued (offline, not yet synced)."
    );
    assert_eq!(
        render_tx(&sale(true, Some("sq_abc"), Some("VIP"))),
        "Receipt abc: 12.99 USD for 'T-shirt' via card \u{2014} synced (square_id sq_abc). note: VIP"
    );
    assert_eq!(
        render_tx(&sale(true, None, Some(""))),
        "Receipt abc: 12.99 USD for 'T-shirt' via card \u{2014} synced (square_id ?). note: "
    );
}

#[test]
fn sale_record_is_answered_with_the_receipt() {
    assert_eq!(
        sale_record_reply(&sale(false, None, None)),
        "Recorded sale: 12.99 USD for 'T-shirt' via card. Receipt id: abc (queued offline, not yet synced to Square)."
    );
}

#[test]
fn receipt_verify_is_answered_hit_and_miss() {
    assert_eq!(receipt_verify_reply("xyz", &None), "No sale found for receipt id xyz.");
    let tx = sale(false, None, None);
    assert_eq!(receipt_verify_reply("abc", &Some(tx.clone())), render_tx(&tx));
}

#[test]
fn square_sync_is_answered_online_and_offline() {
    assert_eq!(
        square_sync_reply(false, 0, 2),
        "Offline mode: 2 transaction(s) queued, not synced (SQUARE_ACCESS_TOKEN unset)."
    );
    assert_eq!(
        square_sync_reply(true, 12, 0),
        "Synced 12 transaction(s) to Square. 0 still queued."
    );
}

#[test]
fn sync_status_is_answered_with_the_counts() {
    assert_eq!(
        sync_status_reply(3, 1, 2, Some(1700000000000)),
        "total=3, synced=1, queued=2, last_synced_at=1700000000000"
    );
    assert_eq!(
        sync_status_reply(0, 0, 0, None),
        "total=0, synced=0, queued=0, last_synced_at=never"
    );
}

#[test]
fn daily_tally_is_answered_both_ways() {
    assert_eq!(
        daily_tally_reply(&[group("USD", 1500, 3)], &[group("cash", 1500, 3)], 3),
        "Tally over 3 sale(s):\n  by currency:\n    USD \u{2014} 1500 (3 sale(s))\n  by method:\n    cash \u{2014} 1500 (3 sale(s))\n"
    );
    assert_eq!(
        daily_tally_reply(&[], &[], 0),
        "Tally over 0 sale(s):\n  by currency: (none)\n  by method: (none)\n"
    );
}

#[test]
fn reconcile_is_answered_clean_or_with_the_anomalies() {
    let mut report = ReconcileReport {
        stuck_unsynced: Vec::new(),
        synced_without_square_id: Vec::new(),
        threshold_ms: 3600000,
        checked_at: 9,
    };
    assert_eq!(
        reconcile_reply(&report),
        "Reconcile clean (threshold 3600000ms): no stuck-unsynced and no synced-without-square_id rows."
    );
    report.stuck_unsynced = strings(&["a", "b"]);
    assert_eq!(
        reconcile_reply(&report),
        "Reconcile anomalies (threshold 3600000ms):\n  stuck unsynced (2): a, b\n"
    );
    report.synced_without_square_id = strings(&["c"]);
    assert_eq!(
        reconcile_reply(&report),
        "Reconcile anomalies (threshold 3600000ms):\n  stuck unsynced (2): a, b\n  synced without square_id (1): c\n"
    );
    report.stuck_unsynced = Vec::new();
    assert_eq!(
        reconcile_reply(&report),
        "Reconcile anomalies (threshold 3600000ms):\n  synced without square_id (1): c\n"
    );
}

#[test]
fn reconcile_threshold_defaults_to_an_hour() {
    assert_eq!(reconcile_threshold(None), 60 * 60 * 1000);
    assert_eq!(reconcile_threshold(Some(-1)), -1);
}

#[test]
fn errors_read_as_their_kind_and_text() {
    assert_eq!(Error::Db("disk I/O error".to_string()).message(), "db error: disk I/O error");
    assert_eq!(Error::NotFound("r1".to_string()).message(), "not found: r1");
    assert_eq!(
        Error::Invalid("item cannot be empty".to_string()).message(),
        "invalid: item cannot be empty"
    );
    assert_eq!(json_message("oops"), "json error: oops");
}

#[test]
fn json_error_is_taken_in_and_reads_as_its_own_text() {
    let own = serde_json::from_str::<i64>("[").unwrap_err();
    let text = own.to_string();
    assert!(!text.is_empty());
    let e = Error::from(own);
    assert!(matches!(e, Error::Json(_)));
    assert_eq!(e.message(), format!("json error: {}", text));
}

#[test]
fn ledger_lies_where_the_environment_says() {
    let s = |t: &str| Some(t.to_string());
    assert_eq!(default_db_path(s("C:/Users/pi"), s("/home/pi")), "C:/Users/pi/.edge-revenue/ledger.db");
    assert_eq!(default_db_path(None, s("/home/pi")), "/home/pi/.edge-revenue/ledger.db");
    assert_eq!(default_db_path(None, None), "./.edge-revenue/ledger.db");
    assert_eq!(default_db_path(s(""), None), "/.edge-revenue/ledger.db");
    assert_eq!(db_path(s("/data/l.db"), None, s("/home/pi")), "/data/l.db");
    assert_eq!(db_path(s(""), None, None), "");
    assert_eq!(db_path(None, None, s("/home/pi")), "/home/pi/.edge-revenue/ledger.db");
}

#[test]
fn empty_square_token_counts_as_unset() {
    assert_eq!(square_token(None), None);
    assert_eq!(square_token(Some(String::new())), None);
    assert_eq!(square_token(Some("tok".to_string())), Some("tok".to_string()));
}

#[test]
fn clock_shows_epoch_milliseconds() {
    assert_eq!(epoch_millis(None), 0);
    assert_eq!(epoch_millis(Some(1_700_000_000_000)), 1_700_000_000_000);
    // the low 64 bits, as a signed number
    assert_eq!(epoch_millis(Some(1u128 << 63)), i64::MIN);
    assert_eq!(epoch_millis(Some(1u128 << 64)), 0);
    let elapsed = std::time::SystemTime::now()
        .duration_since(std::time::UNIX_EPOCH)
        .map(|d| d.as_millis() as i64)
        .unwrap_or(0);
    let shown = now_millis();
    assert!(shown >= elapsed && shown - elapsed < 10_000);
}

#[test]
fn numbers_read_in_decimal() {
    assert_eq!(decimal_text(0), "0");
    assert_eq!(decimal_text(90210), "90210");
    assert_eq!(decimal_text(u64::MAX), "18446744073709551615");
    assert_eq!(signed_decimal_text(-40), "-40");
    assert_eq!(signed_decimal_text(i64::MIN), "-9223372036854775808");
    assert_eq!(two_digits_text(7), "07");
    assert_eq!(two_digits_text(99), "99");
}

#[test]
fn texts_are_ordered_by_code_point() {
    assert!(text_precedes("", "a"));
    assert!(text_precedes("ca", "card"));
    assert!(text_precedes("Z", "a"));
    assert!(text_precedes("z", "\u{e9}"));
    assert!(text_precedes("\u{ffff}", "\u{10000}"));
    assert!(!text_precedes("card", "card"));
    assert!(!text_precedes("cash", "card"));
    assert!(!text_precedes("", ""));
}

#[test]
fn tally_of_a_ledger_is_answered_in_cents() {
    let mut s = Store::open(Vec::new()).unwrap();
    s.record_sale(500, "USD", "T-shirt", "cash", None).unwrap();
    s.record_sale(800, "USD", "Hat", "card", None).unwrap();
    s.record_sale(200, "USD", "Sticker", "cash", None).unwrap();
    let (by_currency, by_method, count) = s.daily_tally(None, None).unwrap();
    assert_eq!(
        daily_tally_reply(&by_currency, &by_method, count),
        "Tally over 3 sale(s):\n  by currency:\n    USD \u{2014} 1500 (3 sale(s))\n  by method:\n    card \u{2014} 800 (1 sale(s))\n    cash \u{2014} 700 (2 sale(s))\n"
    );
}

#[test]
fn lists_are_joined_with_the_separator_between() {
    assert_eq!(join(&Vec::new(), ", "), "");
    assert_eq!(join(&strings(&["a"]), ", "), "a");
    assert_eq!(join(&strings(&["a", "", "c"]), ", "), "a, , c");
}

#[test]
fn white_space_is_what_unicode_says() {
    assert!(blank(""));
    assert!(blank(" \t\n\u{b}\u{c}\r\u{85}\u{a0}\u{1680}\u{2000}\u{200a}\u{2028}\u{2029}\u{202f}\u{205f}\u{3000}"));
    assert!(!blank("\u{200b}"));
    assert!(!blank(" x "));
    assert_eq!(trimmed_uppercase("\u{3000} aZ\u{e9} b \u{85}"), "AZ\u{c9} B");
}
