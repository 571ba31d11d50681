use edge_revenue_mcp::clock::now_millis;
use edge_revenue_mcp::Store;

fn open_tmp() -> Store {
    Store::open(Vec::new()).unwrap()
}

#[test]
fn offline_record_is_queued() {
    let mut s = open_tmp();
    let tx = s.record_sale(500, "USD", "T-shirt", "cash", None).unwrap();
    assert!(!tx.synced);
    assert!(tx.square_id.is_none());
    assert_eq!(tx.amount_cents, 500);

    // It lands in the outbox.
    let queued = s.queued().unwrap();
    assert_eq!(queued.len(), 1);
    assert_eq!(queued[0].receipt_id, tx.receipt_id);

    let (total, synced, q, last) = s.sync_status().unwrap();
    assert_eq!((total, synced, q), (1, 0, 1));
    assert!(last.is_none());
}

#[test]
fn record_rejects_bad_input() {
    let mut s = open_tmp();
    assert!(s.record_sale(0, "USD", "x", "cash", None).is_err());
    assert!(s.record_sale(-5, "USD", "x", "cash", None).is_err());
    assert!(s.record_sale(100, "USD", "  ", "cash", None).is_err());
    assert!(s.record_sale(100, "USD", "x", "", None).is_err());
    // empty currency defaults to USD
    let tx = s.record_sale(100, "", "x", "cash", None).unwrap();
    assert_eq!(tx.currency, "USD");
}

#[test]
fn square_sync_offline_mode_does_not_error() {
    let mut s = open_tmp();
    s.record_sale(500, "USD", "T-shirt", "cash", None).unwrap();
    s.record_sale(800, "USD", "Hat", "card", None).unwrap();

    // No token => fail-safe: nothing synced, both still queued, no error.
    let (synced_now, still_queued) = s.square_sync(None).unwrap();
    assert_eq!((synced_now, still_queued), (0, 2));
    let (_t, synced, queued, _l) = s.sync_status().unwrap();
    assert_eq!((synced, queued), (0, 2));
}

#[test]
fn square_sync_marks_synced_with_token() {
    let mut s = open_tmp();
    let a = s.record_sale(500, "USD", "T-shirt", "cash", None).unwrap();
    let b = s.record_sale(800, "USD", "Hat", "card", None).unwrap();

    let (synced_now, still_queued) = s.square_sync(Some("test-token")).unwrap();
    assert_eq!((synced_now, still_queued), (2, 0));

    // Both rows now synced and carry a square_id.
    let ta = s.get_transaction(&a.receipt_id).unwrap().unwrap();
    let tb = s.get_transaction(&b.receipt_id).unwrap().unwrap();
    assert!(ta.synced && tb.synced);
    assert_eq!(ta.square_id.as_deref(), Some(format!("sq_{}", a.receipt_id).as_str()));
    assert!(tb.square_id.is_some());
    assert!(ta.synced_at.is_some());

    let (total, synced, queued, last) = s.sync_status().unwrap();
    assert_eq!((total, synced, queued), (2, 2, 0));
    assert!(last.is_some());

    // A second sync with nothing queued is a clean no-op.
    let (n, q) = s.square_sync(Some("test-token")).unwrap();
    assert_eq!((n, q), (0, 0));
}

#[test]
fn daily_tally_sums_by_currency_and_method() {
    let mut s = open_tmp();
    s.record_sale(500, "USD", "T-shirt", "cash", None).unwrap();
    s.record_sale(800, "USD", "Hat", "card", None).unwrap();
    s.record_sale(200, "USD", "Sticker", "cash", None).unwrap();

    let (by_currency, by_method, count) = s.daily_tally(None, None).unwrap();
    assert_eq!(count, 3);

    // one currency, summing all three
    assert_eq!(by_currency.len(), 1);
    assert_eq!(by_currency[0].key, "USD");
    assert_eq!(by_currency[0].total_cents, 1500);
    assert_eq!(by_currency[0].count, 3);

    // two methods
    let cash = by_method.iter().find(|t| t.key == "cash").unwrap();
    let card = by_method.iter().find(|t| t.key == "card").unwrap();
    assert_eq!(cash.total_cents, 700);
    assert_eq!(cash.count, 2);
    assert_eq!(card.total_cents, 800);
    assert_eq!(card.count, 1);
}

#[test]
fn daily_tally_respects_window() {
    let mut s = open_tmp();
    s.record_sale(500, "USD", "T-shirt", "cash", None).unwrap();
    // a window entirely in the future excludes everything
    let future = now_millis() + 1_000_000;
    let (by_currency, _by_method, count) = s.daily_tally(Some(future), None).unwrap();
    assert_eq!(count, 0);
    assert!(by_currency.is_empty());
}

#[test]
fn receipt_verify_hit_and_miss() {
    let mut s = open_tmp();
    let tx = s.record_sale(500, "USD", "T-shirt", "cash", Some("VIP")).unwrap();

    let hit = s.get_transaction(&tx.receipt_id).unwrap();
    assert!(hit.is_some());
    assert_eq!(hit.unwrap().note.as_deref(), Some("VIP"));

    let miss = s.get_transaction("does-not-exist").unwrap();
    assert!(miss.is_none());
}

#[test]
fn reconcile_flags_stuck_unsynced() {
    let mut s = open_tmp();
    let tx = s.record_sale(500, "USD", "T-shirt", "cash", None).unwrap();
    // the clock moves on
    while now_millis() <= tx.created_at {}

    // threshold 0 => anything created before "now" counts as stuck
    let report = s.reconcile(0).unwrap();
    assert_eq!(report.stuck_unsynced.len(), 1);
    assert!(report.synced_without_square_id.is_empty());

    // after a synced pass, nothing is stuck
    s.square_sync(Some("test-token")).unwrap();
    let report = s.reconcile(0).unwrap();
    assert!(report.stuck_unsynced.is_empty());
    assert!(report.synced_without_square_id.is_empty());
}
