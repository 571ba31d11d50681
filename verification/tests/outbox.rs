use edge_revenue_mcp::store::{
    check_sale, new_sale, push_to_square, recorded_currency, row_to_tx, sale_row, tx_to_row, usable_token,
    Row, SyncMark, TallyColumn,
};
use edge_revenue_mcp::{Error, Store, Transaction};

fn empty() -> Store {
    Store::open(Vec::new()).unwrap()
}

fn sell(s: &mut Store, id: &str, now: i64, cents: i64, currency: &str, method: &str) {
    s.record_sale_at(id.to_string(), now, cents, currency, "Hat", method, None).unwrap();
}

/// A venue's evening: four sales, two of them made at one time, one of them
/// stamped by a clock that was set back.
fn evening() -> Store {
    let mut s = empty();
    sell(&mut s, "r1", 300, 500, "usd", "cash");
    sell(&mut s, "r2", 300, 800, "EUR", "card");
    sell(&mut s, "r3", 100, 200, " usd ", "cash");
    sell(&mut s, "r4", 400, 1000, "", "cash");
    s
}

fn ids(rows: &[Transaction]) -> Vec<String> {
    rows.iter().map(|tx| tx.receipt_id.clone()).collect()
}

fn stored(id: &str, synced: i64, square_id: Option<&str>, created_at: i64) -> Row {
    Row {
        receipt_id: Some(id.to_string()),
        amount_cents: 1299,
        currency: "USD".to_string(),
        item: "T-shirt".to_string(),
        method: "card".to_string(),
        note: Some("VIP".to_string()),
        synced,
        square_id: square_id.map(|s| s.to_string()),
        created_at,
        synced_at: if synced == 0 { None } else { Some(created_at + 5) },
    }
}

fn nameless(synced: i64, square_id: Option<&str>, created_at: i64) -> Row {
    Row { receipt_id: None, ..stored("", synced, square_id, created_at) }
}

fn mark(receipt_id: &str, square_id: &str, synced_at: i64) -> SyncMark {
    SyncMark { receipt_id: receipt_id.to_string(), square_id: square_id.to_string(), synced_at }
}

fn db_text<T: std::fmt::Debug>(r: Result<T, Error>) -> String {
    match r {
        Err(Error::Db(text)) => text,
        other => panic!("not a database error: {:?}", other),
    }
}

fn invalid_text<T: std::fmt::Debug>(r: Result<T, Error>) -> String {
    match r {
        Err(Error::Invalid(text)) => text,
        other => panic!("not a refusal: {:?}", other),
    }
}

// --- reading --------------------------------------------------------------------

#[test]
fn row_is_read_column_by_column() {
    let tx = row_to_tx(&stored("r1", 1, Some("sq_r1"), 40)).unwrap();
    assert_eq!(tx.receipt_id, "r1");
    assert_eq!(tx.amount_cents, 1299);
    assert_eq!(tx.currency, "USD");
    assert_eq!(tx.item, "T-shirt");
    assert_eq!(tx.method, "card");
    assert_eq!(tx.note.as_deref(), Some("VIP"));
    assert!(tx.synced);
    assert_eq!(tx.square_id.as_deref(), Some("sq_r1"));
    assert_eq!(tx.created_at, 40);
    assert_eq!(tx.synced_at, Some(45));

    let queued = row_to_tx(&stored("r2", 0, None, 40)).unwrap();
    assert!(!queued.synced);
    assert!(queued.square_id.is_none());
    assert!(queued.synced_at.is_none());
}

#[test]
fn sale_is_read_back_from_its_row() {
    for tx in [
        row_to_tx(&stored("r1", 1, Some("sq_r1"), 40)).unwrap(),
        row_to_tx(&stored("r2", 0, None, 41)).unwrap(),
    ] {
        let row = tx_to_row(&tx);
        assert_eq!(row.receipt_id.as_deref(), Some(tx.receipt_id.as_str()));
        assert_eq!(row.synced, if tx.synced { 1 } else { 0 });
        assert_eq!(format!("{:?}", row_to_tx(&row).unwrap()), format!("{:?}", tx));
    }
}

#[test]
fn row_without_a_receipt_is_an_error_only_where_it_is_read() {
    assert_eq!(db_text(row_to_tx(&nameless(0, None, 40))), "Null value");

    // a queued one: the outbox and a reconcile that flags it cannot be read
    let mut s = Store::open(vec![stored("a", 0, None, 10), nameless(0, None, 40)]).unwrap();
    assert_eq!(db_text(s.queued()), "Null value");
    assert_eq!(db_text(s.next_push(Some("token"))), "Null value");
    assert_eq!(db_text(s.square_sync(Some("token"))), "Null value");
    assert_eq!(db_text(s.square_sync(None)), "Null value");
    assert_eq!(db_text(s.reconcile_at(100, 0)), "Null value");
    assert_eq!(s.reconcile_at(100, 60).unwrap().stuck_unsynced, vec!["a"]);
    // what does not ask for its receipt still answers
    assert_eq!(s.get_transaction("a").unwrap().unwrap().created_at, 10);
    assert!(s.get_transaction("").unwrap().is_none());
    assert_eq!(s.sync_status().unwrap(), (2, 0, 2, None));
    assert_eq!(s.daily_tally(None, None).unwrap().2, 2);
    assert!(s.record_sale(5, "USD", "Hat", "cash", None).is_ok());

    // synced ones, of which there may be many
    let mut s = Store::open(vec![
        nameless(1, Some("sq"), 1),
        nameless(1, Some("sq"), 2),
        stored("a", 0, None, 10),
    ])
    .unwrap();
    assert_eq!(ids(&s.queued().unwrap()), vec!["a"]);
    assert_eq!(s.square_sync(Some("token")).unwrap(), (1, 0));
    assert!(s.reconcile(0).is_ok());
    let s = Store::open(vec![nameless(1, None, 1)]).unwrap();
    assert_eq!(db_text(s.reconcile(0)), "Null value");
}

#[test]
fn flag_counts_as_it_stands() {
    let mut s = Store::open(vec![stored("a", 2, None, 10), stored("b", 0, None, 20)]).unwrap();
    // neither queued nor, for a reconcile, pushed; the status sums the flags
    assert!(s.get_transaction("a").unwrap().unwrap().synced);
    assert_eq!(ids(&s.queued().unwrap()), vec!["b"]);
    assert_eq!(s.sync_status().unwrap(), (2, 2, 1, Some(15)));
    let report = s.reconcile_at(1000, 0).unwrap();
    assert_eq!(report.stuck_unsynced, vec!["b"]);
    assert!(report.synced_without_square_id.is_empty());
    assert_eq!(s.square_sync(Some("token")).unwrap(), (1, 0));
    assert_eq!(s.sync_status().unwrap().1, 3);

    let s = Store::open(vec![stored("a", i64::MAX, None, 1), stored("b", 1, None, 1)]).unwrap();
    assert_eq!(db_text(s.sync_status()), "SQLite failure: `integer overflow`");
}

#[test]
fn opened_ledger_holds_the_rows_in_their_order() {
    let s = Store::open(vec![
        stored("b", 0, None, 2),
        stored("a", 0, None, 2),
        stored("c", 1, Some("sq_c"), 1),
    ])
    .unwrap();
    assert_eq!(ids(&s.queued().unwrap()), vec!["b", "a"]);
    assert_eq!(s.get_transaction("c").unwrap().unwrap().created_at, 1);
    assert_eq!(s.sync_status().unwrap(), (3, 1, 2, Some(6)));
}

// --- recording ------------------------------------------------------------------

#[test]
fn refusals_name_their_reason_and_change_nothing() {
    let mut s = empty();
    let r = s.record_sale(0, "USD", "x", "cash", None);
    assert_eq!(invalid_text(r), "amount_cents must be positive");
    let r = s.record_sale(100, "USD", " \t\u{3000}", "cash", None);
    assert_eq!(invalid_text(r), "item cannot be empty");
    let r = s.record_sale(100, "USD", "x", "\u{a0}\n", None);
    assert_eq!(invalid_text(r), "method cannot be empty");
    // the amount is looked at first, then the item
    let r = s.record_sale(i64::MIN, "USD", "", "", None);
    assert_eq!(invalid_text(r), "amount_cents must be positive");
    assert_eq!(invalid_text(check_sale(1, "", "")), "item cannot be empty");
    assert!(check_sale(1, "x", "cash").is_ok());
    assert_eq!(s.sync_status().unwrap(), (0, 0, 0, None));
}

#[test]
fn currency_is_trimmed_and_in_upper_case() {
    assert_eq!(recorded_currency("  eur\t"), "EUR");
    assert_eq!(recorded_currency(""), "USD");
    assert_eq!(recorded_currency(" \u{2003} "), "USD");
    assert_eq!(recorded_currency("u s d1"), "U S D1");
    assert_eq!(recorded_currency("stra\u{df}e\u{e9}"), "STRASSE\u{c9}");
}

#[test]
fn item_method_and_note_are_kept_as_given() {
    let tx = sale_row("r".to_string(), 7, 5, "GBP".to_string(), " Hat ", "Cash ", Some(" x "));
    assert_eq!(tx.receipt_id, "r");
    assert_eq!(tx.created_at, 7);
    assert_eq!(tx.amount_cents, 5);
    assert_eq!(tx.currency, "GBP");
    assert_eq!(tx.item, " Hat ");
    assert_eq!(tx.method, "Cash ");
    assert_eq!(tx.note.as_deref(), Some(" x "));
    assert!(!tx.synced && tx.square_id.is_none() && tx.synced_at.is_none());
}

#[test]
fn new_sale_carries_a_random_uuid() {
    let a = new_sale(5, "usd", "Hat", "cash", None).unwrap();
    let b = new_sale(5, "usd", "Hat", "cash", None).unwrap();
    assert_ne!(a.receipt_id, b.receipt_id);
    for id in [&a.receipt_id, &b.receipt_id] {
        let chars: Vec<char> = id.chars().collect();
        assert_eq!(chars.len(), 36);
        for (i, c) in chars.iter().enumerate() {
            if i == 8 || i == 13 || i == 18 || i == 23 {
                assert_eq!(*c, '-');
            } else {
                assert!(c.is_ascii_digit() || ('a'..='f').contains(c));
            }
        }
        assert_eq!(chars[14], '4');
        assert!(matches!(chars[19], '8' | '9' | 'a' | 'b'));
    }
    assert!(matches!(new_sale(0, "usd", "Hat", "cash", None), Err(Error::Invalid(_))));
}

#[test]
fn second_sale_under_one_receipt_is_refused() {
    let mut s = evening();
    let r = s.record_sale_at("r2".to_string(), 900, 1, "USD", "Pin", "cash", None);
    assert_eq!(
        db_text(r),
        "SQLite failure: `UNIQUE constraint failed: transactions.receipt_id`"
    );
    assert_eq!(s.get_transaction("r2").unwrap().unwrap().amount_cents, 800);
    assert_eq!(s.sync_status().unwrap(), (4, 0, 4, None));
    let tx = s.get_transaction("r1").unwrap().unwrap();
    assert!(s.insert(&tx).is_err());
}

#[test]
fn recorded_sale_is_found_and_disturbs_no_other() {
    let mut s = evening();
    let tx = s
        .record_sale_at("r5".to_string(), 50, 99, "nok", "Pin", "card", Some("late"))
        .unwrap();
    let found = s.get_transaction("r5").unwrap().unwrap();
    assert_eq!(found.currency, "NOK");
    assert_eq!(found.note.as_deref(), Some("late"));
    assert_eq!(found.created_at, tx.created_at);
    assert_eq!(s.get_transaction("r3").unwrap().unwrap().amount_cents, 200);
    assert!(s.get_transaction("r6").unwrap().is_none());
    assert!(s.get_transaction("R5").unwrap().is_none());
}

// --- the outbox -----------------------------------------------------------------

#[test]
fn outbox_is_oldest_first_and_stable() {
    let mut s = evening();
    assert_eq!(ids(&s.queued().unwrap()), vec!["r3", "r1", "r2", "r4"]);
    // a new sale takes its place by age
    sell(&mut s, "r5", 300, 1, "USD", "cash");
    assert_eq!(ids(&s.queued().unwrap()), vec!["r3", "r1", "r2", "r5", "r4"]);
    // the youngest goes to the end
    sell(&mut s, "r6", 400, 1, "USD", "cash");
    assert_eq!(ids(&s.queued().unwrap()), vec!["r3", "r1", "r2", "r5", "r4", "r6"]);
}

#[test]
fn push_stub_derives_the_id_from_the_receipt() {
    let tx = sale_row("abc".to_string(), 7, 5, "USD".to_string(), "Hat", "cash", None);
    assert_eq!(push_to_square("token", &tx).unwrap(), "sq_abc");
}

#[test]
fn empty_token_is_no_token() {
    assert_eq!(usable_token(None), None);
    assert_eq!(usable_token(Some("")), None);
    assert_eq!(usable_token(Some(" ")), Some(" "));
    let mut s = evening();
    assert_eq!(s.square_sync(Some("")).unwrap(), (0, 4));
    assert_eq!(s.sync_status().unwrap(), (4, 0, 4, None));
}

#[test]
fn mark_changes_only_the_queued_row_that_it_names() {
    let mut s = evening();
    s.mark_synced(&mark("r1", "sq_1", 1000));
    let tx = s.get_transaction("r1").unwrap().unwrap();
    assert!(tx.synced);
    assert_eq!(tx.square_id.as_deref(), Some("sq_1"));
    assert_eq!(tx.synced_at, Some(1000));
    assert_eq!((tx.amount_cents, tx.created_at), (500, 300));
    assert_eq!(ids(&s.queued().unwrap()), vec!["r3", "r2", "r4"]);
    // a synced row is never marked again, and an unknown one is nobody's
    s.mark_synced(&mark("r1", "other", 2000));
    s.mark_synced(&mark("zz", "other", 2000));
    let tx = s.get_transaction("r1").unwrap().unwrap();
    assert_eq!(tx.square_id.as_deref(), Some("sq_1"));
    assert_eq!(tx.synced_at, Some(1000));
    assert_eq!(s.sync_status().unwrap(), (4, 1, 3, Some(1000)));
}

#[test]
fn failed_push_stays_queued_and_is_retried_first() {
    let mut s = evening();
    let pending = s.queued().unwrap();
    let m = s.settle_push(&pending[0].receipt_id, Ok("sq_r3".to_string()), 500).unwrap();
    assert_eq!((m.receipt_id.as_str(), m.square_id.as_str(), m.synced_at), ("r3", "sq_r3", 500));
    let failed = s.settle_push(
        &pending[1].receipt_id,
        Err(Error::NotFound("no route to Square".to_string())),
        501,
    );
    assert!(matches!(failed, Err(Error::NotFound(text)) if text == "no route to Square"));
    assert!(!s.get_transaction("r1").unwrap().unwrap().synced);
    assert_eq!(ids(&s.queued().unwrap()), vec!["r1", "r2", "r4"]);
    // the next pass picks up where this one stopped
    assert_eq!(s.square_sync(Some("token")).unwrap(), (3, 0));
    assert_eq!(s.get_transaction("r3").unwrap().unwrap().synced_at, Some(500));
}

#[test]
fn next_push_is_the_oldest_queued_sale() {
    let mut s = evening();
    let mut pushed = Vec::new();
    while let Some(tx) = s.next_push(Some("token")).unwrap() {
        let reply = push_to_square("token", &tx);
        s.settle_push(&tx.receipt_id, reply, 500).unwrap();
        pushed.push(tx.receipt_id);
    }
    assert_eq!(pushed, vec!["r3", "r1", "r2", "r4"]);
    assert_eq!(s.sync_status().unwrap(), (4, 4, 0, Some(500)));
    // none without a token
    let s = evening();
    assert!(s.next_push(None).unwrap().is_none());
    assert!(s.next_push(Some("")).unwrap().is_none());
}

#[test]
fn sync_is_append_only_and_leaves_the_tally() {
    let mut s = evening();
    let before = s.queued().unwrap();
    let (currency_before, method_before, count_before) = s.daily_tally(None, None).unwrap();
    assert_eq!(s.square_sync(Some("token")).unwrap(), (4, 0));
    for was in &before {
        let now = s.get_transaction(&was.receipt_id).unwrap().unwrap();
        assert!(now.synced && now.synced_at.is_some());
        assert_eq!(now.square_id, Some(format!("sq_{}", was.receipt_id)));
        assert_eq!(now.amount_cents, was.amount_cents);
        assert_eq!(now.currency, was.currency);
        assert_eq!(now.item, was.item);
        assert_eq!(now.method, was.method);
        assert_eq!(now.note, was.note);
        assert_eq!(now.created_at, was.created_at);
    }
    let (currency_after, method_after, count_after) = s.daily_tally(None, None).unwrap();
    assert_eq!(format!("{:?}", currency_before), format!("{:?}", currency_after));
    assert_eq!(format!("{:?}", method_before), format!("{:?}", method_after));
    assert_eq!(count_before, count_after);
    // a second pass stamps nothing anew
    let stamps: Vec<Option<i64>> = before
        .iter()
        .map(|tx| s.get_transaction(&tx.receipt_id).unwrap().unwrap().synced_at)
        .collect();
    assert_eq!(s.square_sync(Some("token")).unwrap(), (0, 0));
    for (tx, stamp) in before.iter().zip(stamps) {
        assert_eq!(s.get_transaction(&tx.receipt_id).unwrap().unwrap().synced_at, stamp);
    }
}

#[test]
fn status_counts_add_up_and_show_the_latest_push() {
    let mut s = evening();
    s.mark_synced(&mark("r4", "sq_r4", 900));
    s.mark_synced(&mark("r1", "sq_r1", 700));
    assert_eq!(s.sync_status().unwrap(), (4, 2, 2, Some(900)));
    assert_eq!(empty().sync_status().unwrap(), (0, 0, 0, None));
}

// --- tallies --------------------------------------------------------------------

#[test]
fn tally_groups_ascend_by_code_point() {
    let mut s = evening();
    sell(&mut s, "r5", 1, 1, "USD", "Zelle");
    sell(&mut s, "r6", 1, 1, "USD", "\u{e9}tude");
    sell(&mut s, "r7", 1, 1, "USD", "ca");
    let groups = s.tally_by(TallyColumn::Method, None, None).unwrap();
    let keys: Vec<&str> = groups.iter().map(|t| t.key.as_str()).collect();
    assert_eq!(keys, vec!["Zelle", "ca", "card", "cash", "\u{e9}tude"]);
    assert_eq!((groups[3].total_cents, groups[3].count), (1700, 3));
}

#[test]
fn tally_adds_up_both_ways() {
    let s = evening();
    let (by_currency, by_method, count) = s.daily_tally(None, None).unwrap();
    assert_eq!(count, 4);
    let total: i64 = by_currency.iter().map(|t| t.total_cents).sum();
    assert_eq!(total, 2500);
    let total: i64 = by_method.iter().map(|t| t.total_cents).sum();
    assert_eq!(total, 2500);
    assert_eq!(by_currency.len(), 2);
    assert_eq!((by_currency[0].key.as_str(), by_currency[0].total_cents), ("EUR", 800));
    assert_eq!((by_currency[1].key.as_str(), by_currency[1].total_cents), ("USD", 1700));
    let total: i64 = by_method.iter().map(|t| t.count).sum();
    assert_eq!(total, 4);
}

#[test]
fn window_includes_both_ends() {
    let s = evening();
    assert_eq!(s.daily_tally(Some(300), Some(300)).unwrap().2, 2);
    assert_eq!(s.daily_tally(Some(301), None).unwrap().2, 1);
    assert_eq!(s.daily_tally(None, Some(299)).unwrap().2, 1);
    assert_eq!(s.daily_tally(Some(100), Some(400)).unwrap().2, 4);
    let (by_currency, by_method, count) = s.daily_tally(Some(400), Some(300)).unwrap();
    assert_eq!((by_currency.len(), by_method.len(), count), (0, 0, 0));
}

#[test]
fn sum_beyond_an_i64_is_an_error() {
    let mut s = empty();
    sell(&mut s, "r1", 1, i64::MAX, "USD", "cash");
    sell(&mut s, "r2", 1, 1, "EUR", "cash");
    // by currency each sum fits, by method it does not
    let groups = s.tally_by(TallyColumn::Currency, None, None).unwrap();
    assert_eq!(groups[1].total_cents, i64::MAX);
    let r = s.tally_by(TallyColumn::Method, None, None);
    assert_eq!(db_text(r), "SQLite failure: `integer overflow`");
    assert_eq!(db_text(s.daily_tally(None, None)), "SQLite failure: `integer overflow`");
}

// --- reconciling ----------------------------------------------------------------

#[test]
fn reconcile_flags_exactly_the_anomalies() {
    let mut missing = stored("lost", 1, None, 3);
    missing.synced_at = Some(4);
    let s = Store::open(vec![
        stored("new", 0, None, 900),
        stored("edge", 0, None, 500),
        stored("old", 0, None, 499),
        stored("older", 0, None, 10),
        stored("fine", 1, Some("sq_fine"), 1),
        stored("blank", 1, Some(""), 5),
        missing,
    ])
    .unwrap();
    let report = s.reconcile_at(1000, 500).unwrap();
    assert_eq!(report.stuck_unsynced, vec!["older", "old"]);
    assert_eq!(report.synced_without_square_id, vec!["lost", "blank"]);
    assert_eq!(report.threshold_ms, 500);
    assert_eq!(report.checked_at, 1000);
    // a negative threshold counts as none, and is reported as it was given
    let report = s.reconcile_at(1000, -7).unwrap();
    assert_eq!(report.stuck_unsynced, vec!["older", "old", "edge", "new"]);
    assert_eq!(report.threshold_ms, -7);
    // no row is older than the earliest time
    assert!(s.reconcile_at(i64::MIN, i64::MAX).unwrap().stuck_unsynced.is_empty());
}

#[test]
fn nothing_is_stuck_or_unlinked_after_a_sync() {
    let mut s = evening();
    s.square_sync(Some("token")).unwrap();
    let report = s.reconcile_at(i64::MAX, 0).unwrap();
    assert!(report.stuck_unsynced.is_empty());
    assert!(report.synced_without_square_id.is_empty());
}

#[test]
fn square_ids_tell_sales_apart() {
    let mut s = evening();
    s.square_sync(Some("token")).unwrap();
    let a = s.get_transaction("r1").unwrap().unwrap().square_id.unwrap();
    let b = s.get_transaction("r2").unwrap().unwrap().square_id.unwrap();
    assert_ne!(a, b);
    assert_eq!(a.len(), 5);
}
