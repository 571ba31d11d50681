//! The edge-payments store: a local, append-only sales ledger with a Square
//! sync outbox.
//!
//! - **Sales are recorded fully offline.** [`Store::record_sale`] appends one
//!   immutable queued row. No network is touched at sale time.
//! - **The ledger is append-only.** Nothing of a row is ever changed but that it
//!   turns from queued to synced, with the id and the time of the push.
//! - **Money is integer cents**, so totals are exact.
//! - **Outbox.** A sale is queued until [`Store::square_sync`] pushes it. Without
//!   a token the sync is a no-op that reports the queue depth.

use vstd::prelude::*;

use crate::clock;
use crate::clock::now_millis;
use crate::error::Error;
use crate::lemmas;
use crate::model;
use crate::model::{ReconcileReportView, RowView, SyncMarkView, TallyView, TransactionView};
use crate::receipt;
use crate::text;

verus! {

/// One recorded sale in the local ledger.
#[derive(Debug)]
pub struct Transaction {
    /// Public receipt id handed back at sale time (a uuid v4). The thing a fan
    /// or auditor quotes to prove a sale happened.
    pub receipt_id: String,
    pub amount_cents: i64,
    pub currency: String,
    pub item: String,
    /// Payment method, e.g. "cash" / "card".
    pub method: String,
    pub note: Option<String>,
    /// `false` while queued in the outbox, `true` once pushed to Square.
    pub synced: bool,
    /// Square's id for the synced payment; `None` until synced.
    pub square_id: Option<String>,
    pub created_at: i64,
    /// When the row was pushed to Square; `None` until synced.
    pub synced_at: Option<i64>,
}

impl View for Transaction {
    type V = TransactionView;

    open spec fn view(&self) -> TransactionView {
        TransactionView {
            receipt_id: self.receipt_id@,
            amount_cents: self.amount_cents as int,
            currency: self.currency@,
            item: self.item@,
            method: self.method@,
            note: text::opt_text(self.note),
            synced: self.synced,
            square_id: text::opt_text(self.square_id),
            created_at: self.created_at as int,
            synced_at: opt_int(self.synced_at),
        }
    }
}

impl Clone for Transaction {
    fn clone(&self) -> (r: Transaction)
        ensures
            r@ == self@,
    {
        Transaction {
            receipt_id: self.receipt_id.clone(),
            amount_cents: self.amount_cents,
            currency: self.currency.clone(),
            item: self.item.clone(),
            method: self.method.clone(),
            note: text::clone_opt(&self.note),
            synced: self.synced,
            square_id: text::clone_opt(&self.square_id),
            created_at: self.created_at,
            synced_at: self.synced_at,
        }
    }
}

/// What a tally groups the sales by.
#[derive(Debug, Clone, Copy, PartialEq, Eq, Structural)]
pub enum TallyColumn {
    Currency,
    Method,
}

/// A summed-up slice of the ledger, grouped one way (by currency or by method).
#[derive(Debug, Clone)]
pub struct Tally {
    pub key: String,
    pub total_cents: i64,
    pub count: i64,
}

impl View for Tally {
    type V = TallyView;

    open spec fn view(&self) -> TallyView {
        TallyView {
            key: self.key@,
            total_cents: self.total_cents as int,
            count: self.count as int,
        }
    }
}

/// The result of a [`Store::reconcile`] pass: anomalies that need a human.
#[derive(Debug, Clone)]
pub struct ReconcileReport {
    /// Receipt ids that are still unsynced and older than the threshold.
    pub stuck_unsynced: Vec<String>,
    /// Receipt ids marked synced but missing a square_id (an impossible state
    /// that means a bug or a partial write: flag loudly).
    pub synced_without_square_id: Vec<String>,
    pub threshold_ms: i64,
    pub checked_at: i64,
}

impl View for ReconcileReport {
    type V = ReconcileReportView;

    open spec fn view(&self) -> ReconcileReportView {
        ReconcileReportView {
            stuck_unsynced: text::texts(self.stuck_unsynced@),
            synced_without_square_id: text::texts(self.synced_without_square_id@),
            threshold_ms: self.threshold_ms as int,
            checked_at: self.checked_at as int,
        }
    }
}

/// The sales that the transactions stand for.
pub open spec fn sales_of(transactions: Seq<Transaction>) -> Seq<TransactionView> {
    transactions.map_values(|tx: Transaction| tx@)
}

/// The groups that the tallies stand for.
pub open spec fn groups_of(tallies: Seq<Tally>) -> Seq<TallyView> {
    tallies.map_values(|t: Tally| t@)
}

/// A row of the table `transactions`: its columns in their order, where those
/// that may be NULL are `None` if they are.
#[derive(Debug)]
pub struct Row {
    /// The primary key. The database lets it be NULL, but no sale is ever written
    /// without one.
    pub receipt_id: Option<String>,
    pub amount_cents: i64,
    pub currency: String,
    pub item: String,
    pub method: String,
    pub note: Option<String>,
    /// 0 while queued in the outbox, 1 once pushed to Square.
    pub synced: i64,
    pub square_id: Option<String>,
    pub created_at: i64,
    pub synced_at: Option<i64>,
}

impl View for Row {
    type V = RowView;

    open spec fn view(&self) -> RowView {
        RowView {
            receipt_id: text::opt_text(self.receipt_id),
            amount_cents: self.amount_cents as int,
            currency: self.currency@,
            item: self.item@,
            method: self.method@,
            note: text::opt_text(self.note),
            synced: self.synced as int,
            square_id: text::opt_text(self.square_id),
            created_at: self.created_at as int,
            synced_at: opt_int(self.synced_at),
        }
    }
}

impl Clone for Row {
    fn clone(&self) -> (r: Row)
        ensures
            r@ == self@,
    {
        Row {
            receipt_id: text::clone_opt(&self.receipt_id),
            amount_cents: self.amount_cents,
            currency: self.currency.clone(),
            item: self.item.clone(),
            method: self.method.clone(),
            note: text::clone_opt(&self.note),
            synced: self.synced,
            square_id: text::clone_opt(&self.square_id),
            created_at: self.created_at,
            synced_at: self.synced_at,
        }
    }
}

/// An optional integer.
pub open spec fn opt_int(n: Option<i64>) -> Option<int> {
    match n {
        Some(v) => Some(v as int),
        None => None,
    }
}

/// What the rows hold.
pub open spec fn rows_of(rows: Seq<Row>) -> Seq<RowView> {
    rows.map_values(|row: Row| row@)
}

/// The edge-payments store: the rows of the ledger, in the order in which they
/// were written.
#[derive(Debug)]
pub struct Store {
    rows: Vec<Row>,
}

impl View for Store {
    type V = Seq<RowView>;

    closed spec fn view(&self) -> Seq<RowView> {
        rows_of(self.rows@)
    }
}

/// Putting a row at a place behind which every row is younger, and before which
/// the last row is not, is putting it in its place by age.
proof fn lemma_insert_by_age(sorted: Seq<RowView>, row: RowView, at: int)
    requires
        0 <= at <= sorted.len(),
        forall|k: int| at <= k < sorted.len() ==> (#[trigger] sorted[k]).created_at > row.created_at,
        at > 0 ==> sorted[at - 1].created_at <= row.created_at,
    ensures
        model::insert_by_age(sorted, row) == sorted.insert(at, row),
    decreases sorted.len(),
{
    if at == sorted.len() {
        assert(sorted.insert(at, row) =~= sorted.push(row));
    } else {
        assert(sorted.last().created_at > row.created_at);
        lemma_insert_by_age(sorted.drop_last(), row, at);
        assert(sorted.insert(at, row) =~= sorted.drop_last().insert(at, row).push(sorted.last()));
    }
}

/// Puts a row in its place by age. Sales come in by time, so the place
/// is looked for from the end.
fn insert_by_age(sorted: &mut Vec<Row>, row: Row)
    ensures
        rows_of(final(sorted)@) == model::insert_by_age(rows_of(old(sorted)@), row@),
{
    let mut at: usize = sorted.len();
    while at > 0 && sorted[at - 1].created_at > row.created_at
        invariant
            at <= sorted.len(),
            forall|k: int|
                at <= k < sorted.len() ==> (#[trigger] sorted@[k]).created_at > row.created_at,
        decreases at,
    {
        at = at - 1;
    }
    proof {
        let rows = rows_of(sorted@);
        assert forall|k: int| at <= k < rows.len() implies (#[trigger] rows[k]).created_at
            > row@.created_at by {
            assert(sorted@[k].created_at > row.created_at);
        }
        lemma_insert_by_age(rows, row@, at as int);
        assert(rows_of(sorted@.insert(at as int, row)) =~= rows.insert(at as int, row@));
    }
    sorted.insert(at, row);
}

// --- reading --------------------------------------------------------------------

/// A row that must have a receipt id has none.
pub open spec fn null_value<T>(r: Result<T, Error>) -> bool {
    r matches Err(Error::Db(text)) && text@ == "Null value"@
}

fn null_found<T>() -> (r: Result<T, Error>)
    ensures
        null_value(r),
{
    Err(Error::Db("Null value".to_string()))
}

/// Reads the sale in a row of the database: synced where the flag is not 0, and
/// an error where there is no receipt id.
pub fn row_to_tx(row: &Row) -> (r: Result<Transaction, Error>)
    ensures
        if row@.receipt_id is Some {
            r matches Ok(tx) && tx@ == model::decoded(row@)
        } else {
            null_value(r)
        },
{
    match &row.receipt_id {
        Some(receipt_id) => Ok(
            Transaction {
                receipt_id: receipt_id.clone(),
                amount_cents: row.amount_cents,
                currency: row.currency.clone(),
                item: row.item.clone(),
                method: row.method.clone(),
                note: text::clone_opt(&row.note),
                synced: row.synced != 0,
                square_id: text::clone_opt(&row.square_id),
                created_at: row.created_at,
                synced_at: row.synced_at,
            },
        ),
        None => null_found(),
    }
}

/// The row that a sale is written down as.
pub fn tx_to_row(tx: &Transaction) -> (r: Row)
    ensures
        r@ == model::encoded(tx@),
{
    Row {
        receipt_id: Some(tx.receipt_id.clone()),
        amount_cents: tx.amount_cents,
        currency: tx.currency.clone(),
        item: tx.item.clone(),
        method: tx.method.clone(),
        note: text::clone_opt(&tx.note),
        synced: if tx.synced {
            1
        } else {
            0
        },
        square_id: text::clone_opt(&tx.square_id),
        created_at: tx.created_at,
        synced_at: tx.synced_at,
    }
}

/// Every row has a receipt id.
spec fn all_named(rows: Seq<RowView>) -> bool {
    forall|i: int| 0 <= i < rows.len() ==> (#[trigger] rows[i]).receipt_id is Some
}

/// Reads the sales in the rows.
fn read_sales(rows: &Vec<Row>) -> (r: Result<Vec<Transaction>, Error>)
    ensures
        if all_named(rows_of(rows@)) {
            r matches Ok(out) && sales_of(out@) == model::decoded_rows(rows_of(rows@))
        } else {
            null_value(r)
        },
{
    let ghost raw = rows_of(rows@);
    let mut out: Vec<Transaction> = Vec::new();
    let mut i: usize = 0;
    while i < rows.len()
        invariant
            i <= rows.len(),
            raw == rows_of(rows@),
            out.len() == i,
            forall|k: int| 0 <= k < i ==> (#[trigger] raw[k]).receipt_id is Some,
            forall|k: int| 0 <= k < i ==> (#[trigger] out@[k])@ == model::decoded(raw[k]),
        decreases rows.len() - i,
    {
        proof {
            assert(raw[i as int] == rows@[i as int]@);
        }
        match row_to_tx(&rows[i]) {
            Ok(tx) => out.push(tx),
            Err(e) => return Err(e),
        }
        i = i + 1;
    }
    proof {
        assert(sales_of(out@) =~= model::decoded_rows(raw));
    }
    Ok(out)
}

/// Reads the receipt ids of the rows.
fn read_receipts(rows: &Vec<Row>) -> (r: Result<Vec<String>, Error>)
    ensures
        if all_named(rows_of(rows@)) {
            r matches Ok(out) && text::texts(out@) == model::receipts(rows_of(rows@))
        } else {
            null_value(r)
        },
{
    let ghost raw = rows_of(rows@);
    let mut out: Vec<String> = Vec::new();
    let mut i: usize = 0;
    while i < rows.len()
        invariant
            i <= rows.len(),
            raw == rows_of(rows@),
            out.len() == i,
            forall|k: int| 0 <= k < i ==> (#[trigger] raw[k]).receipt_id is Some,
            forall|k: int| 0 <= k < i ==> (#[trigger] out@[k])@ == raw[k].receipt_id->0,
        decreases rows.len() - i,
    {
        proof {
            assert(raw[i as int] == rows@[i as int]@);
        }
        match &rows[i].receipt_id {
            Some(id) => out.push(id.clone()),
            None => return null_found(),
        }
        i = i + 1;
    }
    proof {
        assert(text::texts(out@) =~= model::receipts(raw));
    }
    Ok(out)
}

impl Store {
    /// Opens the ledger whose rows the database gives, in the order in which
    /// they were written.
    pub fn open(rows: Vec<Row>) -> (r: Result<Store, Error>)
        ensures
            r matches Ok(store) && store@ == rows_of(rows@),
    {
        Ok(Store { rows })
    }
}

// --- recording sales (offline) --------------------------------------------------

/// A refusal of the ledger, for the reason `why`.
pub open spec fn refused<T>(r: Result<T, Error>, why: Seq<char>) -> bool {
    r matches Err(Error::Invalid(text)) && text@ == why
}

/// The database's refusal of a second row with one receipt id.
pub open spec fn receipt_taken<T>(r: Result<T, Error>) -> bool {
    r matches Err(Error::Db(text)) && text@
        == "SQLite failure: `UNIQUE constraint failed: transactions.receipt_id`"@
}

/// The sale that a transaction stands for, where there is one.
pub open spec fn opt_sale(tx: Option<Transaction>) -> Option<TransactionView> {
    match tx {
        Some(t) => Some(t@),
        None => None,
    }
}

/// Whether a sale can be recorded: it has a positive amount, an item and a
/// payment method.
pub fn check_sale(amount_cents: i64, item: &str, method: &str) -> (r: Result<(), Error>)
    ensures
        match model::sale_refusal(amount_cents as int, item@, method@) {
            Some(why) => refused(r, why),
            None => r is Ok,
        },
{
    if amount_cents <= 0 {
        return Err(Error::Invalid("amount_cents must be positive".to_string()));
    }
    if text::blank(item) {
        return Err(Error::Invalid("item cannot be empty".to_string()));
    }
    if text::blank(method) {
        return Err(Error::Invalid("method cannot be empty".to_string()));
    }
    Ok(())
}

/// The currency that a sale is recorded in: `USD` where none is named, and
/// otherwise the code in upper case.
pub fn recorded_currency(currency: &str) -> (r: String)
    ensures
        r@ == model::recorded_currency(currency@),
{
    if text::blank(currency) {
        "USD".to_string()
    } else {
        text::trimmed_uppercase(currency)
    }
}

/// The queued row of a sale made at the time `now`, under the id `receipt_id`, in
/// the currency that it is recorded in.
pub fn sale_row(
    receipt_id: String,
    now: i64,
    amount_cents: i64,
    currency: String,
    item: &str,
    method: &str,
    note: Option<&str>,
) -> (r: Transaction)
    ensures
        r@ == model::queued_sale(
            receipt_id@,
            now as int,
            amount_cents as int,
            currency@,
            item@,
            method@,
            text::opt_str(note),
        ),
        r.receipt_id@ == receipt_id@,
        r.amount_cents == amount_cents,
        r.currency@ == currency@,
        r.item@ == item@,
        r.method@ == method@,
        match (note, r.note) {
            (Some(given), Some(kept)) => kept@ == given@,
            (None, None) => true,
            _ => false,
        },
        !r.synced,
        r.square_id is None,
        r.created_at == now,
        r.synced_at is None,
{
    Transaction {
        receipt_id,
        amount_cents,
        currency,
        item: item.to_string(),
        method: method.to_string(),
        note: text::own_opt(note),
        synced: false,
        square_id: None,
        created_at: now,
        synced_at: None,
    }
}

/// A new sale: checked, given a receipt id and the time, and queued. Touches
/// neither the network nor the ledger.
pub fn new_sale(
    amount_cents: i64,
    currency: &str,
    item: &str,
    method: &str,
    note: Option<&str>,
) -> (r: Result<Transaction, Error>)
    ensures
        match model::sale_refusal(amount_cents as int, item@, method@) {
            Some(why) => refused(r, why),
            None => {
                &&& r matches Ok(tx)
                &&& receipt::is_uuid_v4(tx.receipt_id@)
                &&& tx@ == model::recorded_sale(
                    tx.receipt_id@,
                    tx.created_at as int,
                    amount_cents as int,
                    currency@,
                    item@,
                    method@,
                    text::opt_str(note),
                )
                &&& receipt::is_drawn(tx.receipt_id@)
                &&& clock::is_reading(tx.created_at as int)
            },
        },
        r matches Ok(tx) ==> {
            &&& amount_cents > 0
            &&& tx.amount_cents == amount_cents
            &&& tx.currency@ == model::recorded_currency(currency@)
            &&& tx.item@ == item@
            &&& tx.method@ == method@
            &&& match (note, tx.note) {
                (Some(given), Some(kept)) => kept@ == given@,
                (None, None) => true,
                _ => false,
            }
            &&& !tx.synced
            &&& tx.square_id is None
            &&& tx.synced_at is None
        },
{
    match check_sale(amount_cents, item, method) {
        Ok(()) => {},
        Err(e) => return Err(e),
    }
    let currency: String = recorded_currency(currency);
    let receipt_id: String = receipt::draw_receipt_id();
    let now: i64 = now_millis();
    Ok(sale_row(receipt_id, now, amount_cents, currency, item, method, note))
}

impl Store {
    /// The place of the first row with this receipt id.
    fn find(&self, receipt_id: &str) -> (r: Option<usize>)
        ensures
            match r {
                Some(i) => {
                    &&& i < self@.len()
                    &&& self@[i as int].receipt_id == Some(receipt_id@)
                    &&& forall|k: int|
                        0 <= k < i ==> (#[trigger] self@[k]).receipt_id != Some(receipt_id@)
                },
                None => !model::has_receipt(self@, receipt_id@),
            },
    {
        let wanted: String = receipt_id.to_string();
        let mut i: usize = 0;
        while i < self.rows.len()
            invariant
                i <= self.rows.len(),
                wanted@ == receipt_id@,
                forall|k: int|
                    0 <= k < i ==> (#[trigger] self@[k]).receipt_id != Some(receipt_id@),
            decreases self.rows.len() - i,
        {
            proof {
                assert(self@[i as int] == self.rows@[i as int]@);
            }
            match &self.rows[i].receipt_id {
                Some(id) => if *id == wanted {
                    return Some(i);
                },
                None => {},
            }
            i = i + 1;
        }
        None
    }

    /// Appends the row of a sale, whose receipt id no other row may carry.
    pub fn insert(&mut self, tx: &Transaction) -> (r: Result<(), Error>)
        ensures
            if model::has_receipt(old(self)@, tx.receipt_id@) {
                receipt_taken(r) && final(self)@ == old(self)@
            } else {
                r is Ok && final(self)@ == old(self)@.push(model::encoded(tx@))
            },
    {
        match self.find(tx.receipt_id.as_str()) {
            Some(_) => Err(
                Error::Db(
                    "SQLite failure: `UNIQUE constraint failed: transactions.receipt_id`".to_string(),
                ),
            ),
            None => {
                self.rows.push(tx_to_row(tx));
                proof {
                    assert(self@ =~= old(self)@.push(model::encoded(tx@)));
                }
                Ok(())
            },
        }
    }

    /// Records a sale made at the time `now` under the id `receipt_id`: see
    /// [`Store::record_sale`].
    pub fn record_sale_at(
        &mut self,
        receipt_id: String,
        now: i64,
        amount_cents: i64,
        currency: &str,
        item: &str,
        method: &str,
        note: Option<&str>,
    ) -> (r: Result<Transaction, Error>)
        ensures
            match model::sale_refusal(amount_cents as int, item@, method@) {
                Some(why) => refused(r, why) && final(self)@ == old(self)@,
                None => if model::has_receipt(old(self)@, receipt_id@) {
                    receipt_taken(r) && final(self)@ == old(self)@
                } else {
                    &&& r matches Ok(tx)
                    &&& tx@ == model::recorded_sale(
                        receipt_id@,
                        now as int,
                        amount_cents as int,
                        currency@,
                        item@,
                        method@,
                        text::opt_str(note),
                    )
                    &&& final(self)@ == old(self)@.push(model::encoded(tx@))
                },
            },
            r matches Ok(tx) ==> {
                &&& amount_cents > 0
                &&& tx.receipt_id@ == receipt_id@
                &&& tx.created_at == now
                &&& tx.amount_cents == amount_cents
                &&& tx.currency@ == model::recorded_currency(currency@)
                &&& tx.item@ == item@
                &&& tx.method@ == method@
                &&& match (note, tx.note) {
                    (Some(given), Some(kept)) => kept@ == given@,
                    (None, None) => true,
                    _ => false,
                }
                &&& !tx.synced
                &&& tx.square_id is None
                &&& tx.synced_at is None
            },
            r matches Ok(tx) ==> {
                let row = final(self)@.last();
                &&& final(self)@.len() == old(self)@.len() + 1
                &&& final(self)@.drop_last() == old(self)@
                &&& row.receipt_id == Some(tx.receipt_id@)
                &&& row.amount_cents == amount_cents
                &&& row.currency == tx.currency@
                &&& row.item == item@
                &&& row.method == method@
                &&& match (note, row.note) {
                    (Some(given), Some(kept)) => kept == given@,
                    (None, None) => true,
                    _ => false,
                }
                &&& row.synced == 0
                &&& row.square_id is None
                &&& row.created_at == tx.created_at
                &&& row.synced_at is None
            },
            r is Err ==> final(self)@ == old(self)@,
    {
        match check_sale(amount_cents, item, method) {
            Ok(()) => {},
            Err(e) => return Err(e),
        }
        let tx: Transaction = sale_row(
            receipt_id,
            now,
            amount_cents,
            recorded_currency(currency),
            item,
            method,
            note,
        );
        match self.insert(&tx) {
            Ok(()) => {
                proof {
                    assert(self@.drop_last() =~= old(self)@);
                }
                Ok(tx)
            },
            Err(e) => Err(e),
        }
    }

    /// Record a sale fully offline. Appends one immutable queued row and returns
    /// the new [`Transaction`] (carrying its receipt id). No network is touched:
    /// this is safe to call on a Pi with no connectivity.
    ///
    /// The receipt id is random. Where it is one that the ledger holds already
    /// the database refuses the row.
    pub fn record_sale(
        &mut self,
        amount_cents: i64,
        currency: &str,
        item: &str,
        method: &str,
        note: Option<&str>,
    ) -> (r: Result<Transaction, Error>)
        ensures
            match model::sale_refusal(amount_cents as int, item@, method@) {
                Some(why) => refused(r, why) && final(self)@ == old(self)@,
                None => match r {
                    Ok(tx) => {
                        &&& receipt::is_uuid_v4(tx.receipt_id@)
                        &&& !model::has_receipt(old(self)@, tx.receipt_id@)
                        &&& tx@ == model::recorded_sale(
                            tx.receipt_id@,
                            tx.created_at as int,
                            amount_cents as int,
                            currency@,
                            item@,
                            method@,
                            text::opt_str(note),
                        )
                        &&& final(self)@ == old(self)@.push(model::encoded(tx@))
                        &&& receipt::is_drawn(tx.receipt_id@)
                        &&& clock::is_reading(tx.created_at as int)
                    },
                    Err(_) => {
                        &&& receipt_taken(r)
                        &&& final(self)@ == old(self)@
                        &&& exists|id: Seq<char>|
                            receipt::is_uuid_v4(id) && receipt::is_drawn(id)
                                && #[trigger] model::has_receipt(old(self)@, id)
                    },
                },
            },
            r matches Ok(tx) ==> {
                &&& amount_cents > 0
                &&& tx.amount_cents == amount_cents
                &&& tx.currency@ == model::recorded_currency(currency@)
                &&& tx.item@ == item@
                &&& tx.method@ == method@
                &&& match (note, tx.note) {
                    (Some(given), Some(kept)) => kept@ == given@,
                    (None, None) => true,
                    _ => false,
                }
                &&& !tx.synced
                &&& tx.square_id is None
                &&& tx.synced_at is None
            },
            r matches Ok(tx) ==> {
                let row = final(self)@.last();
                &&& final(self)@.len() == old(self)@.len() + 1
                &&& final(self)@.drop_last() == old(self)@
                &&& row.receipt_id == Some(tx.receipt_id@)
                &&& row.amount_cents == amount_cents
                &&& row.currency == tx.currency@
                &&& row.item == item@
                &&& row.method == method@
                &&& match (note, row.note) {
                    (Some(given), Some(kept)) => kept == given@,
                    (None, None) => true,
                    _ => false,
                }
                &&& row.synced == 0
                &&& row.square_id is None
                &&& row.created_at == tx.created_at
                &&& row.synced_at is None
            },
            r is Err ==> final(self)@ == old(self)@,
    {
        match check_sale(amount_cents, item, method) {
            Ok(()) => {},
            Err(e) => return Err(e),
        }
        let receipt_id: String = receipt::draw_receipt_id();
        let now: i64 = now_millis();
        self.record_sale_at(receipt_id, now, amount_cents, currency, item, method, note)
    }

    /// Look up a single transaction by its receipt id (proof a sale happened).
    pub fn get_transaction(&self, receipt_id: &str) -> (r: Result<Option<Transaction>, Error>)
        ensures
            r matches Ok(found) && opt_sale(found) == model::lookup(self@, receipt_id@),
    {
        match self.find(receipt_id) {
            Some(i) => {
                proof {
                    lemmas::lemma_find_receipt(self@, receipt_id@, i as int);
                    assert(self@[i as int] == self.rows@[i as int]@);
                }
                match row_to_tx(&self.rows[i]) {
                    Ok(tx) => Ok(Some(tx)),
                    Err(e) => Err(e),
                }
            },
            None => {
                proof {
                    lemmas::lemma_find_receipt(self@, receipt_id@, self@.len() as int);
                }
                Ok(None)
            },
        }
    }
}

/// Which rows to pick out of the ledger.
enum Selection {
    /// Those in the outbox.
    Queued,
    /// Those that are stuck in the outbox at a time, by a threshold.
    Stuck { now: i64, threshold_ms: i64 },
    /// Those that are synced without an id of Square's.
    Unlinked,
}

impl Selection {
    spec fn picked(self) -> spec_fn(RowView) -> bool {
        match self {
            Selection::Queued => model::is_queued(),
            Selection::Stuck { now, threshold_ms } => model::is_stuck(
                now as int,
                threshold_ms as int,
            ),
            Selection::Unlinked => model::is_unlinked(),
        }
    }

    fn picks(&self, row: &Row) -> (r: bool)
        ensures
            r == self.picked()(row@),
    {
        match self {
            Selection::Queued => row.synced == 0,
            Selection::Stuck { now, threshold_ms } => {
                let age: i64 = if *threshold_ms > 0 {
                    *threshold_ms
                } else {
                    0
                };
                // No row is older than a cutoff before the earliest time.
                match now.checked_sub(age) {
                    Some(cutoff) => row.synced == 0 && row.created_at < cutoff,
                    None => false,
                }
            },
            Selection::Unlinked => row.synced == 1 && match &row.square_id {
                Some(id) => id.as_str().is_empty(),
                None => true,
            },
        }
    }
}

/// Rows in the order of their age have receipt ids where the rows that were
/// picked have.
proof fn lemma_picked_named(rows: Seq<RowView>, picked: spec_fn(RowView) -> bool)
    ensures
        all_named(model::oldest_first(rows.filter(picked))) <==> model::named(rows, picked),
{
    let found = rows.filter(picked);
    let sorted = model::oldest_first(found);
    lemmas::lemma_oldest_first_contains(found);
    if model::named(rows, picked) {
        assert forall|k: int| 0 <= k < sorted.len() implies (
        #[trigger] sorted[k]).receipt_id is Some by {
            assert(sorted.contains(sorted[k]));
            assert(found.contains(sorted[k]));
            let m = choose|m: int| 0 <= m < found.len() && found[m] == sorted[k];
            rows.lemma_filter_pred(picked, m);
            rows.lemma_filter_contains_rev(picked, found[m]);
            let i = choose|i: int| 0 <= i < rows.len() && rows[i] == found[m];
            assert(picked(rows[i]));
        }
    }
    if all_named(sorted) {
        assert forall|i: int| 0 <= i < rows.len() && picked(#[trigger] rows[i]) implies
            rows[i].receipt_id is Some by {
            rows.lemma_filter_contains(picked, i);
            assert(sorted.contains(rows[i]));
            let k = choose|k: int| 0 <= k < sorted.len() && sorted[k] == rows[i];
            assert(sorted[k].receipt_id is Some);
        }
    }
}

impl Store {
    /// The rows that are picked, oldest first.
    fn select(&self, which: Selection) -> (r: Vec<Row>)
        ensures
            rows_of(r@) == model::oldest_first(self@.filter(which.picked())),
            all_named(rows_of(r@)) <==> model::named(self@, which.picked()),
    {
        let mut out: Vec<Row> = Vec::new();
        let mut i: usize = 0;
        proof {
            reveal(Seq::filter);
            assert(rows_of(out@) =~= model::oldest_first(self@.take(0).filter(which.picked())));
        }
        while i < self.rows.len()
            invariant
                i <= self.rows.len(),
                rows_of(out@) == model::oldest_first(
                    self@.take(i as int).filter(which.picked()),
                ),
            decreases self.rows.len() - i,
        {
            proof {
                reveal(Seq::filter);
                assert(self@.take(i + 1).drop_last() =~= self@.take(i as int));
                let found = self@.take(i as int).filter(which.picked());
                assert(found.push(self@[i as int]).drop_last() =~= found);
            }
            if which.picks(&self.rows[i]) {
                insert_by_age(&mut out, self.rows[i].clone());
            }
            i = i + 1;
        }
        proof {
            assert(self@.take(i as int) =~= self@);
            lemma_picked_named(self@, which.picked());
        }
        out
    }

    /// All transactions still in the outbox, oldest first. An error where one has
    /// no receipt id.
    pub fn queued(&self) -> (r: Result<Vec<Transaction>, Error>)
        ensures
            if model::named(self@, model::is_queued()) {
                r matches Ok(out) && sales_of(out@) == model::decoded_rows(model::queue(self@))
            } else {
                null_value(r)
            },
    {
        read_sales(&self.select(Selection::Queued))
    }

    /// The anomalies at the time `now`: see [`Store::reconcile`].
    pub fn reconcile_at(&self, now: i64, threshold_ms: i64) -> (r: Result<ReconcileReport, Error>)
        ensures
            if model::named(self@, model::is_stuck(now as int, threshold_ms as int))
                && model::named(self@, model::is_unlinked()) {
                r matches Ok(report) && report@ == model::reconcile_report(
                    self@,
                    now as int,
                    threshold_ms as int,
                )
            } else {
                null_value(r)
            },
    {
        let stuck_unsynced: Vec<String> = match read_receipts(
            &self.select(Selection::Stuck { now, threshold_ms }),
        ) {
            Ok(ids) => ids,
            Err(e) => return Err(e),
        };
        let synced_without_square_id: Vec<String> = match read_receipts(
            &self.select(Selection::Unlinked),
        ) {
            Ok(ids) => ids,
            Err(e) => return Err(e),
        };
        Ok(ReconcileReport { stuck_unsynced, synced_without_square_id, threshold_ms, checked_at: now })
    }

    /// Flag anomalies for a human to chase:
    /// - transactions still unsynced and older than `threshold_ms`
    ///   (the Pi has likely been offline too long: go check connectivity);
    /// - rows marked synced but missing a square_id (a should-be-impossible
    ///   state pointing at a bug or partial write).
    ///
    /// An error where a row to be flagged has no receipt id.
    pub fn reconcile(&self, threshold_ms: i64) -> (r: Result<ReconcileReport, Error>)
        ensures
            match r {
                Ok(report) => {
                    let now = report.checked_at as int;
                    &&& model::named(self@, model::is_stuck(now, threshold_ms as int))
                    &&& model::named(self@, model::is_unlinked())
                    &&& report@ == model::reconcile_report(self@, now, threshold_ms as int)
                    &&& clock::is_reading(now)
                },
                Err(_) => {
                    &&& null_value(r)
                    &&& exists|now: i64|
                        clock::is_reading(now as int) && !(#[trigger] model::named(
                            self@,
                            model::is_stuck(now as int, threshold_ms as int),
                        ) && model::named(self@, model::is_unlinked()))
                    &&& !(model::named(self@, model::is_queued()) && model::named(
                        self@,
                        model::is_unlinked(),
                    ))
                },
            },
    {
        self.reconcile_at(now_millis(), threshold_ms)
    }
}

/// Made in the window, both ends included.
fn made_within(created_at: i64, since_ms: Option<i64>, until_ms: Option<i64>) -> (r: bool)
    ensures
        r == ((since_ms matches Some(s) ==> s <= created_at) && (until_ms matches Some(u)
            ==> created_at <= u)),
{
    let late_enough: bool = match since_ms {
        Some(s) => s <= created_at,
        None => true,
    };
    let early_enough: bool = match until_ms {
        Some(u) => created_at <= u,
        None => true,
    };
    late_enough && early_enough
}

/// What is asked for is refused because a sum leaves the range of an `i64`.
pub open spec fn sum_overflowed<T>(r: Result<T, Error>) -> bool {
    r matches Err(Error::Db(why)) && why@ == "SQLite failure: `integer overflow`"@
}

fn sum_overflow<T>() -> (r: Result<T, Error>)
    ensures
        sum_overflowed(r),
{
    Err(Error::Db("SQLite failure: `integer overflow`".to_string()))
}

/// The first group whose key does not precede `key`.
fn group_place(groups: &Vec<Tally>, key: &String) -> (at: usize)
    ensures
        at <= groups.len(),
        forall|k: int| 0 <= k < at ==> text::precedes((#[trigger] groups@[k]).key@, key@),
        at < groups.len() ==> !text::precedes(groups@[at as int].key@, key@),
{
    let mut at: usize = 0;
    while at < groups.len() && text::text_precedes(groups[at].key.as_str(), key.as_str())
        invariant
            at <= groups.len(),
            forall|k: int| 0 <= k < at ==> text::precedes((#[trigger] groups@[k]).key@, key@),
        decreases groups.len() - at,
    {
        at = at + 1;
    }
    at
}

impl Store {
    /// Whether there are more rows than an `i64` can count.
    fn is_uncountable(&self) -> (r: bool)
        ensures
            r == !model::countable(self@),
    {
        self.rows.len() as u64 > i64::MAX as u64
    }

    /// Sum `amount_cents` over an optional time window, grouped by `column`, in
    /// ascending order of it. An error where a sum does not fit in an `i64`, or
    /// where there are more rows than an `i64` can count.
    pub fn tally_by(
        &self,
        column: TallyColumn,
        since_ms: Option<i64>,
        until_ms: Option<i64>,
    ) -> (r: Result<Vec<Tally>, Error>)
        ensures
            ({
                let sales = self@.filter(model::in_window(since_ms, until_ms));
                if model::countable(self@) && model::totals_fit(sales, column) {
                    r matches Ok(out) && groups_of(out@) == model::tally(sales, column)
                } else {
                    sum_overflowed(r)
                }
            }),
    {
        if self.is_uncountable() {
            return sum_overflow();
        }
        let ghost window = model::in_window(since_ms, until_ms);
        let ghost all = self@.filter(window);
        let mut out: Vec<Tally> = Vec::new();
        let mut i: usize = 0;
        proof {
            reveal(Seq::filter);
            let none = self@.take(0).filter(window);
            assert(groups_of(out@) =~= model::tally(none, column));
            assert(model::totals_fit(none, column)) by {
                assert forall|n: int, key: Seq<char>| 0 <= n <= none.len() implies i64::MIN
                    <= #[trigger] model::total_for(none.take(n), column, key) <= i64::MAX by {
                    assert(none.take(n).len() == 0);
                }
            }
        }
        while i < self.rows.len()
            invariant
                i <= self.rows.len() <= i64::MAX,
                window == model::in_window(since_ms, until_ms),
                all == self@.filter(window),
                groups_of(out@) == model::tally(self@.take(i as int).filter(window), column),
                model::totals_fit(self@.take(i as int).filter(window), column),
            decreases self.rows.len() - i,
        {
            let ghost sales = self@.take(i as int).filter(window);
            let ghost more = self@.take(i + 1).filter(window);
            let row: &Row = &self.rows[i];
            proof {
                reveal(Seq::filter);
                assert(self@.take(i + 1).drop_last() =~= self@.take(i as int));
                assert(more == if window(row@) { sales.push(row@) } else { sales });
            }
            if made_within(row.created_at, since_ms, until_ms) {
                let key: &String = match column {
                    TallyColumn::Currency => &row.currency,
                    TallyColumn::Method => &row.method,
                };
                let at: usize = group_place(&out, key);
                let ghost groups = groups_of(out@);
                proof {
                    assert(key@ == model::key_of(column, row@));
                    assert forall|k: int| 0 <= k < at implies text::precedes(
                        (#[trigger] groups[k]).key,
                        key@,
                    ) by {
                        assert(groups[k] == out@[k]@);
                    }
                    lemmas::lemma_tally_push(sales, column, row@, at as int);
                    lemmas::lemma_filter_prefix(self@, window, i + 1);
                    assert(more.drop_last() =~= sales);
                    self@.take(i as int).lemma_filter_len(window);
                    lemmas::lemma_count_bound(sales, column, key@);
                }
                if at < out.len() && out[at].key == *key {
                    proof {
                        assert(groups[at as int] == out@[at as int]@);
                        assert(groups[at as int] == model::tally_for(sales, column, key@));
                    }
                    let total_cents: i64 = match out[at].total_cents.checked_add(row.amount_cents) {
                        Some(total) => total,
                        None => {
                            proof {
                                assert(all.take(more.len() as int) == more);
                                assert(model::total_for(
                                    all.take(more.len() as int),
                                    column,
                                    key@,
                                ) == out@[at as int].total_cents + row.amount_cents);
                                assert(!model::totals_fit(all, column));
                            }
                            return sum_overflow();
                        },
                    };
                    let count: i64 = out[at].count + 1;
                    out.set(at, Tally { key: key.clone(), total_cents, count });
                } else {
                    out.insert(
                        at,
                        Tally { key: key.clone(), total_cents: row.amount_cents, count: 1 },
                    );
                }
                proof {
                    assert(groups_of(out@) =~= model::tally(more, column));
                    assert(model::totals_fit(more, column)) by {
                        assert forall|n: int, k: Seq<char>| 0 <= n <= more.len() implies i64::MIN
                            <= #[trigger] model::total_for(more.take(n), column, k)
                            <= i64::MAX by {
                            if n < more.len() {
                                assert(more.take(n) =~= sales.take(n));
                            } else {
                                assert(more.take(n) =~= more);
                                assert(sales.take(sales.len() as int) =~= sales);
                                assert(i64::MIN <= model::total_for(
                                    sales.take(sales.len() as int),
                                    column,
                                    k,
                                ) <= i64::MAX);
                                if k == key@ {
                                    assert(groups_of(out@)[at as int] == out@[at as int]@);
                                }
                            }
                        }
                    }
                }
            }
            i = i + 1;
        }
        proof {
            assert(self@.take(i as int) =~= self@);
        }
        Ok(out)
    }

    /// Daily (or any-window) tally: returns `(by_currency, by_method, count)`
    /// over the optional `[since_ms, until_ms]` window (inclusive).
    pub fn daily_tally(&self, since_ms: Option<i64>, until_ms: Option<i64>) -> (r: Result<
        (Vec<Tally>, Vec<Tally>, i64),
        Error,
    >)
        ensures
            ({
                let sales = self@.filter(model::in_window(since_ms, until_ms));
                if model::countable(self@) && model::totals_fit(sales, TallyColumn::Currency)
                    && model::totals_fit(sales, TallyColumn::Method) {
                    &&& r matches Ok((by_currency, by_method, count))
                    &&& groups_of(by_currency@) == model::tally(sales, TallyColumn::Currency)
                    &&& groups_of(by_method@) == model::tally(sales, TallyColumn::Method)
                    &&& count == sales.len()
                } else {
                    sum_overflowed(r)
                }
            }),
    {
        let by_currency: Vec<Tally> = match self.tally_by(
            TallyColumn::Currency,
            since_ms,
            until_ms,
        ) {
            Ok(groups) => groups,
            Err(e) => return Err(e),
        };
        let by_method: Vec<Tally> = match self.tally_by(TallyColumn::Method, since_ms, until_ms) {
            Ok(groups) => groups,
            Err(e) => return Err(e),
        };
        let ghost sales = self@.filter(model::in_window(since_ms, until_ms));
        let ghost groups = groups_of(by_currency@);
        let mut count: i64 = 0;
        let mut i: usize = 0;
        proof {
            self@.lemma_filter_len(model::in_window(since_ms, until_ms));
        }
        while i < by_currency.len()
            invariant
                i <= by_currency.len(),
                sales.len() <= i64::MAX,
                groups == groups_of(by_currency@),
                groups == model::tally(sales, TallyColumn::Currency),
                count == model::grand_count(groups.take(i as int)),
            decreases by_currency.len() - i,
        {
            proof {
                lemmas::lemma_counts_add_up(sales, TallyColumn::Currency, i as int);
                lemmas::lemma_counts_add_up(sales, TallyColumn::Currency, i + 1);
                assert(groups[i as int] == by_currency@[i as int]@);
            }
            count = count + by_currency[i].count;
            i = i + 1;
        }
        proof {
            lemmas::lemma_tally_sums(sales, TallyColumn::Currency);
            assert(groups.take(i as int) =~= groups);
        }
        Ok((by_currency, by_method, count))
    }
}

// --- Square sync outbox ---------------------------------------------------------

/// What a successful push leaves to be written down.
#[derive(Debug)]
pub struct SyncMark {
    /// The row that was pushed.
    pub receipt_id: String,
    /// Square's id for the payment.
    pub square_id: String,
    /// When it was pushed.
    pub synced_at: i64,
}

impl View for SyncMark {
    type V = SyncMarkView;

    open spec fn view(&self) -> SyncMarkView {
        SyncMarkView {
            receipt_id: self.receipt_id@,
            square_id: self.square_id@,
            synced_at: self.synced_at as int,
        }
    }
}

/// Push a single transaction to Square and return its Square payment id.
///
/// No network is touched: the id is derived from the receipt, so that the outbox
/// is exercised to the full.
pub fn push_to_square(_token: &str, tx: &Transaction) -> (r: Result<String, Error>)
    ensures
        r matches Ok(id) && id@ == model::square_id_of(tx.receipt_id@),
{
    let mut id: String = "sq_".to_string();
    id.append(tx.receipt_id.as_str());
    Ok(id)
}

/// The token to sync with, where there is one: an empty token is none.
pub fn usable_token(token: Option<&str>) -> (r: Option<&str>)
    ensures
        r == if token matches Some(t) && t@.len() > 0 {
            token
        } else {
            None
        },
{
    match token {
        Some(t) => if t.is_empty() {
            None
        } else {
            Some(t)
        },
        None => None,
    }
}

impl Store {
    /// The next sale to push to Square: the oldest in the outbox, and none where
    /// the outbox is empty or there is no token to push with. An error where a
    /// sale in the outbox has no receipt id.
    pub fn next_push(&self, token: Option<&str>) -> (r: Result<Option<Transaction>, Error>)
        ensures
            if !model::named(self@, model::is_queued()) {
                null_value(r)
            } else if (token matches Some(t) && t@.len() > 0) && model::queue(self@).len() > 0 {
                r matches Ok(Some(tx)) && tx@ == model::decoded(model::queue(self@)[0])
            } else {
                r matches Ok(None)
            },
    {
        let pending: Vec<Transaction> = match self.queued() {
            Ok(pending) => pending,
            Err(e) => return Err(e),
        };
        proof {
            assert(sales_of(pending@).len() == pending.len());
            assert(model::decoded_rows(model::queue(self@)).len() == model::queue(self@).len());
        }
        match usable_token(token) {
            Some(_) => if pending.len() > 0 {
                proof {
                    assert(sales_of(pending@)[0] == pending@[0]@);
                }
                Ok(Some(pending[0].clone()))
            } else {
                Ok(None)
            },
            None => Ok(None),
        }
    }

    /// Writes `mark` down: the queued row that it names turns synced.
    pub fn mark_synced(&mut self, mark: &SyncMark)
        ensures
            final(self)@ == model::apply_mark(old(self)@, mark@),
    {
        let ghost before = self@;
        let mut i: usize = 0;
        while i < self.rows.len()
            invariant
                i <= self.rows.len(),
                self@.len() == before.len(),
                forall|k: int| 0 <= k < i ==> #[trigger] self@[k] == model::marked_row(before[k], mark@),
                forall|k: int| i <= k < before.len() ==> #[trigger] self@[k] == before[k],
            decreases self.rows.len() - i,
        {
            let ghost was = self@;
            let is_named: bool = match &self.rows[i].receipt_id {
                Some(id) => *id == mark.receipt_id,
                None => false,
            };
            proof {
                assert(was[i as int] == self.rows@[i as int]@);
            }
            if is_named && self.rows[i].synced == 0 {
                self.rows[i].synced = 1;
                self.rows[i].square_id = Some(mark.square_id.clone());
                self.rows[i].synced_at = Some(mark.synced_at);
            }
            proof {
                assert(self@ =~= was.update(i as int, model::marked_row(was[i as int], mark@)));
            }
            i = i + 1;
        }
        proof {
            assert(self@ =~= model::apply_mark(before, mark@));
        }
    }

    /// Takes in Square's reply to the push of the sale `receipt_id`, which came
    /// at the time `now`: a payment id is written down as a mark, which is
    /// returned; with an error the row stays queued for the next pass.
    pub fn settle_push(
        &mut self,
        receipt_id: &str,
        reply: Result<String, Error>,
        now: i64,
    ) -> (r: Result<SyncMark, Error>)
        ensures
            match reply {
                Ok(square_id) => {
                    &&& r matches Ok(mark)
                    &&& mark@ == (SyncMarkView {
                        receipt_id: receipt_id@,
                        square_id: square_id@,
                        synced_at: now as int,
                    })
                    &&& final(self)@ == model::apply_mark(old(self)@, mark@)
                },
                Err(e) => r == Err::<SyncMark, Error>(e) && final(self)@ == old(self)@,
            },
    {
        match reply {
            Ok(square_id) => {
                let mark: SyncMark = SyncMark {
                    receipt_id: receipt_id.to_string(),
                    square_id,
                    synced_at: now,
                };
                self.mark_synced(&mark);
                Ok(mark)
            },
            Err(e) => Err(e),
        }
    }

    /// Push every queued transaction to Square, oldest first, and mark it synced
    /// with the returned Square id.
    ///
    /// **Fail-safe:** without a token (`None`, or an empty one) this does NOT
    /// error. It returns `(0, queued_count)` so the caller can report "offline
    /// mode: N queued, not synced" and keep taking sales.
    ///
    /// Returns `(synced_now, still_queued_after)`. An error, with nothing pushed,
    /// where a sale in the outbox has no receipt id.
    pub fn square_sync(&mut self, token: Option<&str>) -> (r: Result<(usize, usize), Error>)
        ensures
            if !model::named(old(self)@, model::is_queued()) {
                null_value(r) && final(self)@ == old(self)@
            } else {
                r matches Ok((synced_now, still_queued)) && if token matches Some(t) && t@.len()
                    > 0 {
                    &&& synced_now == model::queue(old(self)@).len()
                    &&& still_queued == 0
                    &&& model::fully_pushed(old(self)@, final(self)@)
                    &&& exists|marks: Seq<SyncMarkView>|
                        #[trigger] model::marks_of(model::queue(old(self)@), marks) && final(self)@
                            == model::apply_marks(old(self)@, marks)
                    &&& final(self)@.len() == old(self)@.len()
                    &&& forall|i: int|
                        0 <= i < old(self)@.len() ==> {
                            let was = old(self)@[i];
                            let now = #[trigger] final(self)@[i];
                            if was.synced == 0 {
                                &&& now.synced == 1
                                &&& now.square_id == Some("sq_"@ + was.receipt_id->0)
                                &&& now.synced_at matches Some(t) && clock::is_reading(t)
                                &&& now.receipt_id == was.receipt_id
                                &&& now.amount_cents == was.amount_cents
                                &&& now.currency == was.currency
                                &&& now.item == was.item
                                &&& now.method == was.method
                                &&& now.note == was.note
                                &&& now.created_at == was.created_at
                            } else {
                                now == was
                            }
                        }
                } else {
                    &&& synced_now == 0
                    &&& still_queued == model::queue(old(self)@).len()
                    &&& final(self)@ == old(self)@
                }
            },
    {
        let pending: Vec<Transaction> = match self.queued() {
            Ok(pending) => pending,
            Err(e) => return Err(e),
        };
        proof {
            assert(sales_of(pending@).len() == pending.len());
            assert(model::decoded_rows(model::queue(self@)).len() == model::queue(self@).len());
        }
        let token: &str = match usable_token(token) {
            Some(t) => t,
            // Offline mode: nothing synced, everything stays queued. No error.
            None => return Ok((0, pending.len())),
        };
        let ghost before = self@;
        let ghost queue = model::queue(before);
        let ghost mut marks: Seq<SyncMarkView> = seq![];
        let mut synced_now: usize = 0;
        proof {
            lemma_picked_named(before, model::is_queued());
            assert(queue.take(0) =~= seq![]);
        }
        while synced_now < pending.len()
            invariant
                synced_now <= pending.len(),
                sales_of(pending@) == model::decoded_rows(queue),
                queue == model::queue(before),
                pending.len() == queue.len(),
                all_named(queue),
                model::marks_of(queue.take(synced_now as int), marks),
                self@ == model::apply_marks(before, marks),
                self@.len() == before.len(),
                forall|i: int| #![trigger self@[i]]
                    0 <= i < before.len() ==> self@[i] == before[i] || pushed_now(
                        before[i],
                        self@[i],
                    ),
                forall|i: int, k: int| #![trigger self@[i], queue[k]]
                    0 <= i < before.len() && 0 <= k < synced_now && queue[k].receipt_id
                        == before[i].receipt_id ==> self@[i].synced != 0,
            decreases pending.len() - synced_now,
        {
            let ghost was = self@;
            let tx: &Transaction = &pending[synced_now];
            let reply: Result<String, Error> = push_to_square(token, tx);
            let now: i64 = now_millis();
            proof {
                assert(sales_of(pending@)[synced_now as int] == tx@);
                assert(model::decoded_rows(queue)[synced_now as int] == model::decoded(
                    queue[synced_now as int],
                ));
                assert(queue[synced_now as int].receipt_id == Some(tx.receipt_id@));
            }
            match self.settle_push(tx.receipt_id.as_str(), reply, now) {
                Ok(mark) => {
                    proof {
                        let next = marks.push(mark@);
                        assert(next.drop_last() =~= marks);
                        let pushed = queue.take(synced_now + 1);
                        assert forall|k: int| 0 <= k < pushed.len() implies {
                            &&& pushed[k].receipt_id == Some((#[trigger] next[k]).receipt_id)
                            &&& next[k].square_id == model::square_id_of(next[k].receipt_id)
                            &&& clock::is_reading(next[k].synced_at)
                        } by {
                            if k < synced_now {
                                assert(next[k] == marks[k]);
                                assert(queue.take(synced_now as int)[k] == pushed[k]);
                            }
                        }
                        marks = next;
                    }
                },
                Err(e) => return Err(e),
            }
            proof {
                assert forall|i: int| #![trigger self@[i]] 0 <= i < before.len() implies self@[i]
                    == before[i] || pushed_now(before[i], self@[i]) by {
                    assert(was[i] == before[i] || pushed_now(before[i], was[i]));
                }
                assert forall|i: int, k: int| #![trigger self@[i], queue[k]]
                    0 <= i < before.len() && 0 <= k < synced_now + 1 && queue[k].receipt_id
                        == before[i].receipt_id implies self@[i].synced != 0 by {
                    assert(was[i] == before[i] || pushed_now(before[i], was[i]));
                }
            }
            synced_now = synced_now + 1;
        }
        proof {
            assert(queue.take(synced_now as int) =~= queue);
            assert forall|i: int| 0 <= i < before.len() implies model::pushed_row(
                before[i],
                #[trigger] self@[i],
            ) && self@[i].synced != 0 by {
                if before[i].synced == 0 {
                    lemmas::lemma_queue_contains(before, before[i]);
                    let k = choose|k: int| 0 <= k < queue.len() && queue[k] == before[i];
                    assert(queue[k].receipt_id == before[i].receipt_id);
                }
            }
            lemmas::lemma_filter_none(self@, model::is_queued());
        }
        let still_queued: usize = match self.queued() {
            Ok(left) => {
                proof {
                    assert(sales_of(left@).len() == left.len());
                    assert(model::decoded_rows(model::queue(self@)).len() == 0);
                }
                left.len()
            },
            Err(e) => return Err(e),
        };
        Ok((synced_now, still_queued))
    }

    /// Outbox counts: total rows, synced (the sum of the flags), queued
    /// (unsynced), and the most recent `synced_at` timestamp (`None` if nothing
    /// has ever synced). An error where a sum does not fit in an `i64`.
    pub fn sync_status(&self) -> (r: Result<(i64, i64, i64, Option<i64>), Error>)
        ensures
            if model::countable(self@) && model::flags_fit(self@) {
                &&& r matches Ok((total, synced, queued, last))
                &&& total == self@.len()
                &&& synced == model::flag_total(self@)
                &&& queued == self@.filter(model::is_queued()).len()
                &&& opt_int(last) == model::last_synced_at(self@)
            } else {
                sum_overflowed(r)
            },
            model::countable(self@) && model::flags_valid(self@) ==> {
                &&& r matches Ok((total, synced, queued, last))
                &&& synced == self@.filter(model::is_synced()).len()
            },
    {
        if self.is_uncountable() {
            return sum_overflow();
        }
        let mut synced: i64 = 0;
        let mut queued: i64 = 0;
        let mut last: Option<i64> = None;
        let mut i: usize = 0;
        proof {
            reveal(Seq::filter);
        }
        while i < self.rows.len()
            invariant
                i <= self.rows.len() <= i64::MAX,
                0 <= queued <= i,
                synced == model::flag_total(self@.take(i as int)),
                forall|n: int|
                    0 <= n <= i ==> i64::MIN <= #[trigger] model::flag_total(self@.take(n))
                        <= i64::MAX,
                queued == self@.take(i as int).filter(model::is_queued()).len(),
                opt_int(last) == model::last_synced_at(self@.take(i as int)),
            decreases self.rows.len() - i,
        {
            proof {
                reveal(Seq::filter);
                assert(self@.take(i + 1).drop_last() =~= self@.take(i as int));
            }
            synced = match synced.checked_add(self.rows[i].synced) {
                Some(sum) => sum,
                None => {
                    proof {
                        assert(model::flag_total(self@.take(i + 1)) == synced
                            + self.rows@[i as int].synced);
                        assert(!(i64::MIN <= model::flag_total(self@.take(i + 1)) <= i64::MAX));
                        if model::flags_valid(self@) {
                            lemmas::lemma_flags_add_up(self@);
                        }
                    }
                    return sum_overflow();
                },
            };
            if self.rows[i].synced == 0 {
                queued = queued + 1;
            }
            match (last, self.rows[i].synced_at) {
                (Some(a), Some(b)) => if a < b {
                    last = Some(b);
                },
                (None, at) => {
                    last = at;
                },
                (Some(_), None) => {},
            }
            i = i + 1;
        }
        proof {
            assert(self@.take(i as int) =~= self@);
            if model::flags_valid(self@) {
                lemmas::lemma_flags_add_up(self@);
            }
        }
        Ok((self.rows.len() as i64, synced, queued, last))
    }
}

/// `now` is the row `was` after a push in this pass.
spec fn pushed_now(was: RowView, now: RowView) -> bool {
    was.synced == 0 && now.synced != 0 && model::pushed_row(was, now)
}

} // verus!
