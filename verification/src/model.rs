//! What the ledger is, in mathematics: a sequence of rows in the order in which
//! they were written, and what is read off such a sequence.

use vstd::prelude::*;

use crate::clock;
use crate::store::TallyColumn;
use crate::text;

verus! {

/// A sale.
#[verifier::ext_equal]
pub struct TransactionView {
    pub receipt_id: Seq<char>,
    pub amount_cents: int,
    pub currency: Seq<char>,
    pub item: Seq<char>,
    pub method: Seq<char>,
    pub note: Option<Seq<char>>,
    pub synced: bool,
    pub square_id: Option<Seq<char>>,
    pub created_at: int,
    pub synced_at: Option<int>,
}

/// A row of the ledger: the columns of the table, `None` where one is NULL.
#[verifier::ext_equal]
pub struct RowView {
    pub receipt_id: Option<Seq<char>>,
    pub amount_cents: int,
    pub currency: Seq<char>,
    pub item: Seq<char>,
    pub method: Seq<char>,
    pub note: Option<Seq<char>>,
    pub synced: int,
    pub square_id: Option<Seq<char>>,
    pub created_at: int,
    pub synced_at: Option<int>,
}

// --- reading --------------------------------------------------------------------

/// The sale that a row with a receipt id stands for: it is synced where the flag
/// is not 0.
pub open spec fn decoded(row: RowView) -> TransactionView
    recommends
        row.receipt_id is Some,
{
    TransactionView {
        receipt_id: row.receipt_id->0,
        amount_cents: row.amount_cents,
        currency: row.currency,
        item: row.item,
        method: row.method,
        note: row.note,
        synced: row.synced != 0,
        square_id: row.square_id,
        created_at: row.created_at,
        synced_at: row.synced_at,
    }
}

/// The row that a sale is written down as.
pub open spec fn encoded(tx: TransactionView) -> RowView {
    RowView {
        receipt_id: Some(tx.receipt_id),
        amount_cents: tx.amount_cents,
        currency: tx.currency,
        item: tx.item,
        method: tx.method,
        note: tx.note,
        synced: if tx.synced {
            1
        } else {
            0
        },
        square_id: tx.square_id,
        created_at: tx.created_at,
        synced_at: tx.synced_at,
    }
}

/// The sales that rows with receipt ids stand for.
pub open spec fn decoded_rows(rows: Seq<RowView>) -> Seq<TransactionView> {
    rows.map_values(|row: RowView| decoded(row))
}

/// Every row that is picked has a receipt id.
pub open spec fn named(rows: Seq<RowView>, picked: spec_fn(RowView) -> bool) -> bool {
    forall|i: int|
        0 <= i < rows.len() && picked(#[trigger] rows[i]) ==> rows[i].receipt_id is Some
}

// --- recording ------------------------------------------------------------------

/// Why a sale is refused, or `None` where it is in order.
pub open spec fn sale_refusal(amount_cents: int, item: Seq<char>, method: Seq<char>) -> Option<
    Seq<char>,
> {
    if amount_cents <= 0 {
        Some("amount_cents must be positive"@)
    } else if text::is_blank(item) {
        Some("item cannot be empty"@)
    } else if text::is_blank(method) {
        Some("method cannot be empty"@)
    } else {
        None
    }
}

/// The currency that a sale is recorded in: US dollars where none is named, and
/// otherwise the code without surrounding white space in upper case.
pub open spec fn recorded_currency(currency: Seq<char>) -> Seq<char> {
    if text::is_blank(currency) {
        "USD"@
    } else {
        text::uppercase(text::trimmed(currency))
    }
}

/// A new sale in a recorded currency: queued, and not yet known to
/// Square.
pub open spec fn queued_sale(
    receipt_id: Seq<char>,
    now: int,
    amount_cents: int,
    currency: Seq<char>,
    item: Seq<char>,
    method: Seq<char>,
    note: Option<Seq<char>>,
) -> TransactionView {
    TransactionView {
        receipt_id,
        amount_cents,
        currency,
        item,
        method,
        note,
        synced: false,
        square_id: None,
        created_at: now,
        synced_at: None,
    }
}

/// A new sale in the currency that was asked for.
pub open spec fn recorded_sale(
    receipt_id: Seq<char>,
    now: int,
    amount_cents: int,
    currency: Seq<char>,
    item: Seq<char>,
    method: Seq<char>,
    note: Option<Seq<char>>,
) -> TransactionView {
    queued_sale(
        receipt_id,
        now,
        amount_cents,
        recorded_currency(currency),
        item,
        method,
        note,
    )
}

/// Some row carries this receipt id.
pub open spec fn has_receipt(rows: Seq<RowView>, receipt_id: Seq<char>) -> bool {
    exists|i: int| 0 <= i < rows.len() && (#[trigger] rows[i]).receipt_id == Some(
        receipt_id,
    )
}

/// The first row that carries this receipt id.
pub open spec fn find_receipt(rows: Seq<RowView>, receipt_id: Seq<char>) -> Option<
    RowView,
>
    decreases rows.len(),
{
    if rows.len() == 0 {
        None
    } else if rows.first().receipt_id == Some(receipt_id) {
        Some(rows.first())
    } else {
        find_receipt(rows.drop_first(), receipt_id)
    }
}

/// The sale that is found under this receipt id.
pub open spec fn lookup(rows: Seq<RowView>, receipt_id: Seq<char>) -> Option<TransactionView> {
    match find_receipt(rows, receipt_id) {
        Some(row) => Some(decoded(row)),
        None => None,
    }
}

/// Two rows do not carry the same receipt id.
pub open spec fn apart(a: RowView, b: RowView) -> bool {
    a.receipt_id is Some ==> a.receipt_id != b.receipt_id
}

/// No two rows carry the same receipt id; rows without one may be many.
pub open spec fn receipts_unique(rows: Seq<RowView>) -> bool {
    forall|i: int, j: int|
        0 <= i < j < rows.len() ==> apart(#[trigger] rows[i], #[trigger] rows[j])
}

// --- order ----------------------------------------------------------------------

/// `sorted` with `row` put behind every row that is not younger.
pub open spec fn insert_by_age(sorted: Seq<RowView>, row: RowView) -> Seq<
    RowView,
>
    decreases sorted.len(),
{
    if sorted.len() == 0 || sorted.last().created_at <= row.created_at {
        sorted.push(row)
    } else {
        insert_by_age(sorted.drop_last(), row).push(sorted.last())
    }
}

/// The rows by age, the oldest first; rows of one age stay in the order in
/// which they were written.
pub open spec fn oldest_first(rows: Seq<RowView>) -> Seq<RowView>
    decreases rows.len(),
{
    if rows.len() == 0 {
        rows
    } else {
        insert_by_age(oldest_first(rows.drop_last()), rows.last())
    }
}

/// The receipt ids of rows that have one.
pub open spec fn receipts(rows: Seq<RowView>) -> Seq<Seq<char>> {
    rows.map_values(|row: RowView| row.receipt_id->0)
}

// --- the outbox -----------------------------------------------------------------

/// Not yet pushed to Square.
pub open spec fn is_queued() -> spec_fn(RowView) -> bool {
    |row: RowView| row.synced == 0
}

/// No longer queued.
pub open spec fn is_synced() -> spec_fn(RowView) -> bool {
    |row: RowView| row.synced != 0
}

/// The outbox: the rows not yet pushed to Square, the oldest first.
pub open spec fn queue(rows: Seq<RowView>) -> Seq<RowView> {
    oldest_first(rows.filter(is_queued()))
}

/// What a successful push leaves to be written down.
#[verifier::ext_equal]
pub struct SyncMarkView {
    pub receipt_id: Seq<char>,
    pub square_id: Seq<char>,
    pub synced_at: int,
}

/// A row after `mark` was written down: where it is the queued row that the mark
/// names it turns synced, and otherwise nothing of it changes.
pub open spec fn marked_row(row: RowView, mark: SyncMarkView) -> RowView {
    if row.receipt_id == Some(mark.receipt_id) && row.synced == 0 {
        RowView {
            synced: 1,
            square_id: Some(mark.square_id),
            synced_at: Some(mark.synced_at),
            ..row
        }
    } else {
        row
    }
}

/// The ledger after `mark` was written down.
pub open spec fn apply_mark(rows: Seq<RowView>, mark: SyncMarkView) -> Seq<
    RowView,
> {
    rows.map_values(|row: RowView| marked_row(row, mark))
}

/// The id that Square gives to the payment of a sale.
pub open spec fn square_id_of(receipt_id: Seq<char>) -> Seq<char> {
    "sq_"@ + receipt_id
}

/// The ledger after one push after the other was written down.
pub open spec fn apply_marks(rows: Seq<RowView>, marks: Seq<SyncMarkView>) -> Seq<
    RowView,
>
    decreases marks.len(),
{
    if marks.len() == 0 {
        rows
    } else {
        apply_mark(apply_marks(rows, marks.drop_last()), marks.last())
    }
}

/// The pushes of the sales in `pushed`, one after the other, each at a time that
/// the clock gave.
pub open spec fn marks_of(pushed: Seq<RowView>, marks: Seq<SyncMarkView>) -> bool {
    &&& marks.len() == pushed.len()
    &&& forall|k: int|
        0 <= k < pushed.len() ==> {
            &&& pushed[k].receipt_id == Some((#[trigger] marks[k]).receipt_id)
            &&& marks[k].square_id == square_id_of(marks[k].receipt_id)
            &&& clock::is_reading(marks[k].synced_at)
        }
}

/// `now` is what became of the row `was` in a complete pass over the outbox: one
/// that was queued carries a time that the clock gave.
pub open spec fn pushed_row(was: RowView, now: RowView) -> bool {
    if was.synced != 0 {
        now == was
    } else {
        &&& now.synced_at matches Some(at) && clock::is_reading(at)
        &&& now == (RowView {
            synced: 1,
            square_id: Some(square_id_of(was.receipt_id->0)),
            synced_at: now.synced_at,
            ..was
        })
    }
}

/// `after` is what became of the ledger `before` in a complete pass over the
/// outbox: every queued row was pushed, and nothing else changed.
pub open spec fn fully_pushed(before: Seq<RowView>, after: Seq<RowView>) -> bool {
    &&& after.len() == before.len()
    &&& forall|i: int| 0 <= i < before.len() ==> pushed_row(before[i], #[trigger] after[i])
}

/// The later of two times, where there are any.
pub open spec fn later(a: Option<int>, b: Option<int>) -> Option<int> {
    match (a, b) {
        (Some(x), Some(y)) => if x < y { b } else { a },
        (None, _) => b,
        (_, None) => a,
    }
}

/// When a row was last pushed, or `None` where none ever was.
pub open spec fn last_synced_at(rows: Seq<RowView>) -> Option<int>
    decreases rows.len(),
{
    if rows.len() == 0 {
        None
    } else {
        later(last_synced_at(rows.drop_last()), rows.last().synced_at)
    }
}

/// The sum of the flags of the rows.
pub open spec fn flag_total(rows: Seq<RowView>) -> int
    decreases rows.len(),
{
    if rows.len() == 0 {
        0
    } else {
        flag_total(rows.drop_last()) + rows.last().synced
    }
}

/// The sum of the flags stays within an `i64` as they are added up one by one.
pub open spec fn flags_fit(rows: Seq<RowView>) -> bool {
    forall|n: int|
        0 <= n <= rows.len() ==> i64::MIN <= #[trigger] flag_total(rows.take(n)) <= i64::MAX
}

/// Every row is either queued or pushed: its flag is 0 or 1.
pub open spec fn flags_valid(rows: Seq<RowView>) -> bool {
    forall|i: int| 0 <= i < rows.len() ==> 0 <= (#[trigger] rows[i]).synced <= 1
}

// --- tallies --------------------------------------------------------------------

/// A summed-up group of sales.
#[verifier::ext_equal]
pub struct TallyView {
    pub key: Seq<char>,
    pub total_cents: int,
    pub count: int,
}

/// What `column` holds in a row.
pub open spec fn key_of(column: TallyColumn, row: RowView) -> Seq<char> {
    match column {
        TallyColumn::Currency => row.currency,
        TallyColumn::Method => row.method,
    }
}

/// Made in the window, both ends included; an end that is not given is open.
pub open spec fn in_window(since_ms: Option<i64>, until_ms: Option<i64>) -> spec_fn(
    RowView,
) -> bool {
    |row: RowView|
        (since_ms matches Some(s) ==> s <= row.created_at) && (until_ms matches Some(u)
            ==> row.created_at <= u)
}

/// The sum of the amounts of the rows that hold `key` in `column`.
pub open spec fn total_for(rows: Seq<RowView>, column: TallyColumn, key: Seq<char>) -> int
    decreases rows.len(),
{
    if rows.len() == 0 {
        0
    } else {
        total_for(rows.drop_last(), column, key) + if key_of(column, rows.last()) == key {
            rows.last().amount_cents
        } else {
            0
        }
    }
}

/// The number of rows that hold `key` in `column`.
pub open spec fn count_for(rows: Seq<RowView>, column: TallyColumn, key: Seq<char>) -> int
    decreases rows.len(),
{
    if rows.len() == 0 {
        0
    } else {
        count_for(rows.drop_last(), column, key) + if key_of(column, rows.last()) == key {
            1int
        } else {
            0
        }
    }
}

/// `keys`, which ascend, with `key` in its place; once, where it was there.
pub open spec fn insert_key(keys: Seq<Seq<char>>, key: Seq<char>) -> Seq<Seq<char>>
    decreases keys.len(),
{
    if keys.len() == 0 || text::precedes(keys.last(), key) {
        keys.push(key)
    } else if keys.last() == key {
        keys
    } else {
        insert_key(keys.drop_last(), key).push(keys.last())
    }
}

/// What `column` holds in the rows: each key once, in ascending order.
pub open spec fn group_keys(rows: Seq<RowView>, column: TallyColumn) -> Seq<Seq<char>>
    decreases rows.len(),
{
    if rows.len() == 0 {
        seq![]
    } else {
        insert_key(group_keys(rows.drop_last(), column), key_of(column, rows.last()))
    }
}

/// The group of `key` among the rows.
pub open spec fn tally_for(
    rows: Seq<RowView>,
    column: TallyColumn,
    key: Seq<char>,
) -> TallyView {
    TallyView {
        key,
        total_cents: total_for(rows, column, key),
        count: count_for(rows, column, key),
    }
}

/// The rows summed up by what `column` holds in them, in ascending order of it.
pub open spec fn tally(rows: Seq<RowView>, column: TallyColumn) -> Seq<TallyView> {
    group_keys(rows, column).map_values(|key: Seq<char>| tally_for(rows, column, key))
}

/// The sum of a group stays within an `i64` as its rows are added up one by one.
pub open spec fn totals_fit(rows: Seq<RowView>, column: TallyColumn) -> bool {
    forall|n: int, key: Seq<char>|
        0 <= n <= rows.len() ==> i64::MIN <= #[trigger] total_for(rows.take(n), column, key)
            <= i64::MAX
}

/// There are no more rows than an `i64` can count.
pub open spec fn countable(rows: Seq<RowView>) -> bool {
    rows.len() <= i64::MAX
}

/// The sum of the amounts of the rows.
pub open spec fn takings(rows: Seq<RowView>) -> int
    decreases rows.len(),
{
    if rows.len() == 0 {
        0
    } else {
        takings(rows.drop_last()) + rows.last().amount_cents
    }
}

/// The sum of the totals of the groups.
pub open spec fn grand_total(groups: Seq<TallyView>) -> int
    decreases groups.len(),
{
    if groups.len() == 0 {
        0
    } else {
        grand_total(groups.drop_last()) + groups.last().total_cents
    }
}

/// The sum of the counts of the groups.
pub open spec fn grand_count(groups: Seq<TallyView>) -> int
    decreases groups.len(),
{
    if groups.len() == 0 {
        0
    } else {
        grand_count(groups.drop_last()) + groups.last().count
    }
}

// --- reconciling ----------------------------------------------------------------

/// Still queued, and older than the threshold; a negative threshold counts as 0.
pub open spec fn is_stuck(now: int, threshold_ms: int) -> spec_fn(RowView) -> bool {
    |row: RowView|
        row.synced == 0 && row.created_at < now - if threshold_ms > 0 {
            threshold_ms
        } else {
            0
        }
}

/// Synced, but without an id of Square's.
pub open spec fn is_unlinked() -> spec_fn(RowView) -> bool {
    |row: RowView|
        row.synced == 1 && match row.square_id {
            Some(id) => id.len() == 0,
            None => true,
        }
}

/// The anomalies of a ledger.
#[verifier::ext_equal]
pub struct ReconcileReportView {
    pub stuck_unsynced: Seq<Seq<char>>,
    pub synced_without_square_id: Seq<Seq<char>>,
    pub threshold_ms: int,
    pub checked_at: int,
}

/// The anomalies of a ledger at the time `now`, each kind oldest first, where the
/// rows have receipt ids to be reported under.
pub open spec fn reconcile_report(
    rows: Seq<RowView>,
    now: int,
    threshold_ms: int,
) -> ReconcileReportView {
    ReconcileReportView {
        stuck_unsynced: receipts(oldest_first(rows.filter(is_stuck(now, threshold_ms)))),
        synced_without_square_id: receipts(oldest_first(rows.filter(is_unlinked()))),
        threshold_ms,
        checked_at: now,
    }
}

} // verus!
