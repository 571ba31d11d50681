//! What the operations give, spelled out over the columns of the rows and the
//! characters of the texts.

use vstd::prelude::*;

use crate::clock;
use crate::config;
use crate::error::Error;
use crate::laws;
use crate::lemmas;
use crate::model;
use crate::model::{RowView, SyncMarkView, TallyView, TransactionView};
use crate::store;
use crate::store::{ReconcileReport, Row, SyncMark, Tally, TallyColumn, Transaction};
use crate::text;

verus! {

// --- views ----------------------------------------------------------------------

/// The text in an optional string.
pub open spec fn text_in(s: Option<String>) -> Option<Seq<char>> {
    if s is Some {
        Some(s->0@)
    } else {
        None
    }
}

/// The view of a transaction is its fields.
pub proof fn law_transaction_is_its_fields(tx: Transaction)
    ensures
        tx@.receipt_id == tx.receipt_id@,
        tx@.amount_cents == tx.amount_cents,
        tx@.currency == tx.currency@,
        tx@.item == tx.item@,
        tx@.method == tx.method@,
        tx@.note == text_in(tx.note),
        tx@.synced == tx.synced,
        tx@.square_id == text_in(tx.square_id),
        tx@.created_at == tx.created_at,
        tx.synced_at is None ==> tx@.synced_at is None,
        tx.synced_at matches Some(t) ==> tx@.synced_at == Some(t as int),
{
}

/// The view of a row is its columns.
pub proof fn law_row_is_its_columns(row: Row)
    ensures
        row@.receipt_id == text_in(row.receipt_id),
        row@.amount_cents == row.amount_cents,
        row@.currency == row.currency@,
        row@.item == row.item@,
        row@.method == row.method@,
        row@.note == text_in(row.note),
        row@.synced == row.synced,
        row@.square_id == text_in(row.square_id),
        row@.created_at == row.created_at,
        row.synced_at is None ==> row@.synced_at is None,
        row.synced_at matches Some(t) ==> row@.synced_at == Some(t as int),
{
}

/// The views of a tally, a report and a mark are their fields.
pub proof fn law_results_are_their_fields(t: Tally, report: ReconcileReport, mark: SyncMark)
    ensures
        t@.key == t.key@,
        t@.total_cents == t.total_cents,
        t@.count == t.count,
        report@.stuck_unsynced.len() == report.stuck_unsynced@.len(),
        forall|i: int|
            0 <= i < report.stuck_unsynced@.len() ==> (#[trigger] report@.stuck_unsynced[i])
                == report.stuck_unsynced@[i]@,
        report@.synced_without_square_id.len() == report.synced_without_square_id@.len(),
        forall|i: int|
            0 <= i < report.synced_without_square_id@.len() ==> (
            #[trigger] report@.synced_without_square_id[i])
                == report.synced_without_square_id@[i]@,
        report@.threshold_ms == report.threshold_ms,
        report@.checked_at == report.checked_at,
        mark@.receipt_id == mark.receipt_id@,
        mark@.square_id == mark.square_id@,
        mark@.synced_at == mark.synced_at,
{
}

/// The views of several values are the views of each, in their places.
pub proof fn law_sequences_are_their_elements(
    rows: Seq<Row>,
    transactions: Seq<Transaction>,
    tallies: Seq<Tally>,
    strings: Seq<String>,
)
    ensures
        store::rows_of(rows).len() == rows.len(),
        forall|i: int| 0 <= i < rows.len() ==> #[trigger] store::rows_of(rows)[i] == rows[i]@,
        store::sales_of(transactions).len() == transactions.len(),
        forall|i: int|
            0 <= i < transactions.len() ==> #[trigger] store::sales_of(transactions)[i]
                == transactions[i]@,
        store::groups_of(tallies).len() == tallies.len(),
        forall|i: int|
            0 <= i < tallies.len() ==> #[trigger] store::groups_of(tallies)[i] == tallies[i]@,
        text::texts(strings).len() == strings.len(),
        forall|i: int| 0 <= i < strings.len() ==> #[trigger] text::texts(strings)[i] == strings[i]@,
{
}

/// An optional value is there in its view if and only if it is there.
pub proof fn law_options_are_kept(
    s: Option<String>,
    slice: Option<&str>,
    n: Option<i64>,
    tx: Option<Transaction>,
)
    ensures
        s is None <==> text::opt_text(s) is None,
        s matches Some(v) ==> text::opt_text(s) == Some(v@),
        slice is None <==> text::opt_str(slice) is None,
        slice matches Some(v) ==> text::opt_str(slice) == Some(v@),
        n is None <==> store::opt_int(n) is None,
        n matches Some(v) ==> store::opt_int(n) == Some(v as int),
        tx is None <==> store::opt_sale(tx) is None,
        tx matches Some(v) ==> store::opt_sale(tx) == Some(v@),
{
}

/// Each refusal is an error of its kind, with its own text, and no other.
pub proof fn law_refusals_have_their_texts<T>(r: Result<T, Error>, why: Seq<char>)
    ensures
        store::refused(r, why) <==> (r matches Err(Error::Invalid(text)) && text@ == why),
        store::null_value(r) <==> (r matches Err(Error::Db(text)) && text@ == "Null value"@),
        store::receipt_taken(r) <==> (r matches Err(Error::Db(text)) && text@
            == "SQLite failure: `UNIQUE constraint failed: transactions.receipt_id`"@),
        store::sum_overflowed(r) <==> (r matches Err(Error::Db(text)) && text@
            == "SQLite failure: `integer overflow`"@),
{
}

// --- reading and writing rows ---------------------------------------------------

/// A sale is read column by column; it is synced unless the flag is 0.
pub proof fn law_row_is_read_column_by_column(row: RowView)
    requires
        row.receipt_id is Some,
    ensures
        ({
            let tx = model::decoded(row);
            &&& Some(tx.receipt_id) == row.receipt_id
            &&& tx.amount_cents == row.amount_cents
            &&& tx.currency == row.currency
            &&& tx.item == row.item
            &&& tx.method == row.method
            &&& tx.note == row.note
            &&& (tx.synced <==> row.synced != 0)
            &&& tx.square_id == row.square_id
            &&& tx.created_at == row.created_at
            &&& tx.synced_at == row.synced_at
        }),
{
}

/// A sale is written column by column, with the flag 1 where it is synced and 0
/// where it is not.
pub proof fn law_sale_is_written_column_by_column(tx: TransactionView)
    ensures
        ({
            let row = model::encoded(tx);
            &&& row.receipt_id == Some(tx.receipt_id)
            &&& row.amount_cents == tx.amount_cents
            &&& row.currency == tx.currency
            &&& row.item == tx.item
            &&& row.method == tx.method
            &&& row.note == tx.note
            &&& (tx.synced ==> row.synced == 1)
            &&& (!tx.synced ==> row.synced == 0)
            &&& row.square_id == tx.square_id
            &&& row.created_at == tx.created_at
            &&& row.synced_at == tx.synced_at
        }),
{
}

/// Reading several rows reads each of them.
pub proof fn law_rows_are_read_one_by_one(rows: Seq<RowView>)
    ensures
        model::decoded_rows(rows).len() == rows.len(),
        forall|i: int|
            0 <= i < rows.len() ==> #[trigger] model::decoded_rows(rows)[i] == model::decoded(
                rows[i],
            ),
{
}

/// Rows can be read where each one that is picked has a receipt id.
pub proof fn law_named_rows_have_receipts(rows: Seq<RowView>, picked: spec_fn(RowView) -> bool)
    ensures
        model::named(rows, picked) <==> forall|i: int|
            0 <= i < rows.len() && picked(#[trigger] rows[i]) ==> rows[i].receipt_id is Some,
{
}

// --- recording ------------------------------------------------------------------

/// A sale is refused for its amount unless that is positive, else for its item
/// where that is blank, else for its method where that is blank, and else not.
pub proof fn law_sale_is_refused_for_a_reason(
    amount_cents: int,
    item: Seq<char>,
    method: Seq<char>,
)
    ensures
        amount_cents <= 0 ==> model::sale_refusal(amount_cents, item, method) == Some(
            "amount_cents must be positive"@,
        ),
        amount_cents > 0 && text::is_blank(item) ==> model::sale_refusal(amount_cents, item, method)
            == Some("item cannot be empty"@),
        amount_cents > 0 && !text::is_blank(item) && text::is_blank(method) ==> model::sale_refusal(
            amount_cents,
            item,
            method,
        ) == Some("method cannot be empty"@),
        model::sale_refusal(amount_cents, item, method) is None <==> amount_cents > 0 && !text::is_blank(
            item,
        ) && !text::is_blank(method),
{
}

/// What is recorded is what was asked for.
pub proof fn law_sale_is_recorded_as_asked(
    rows: Seq<RowView>,
    receipt_id: Seq<char>,
    now: int,
    amount_cents: int,
    currency: Seq<char>,
    item: Seq<char>,
    method: Seq<char>,
    note: Option<Seq<char>>,
)
    ensures
        ({
            let tx = model::recorded_sale(
                receipt_id,
                now,
                amount_cents,
                currency,
                item,
                method,
                note,
            );
            &&& tx.receipt_id == receipt_id
            &&& tx.amount_cents == amount_cents
            &&& tx.currency == model::recorded_currency(currency)
            &&& tx.item == item
            &&& tx.method == method
            &&& tx.note == note
            &&& !tx.synced
            &&& tx.square_id is None
            &&& tx.created_at == now
            &&& tx.synced_at is None
            &&& model::takings(rows.push(model::encoded(tx))) == model::takings(rows) + amount_cents
        }),
        ({
            let tx = model::queued_sale(
                receipt_id,
                now,
                amount_cents,
                currency,
                item,
                method,
                note,
            );
            &&& tx.receipt_id == receipt_id
            &&& tx.amount_cents == amount_cents
            &&& tx.currency == currency
            &&& tx.item == item
            &&& tx.method == method
            &&& tx.note == note
            &&& !tx.synced
            &&& tx.square_id is None
            &&& tx.created_at == now
            &&& tx.synced_at is None
        }),
{
    let tx = model::recorded_sale(receipt_id, now, amount_cents, currency, item, method, note);
    assert(rows.push(model::encoded(tx)).drop_last() =~= rows);
}

/// The takings are the sum of the amounts, whatever the ledger was put together
/// from.
pub proof fn law_takings_add_up(a: Seq<RowView>, b: Seq<RowView>, row: RowView)
    ensures
        model::takings(seq![]) == 0,
        model::takings(seq![row]) == row.amount_cents,
        model::takings(a + b) == model::takings(a) + model::takings(b),
    decreases b.len(),
{
    assert(seq![row].drop_last() =~= seq![]);
    if b.len() == 0 {
        assert(a + b =~= a);
    } else {
        law_takings_add_up(a, b.drop_last(), row);
        assert((a + b).drop_last() =~= a + b.drop_last());
    }
}

/// The currency is US dollars where none is named, and else it has nothing of the
/// white space around it and, where it is ASCII, none of its small letters.
pub proof fn law_currency_is_recorded(currency: Seq<char>)
    ensures
        text::is_blank(currency) ==> model::recorded_currency(currency) == "USD"@,
        !text::is_blank(currency) ==> model::recorded_currency(currency) == text::uppercase(
            text::trimmed(currency),
        ),
{
}

/// White space around a currency makes no difference.
pub proof fn law_white_space_around_a_currency_is_ignored(
    before: Seq<char>,
    currency: Seq<char>,
    after: Seq<char>,
)
    requires
        text::is_blank(before),
        text::is_blank(after),
    ensures
        model::recorded_currency(before + currency + after) == model::recorded_currency(currency),
{
    let all = before + currency + after;
    if text::is_blank(currency) {
        assert forall|i: int| 0 <= i < all.len() implies text::is_whitespace(#[trigger] all[i]) by {
            if i < before.len() {
                assert(all[i] == before[i]);
            } else if i < before.len() + currency.len() {
                assert(all[i] == currency[i - before.len()]);
            } else {
                assert(all[i] == after[i - before.len() - currency.len()]);
            }
        }
    } else {
        let i = choose|i: int| 0 <= i < currency.len() && !text::is_whitespace(currency[i]);
        assert(all[before.len() + i] == currency[i]);
        let (pre, post) = law_trimmed_is_what_is_between(currency);
        let core = text::trimmed(currency);
        assert(core.len() > 0) by {
            text::lemma_trimmed_blank(currency);
        }
        law_blank_is_decided_by_each_character(before, pre, 'x');
        law_blank_is_decided_by_each_character(post, after, 'x');
        assert(all =~= (before + pre) + core + (post + after));
        lemma_trimmed_is_unique(before + pre, core, post + after);
    }
}

proof fn lemma_trimmed_is_unique(before: Seq<char>, core: Seq<char>, after: Seq<char>)
    requires
        text::is_blank(before),
        text::is_blank(after),
        core.len() > 0,
        !text::is_whitespace(core.first()),
        !text::is_whitespace(core.last()),
    ensures
        text::trimmed(before + core + after) == core,
{
    lemma_start_is_cut(before, core + after);
    assert(before + core + after =~= before + (core + after));
    lemma_end_is_cut(core, after);
}

proof fn lemma_start_is_cut(before: Seq<char>, rest: Seq<char>)
    requires
        text::is_blank(before),
        rest.len() > 0,
        !text::is_whitespace(rest.first()),
    ensures
        text::trimmed_start(before + rest) == rest,
    decreases before.len(),
{
    if before.len() == 0 {
        assert(before + rest =~= rest);
    } else {
        assert(text::is_whitespace(before[0]));
        assert((before + rest).drop_first() =~= before.drop_first() + rest);
        assert forall|i: int| 0 <= i < before.drop_first().len() implies text::is_whitespace(
            #[trigger] before.drop_first()[i],
        ) by {
            assert(before.drop_first()[i] == before[i + 1]);
        }
        lemma_start_is_cut(before.drop_first(), rest);
    }
}

proof fn lemma_end_is_cut(rest: Seq<char>, after: Seq<char>)
    requires
        text::is_blank(after),
        rest.len() > 0,
        !text::is_whitespace(rest.last()),
    ensures
        text::trimmed_end(rest + after) == rest,
    decreases after.len(),
{
    if after.len() == 0 {
        assert(rest + after =~= rest);
    } else {
        assert(text::is_whitespace(after[after.len() - 1]));
        assert((rest + after).drop_last() =~= rest + after.drop_last());
        assert forall|i: int| 0 <= i < after.drop_last().len() implies text::is_whitespace(
            #[trigger] after.drop_last()[i],
        ) by {
            assert(after.drop_last()[i] == after[i]);
        }
        lemma_end_is_cut(rest, after.drop_last());
    }
}

// --- lookups --------------------------------------------------------------------

/// A receipt id is in the ledger where a row carries it.
pub proof fn law_receipt_is_carried(rows: Seq<RowView>, id: Seq<char>)
    ensures
        model::has_receipt(rows, id) <==> exists|i: int|
            0 <= i < rows.len() && (#[trigger] rows[i]).receipt_id == Some(id),
{
}

/// A lookup gives the first sale with the receipt id, column by column.
pub proof fn law_lookup_gives_the_first(rows: Seq<RowView>, id: Seq<char>, i: int)
    requires
        0 <= i < rows.len(),
        rows[i].receipt_id == Some(id),
        forall|k: int| 0 <= k < i ==> (#[trigger] rows[k]).receipt_id != Some(id),
    ensures
        model::find_receipt(rows, id) == Some(rows[i]),
        ({
            &&& model::lookup(rows, id) matches Some(tx)
            &&& tx.receipt_id == id
            &&& tx.amount_cents == rows[i].amount_cents
            &&& tx.currency == rows[i].currency
            &&& tx.item == rows[i].item
            &&& tx.method == rows[i].method
            &&& tx.note == rows[i].note
            &&& (tx.synced <==> rows[i].synced != 0)
            &&& tx.square_id == rows[i].square_id
            &&& tx.created_at == rows[i].created_at
            &&& tx.synced_at == rows[i].synced_at
        }),
{
    lemmas::lemma_find_receipt(rows, id, i);
}

/// A lookup gives nothing where no row carries the receipt id.
pub proof fn law_lookup_of_an_unknown_receipt(rows: Seq<RowView>, id: Seq<char>)
    requires
        forall|k: int| 0 <= k < rows.len() ==> (#[trigger] rows[k]).receipt_id != Some(id),
    ensures
        model::find_receipt(rows, id) is None,
        model::lookup(rows, id) is None,
{
    lemmas::lemma_find_receipt(rows, id, rows.len() as int);
}

/// Receipts are unique where no two rows carry one.
pub proof fn law_unique_receipts_differ(rows: Seq<RowView>)
    ensures
        model::receipts_unique(rows) <==> forall|i: int, j: int|
            0 <= i < j < rows.len() && (#[trigger] rows[i]).receipt_id is Some ==> (
            #[trigger] rows[j]).receipt_id != rows[i].receipt_id,
{
    if model::receipts_unique(rows) {
        assert forall|i: int, j: int|
            0 <= i < j < rows.len() && (#[trigger] rows[i]).receipt_id is Some implies (
        #[trigger] rows[j]).receipt_id != rows[i].receipt_id by {
            assert(model::apart(rows[i], rows[j]));
        }
    }
}

// --- order and the outbox -------------------------------------------------------

/// The oldest comes first, none is lost or added, and rows of one time stay in
/// the order in which they were written.
pub proof fn law_rows_are_ordered_by_time(rows: Seq<RowView>, at: int)
    ensures
        model::oldest_first(rows).len() == rows.len(),
        forall|i: int, j: int|
            0 <= i < j < rows.len() ==> (#[trigger] model::oldest_first(rows)[i]).created_at <= (
            #[trigger] model::oldest_first(rows)[j]).created_at,
        model::oldest_first(rows).filter(|row: RowView| row.created_at == at) == rows.filter(
            |row: RowView| row.created_at == at,
        ),
{
    laws::law_oldest_first(rows, at);
    lemmas::lemma_oldest_first_contains(rows);
    assert(laws::made_at(at) =~= (|row: RowView| row.created_at == at));
}

/// A row is in the outbox if and only if its flag is 0, as often as in the ledger;
/// the oldest comes first, and rows of one time stay in the order in which they
/// were written.
pub proof fn law_outbox_holds_the_rows_with_flag_0(rows: Seq<RowView>, at: int)
    ensures
        model::queue(rows).len() == rows.filter(|row: RowView| row.synced == 0).len(),
        forall|row: RowView| #[trigger]
            model::queue(rows).contains(row) <==> rows.contains(row) && row.synced == 0,
        forall|i: int, j: int|
            0 <= i < j < model::queue(rows).len() ==> (#[trigger] model::queue(rows)[i]).created_at
                <= (#[trigger] model::queue(rows)[j]).created_at,
        model::queue(rows).filter(|row: RowView| row.created_at == at) == rows.filter(
            |row: RowView| row.synced == 0,
        ).filter(|row: RowView| row.created_at == at),
        forall|row: RowView| #[trigger] model::is_queued()(row) <==> row.synced == 0,
        forall|row: RowView| #[trigger] model::is_synced()(row) <==> row.synced != 0,
{
    let found = rows.filter(model::is_queued());
    assert(model::is_queued() =~= (|row: RowView| row.synced == 0));
    law_rows_are_ordered_by_time(found, at);
    assert forall|row: RowView| #[trigger] model::queue(rows).contains(row) <==> rows.contains(row)
        && row.synced == 0 by {
        lemmas::lemma_queue_contains(rows, row);
    }
}

// --- syncing --------------------------------------------------------------------

/// Writing a push down stamps the queued row that it names, with what the push
/// says, and changes nothing else.
pub proof fn law_mark_stamps_the_row_that_it_names(
    rows: Seq<RowView>,
    mark: SyncMarkView,
    i: int,
)
    requires
        0 <= i < rows.len(),
    ensures
        model::apply_mark(rows, mark).len() == rows.len(),
        ({
            let was = rows[i];
            let now = model::apply_mark(rows, mark)[i];
            &&& now.receipt_id == was.receipt_id
            &&& now.amount_cents == was.amount_cents
            &&& now.currency == was.currency
            &&& now.item == was.item
            &&& now.method == was.method
            &&& now.note == was.note
            &&& now.created_at == was.created_at
            &&& was.synced == 0 && was.receipt_id == Some(mark.receipt_id) ==> {
                &&& now.synced == 1
                &&& now.square_id == Some(mark.square_id)
                &&& now.synced_at == Some(mark.synced_at)
            }
            &&& was.synced != 0 || was.receipt_id != Some(mark.receipt_id) ==> {
                &&& now.synced == was.synced
                &&& now.square_id == was.square_id
                &&& now.synced_at == was.synced_at
            }
        }),
{
}

/// Marks are written down one after the other.
pub proof fn law_marks_are_written_one_by_one(
    rows: Seq<RowView>,
    marks: Seq<SyncMarkView>,
    mark: SyncMarkView,
)
    ensures
        model::apply_marks(rows, seq![]) == rows,
        model::apply_marks(rows, marks.push(mark)) == model::apply_mark(
            model::apply_marks(rows, marks),
            mark,
        ),
{
    assert(marks.push(mark).drop_last() =~= marks);
}

/// A pass makes a push of each sale, in their order: under the sale's receipt id,
/// with the Square id made of it, and at a time that the clock gave.
pub proof fn law_marks_name_the_sales(pushed: Seq<RowView>, marks: Seq<SyncMarkView>, k: int)
    requires
        model::marks_of(pushed, marks),
        0 <= k < pushed.len(),
    ensures
        marks.len() == pushed.len(),
        pushed[k].receipt_id == Some(marks[k].receipt_id),
        marks[k].square_id == "sq_"@ + marks[k].receipt_id,
        clock::is_reading(marks[k].synced_at),
{
}

/// After a pass a row that was queued has the flag 1, the Square id made of its
/// receipt id and a time that the clock gave; nothing else of any row is
/// different.
pub proof fn law_pass_stamps_every_queued_row(
    before: Seq<RowView>,
    after: Seq<RowView>,
    i: int,
)
    requires
        model::fully_pushed(before, after),
        0 <= i < before.len(),
    ensures
        after.len() == before.len(),
        after[i].receipt_id == before[i].receipt_id,
        after[i].amount_cents == before[i].amount_cents,
        after[i].currency == before[i].currency,
        after[i].item == before[i].item,
        after[i].method == before[i].method,
        after[i].note == before[i].note,
        after[i].created_at == before[i].created_at,
        before[i].synced != 0 ==> {
            &&& after[i].synced == before[i].synced
            &&& after[i].square_id == before[i].square_id
            &&& after[i].synced_at == before[i].synced_at
        },
        before[i].synced == 0 ==> {
            &&& after[i].synced == 1
            &&& after[i].square_id == Some("sq_"@ + before[i].receipt_id->0)
            &&& after[i].synced_at matches Some(at) && clock::is_reading(at)
        },
{
    assert(model::pushed_row(before[i], after[i]));
}

/// Square's id of a sale is `sq_` and the receipt id.
pub proof fn law_square_id_is_made_of_the_receipt(receipt_id: Seq<char>)
    ensures
        model::square_id_of(receipt_id) == "sq_"@ + receipt_id,
{
}

// --- status ---------------------------------------------------------------------

/// The sum of the flags is the sum of the flags, whatever the ledger was put
/// together from.
pub proof fn law_flags_add_up(a: Seq<RowView>, b: Seq<RowView>, row: RowView)
    ensures
        model::flag_total(seq![]) == 0,
        model::flag_total(seq![row]) == row.synced,
        model::flag_total(a + b) == model::flag_total(a) + model::flag_total(b),
    decreases b.len(),
{
    assert(seq![row].drop_last() =~= seq![]);
    if b.len() == 0 {
        assert(a + b =~= a);
    } else {
        law_flags_add_up(a, b.drop_last(), row);
        assert((a + b).drop_last() =~= a + b.drop_last());
    }
}

/// What a status or a tally is refused for: a sum that leaves the range of an
/// `i64` as it is added up, or more rows than an `i64` counts.
pub proof fn law_sums_are_refused_beyond_an_i64(rows: Seq<RowView>, column: TallyColumn)
    ensures
        model::countable(rows) <==> rows.len() <= 0x7fff_ffff_ffff_ffff,
        model::flags_fit(rows) <==> forall|n: int|
            0 <= n <= rows.len() ==> -0x8000_0000_0000_0000 <= #[trigger] model::flag_total(
                rows.take(n),
            ) <= 0x7fff_ffff_ffff_ffff,
        model::flags_valid(rows) <==> forall|i: int|
            0 <= i < rows.len() ==> (#[trigger] rows[i]).synced == 0 || rows[i].synced == 1,
        model::totals_fit(rows, column) <==> forall|n: int, key: Seq<char>|
            0 <= n <= rows.len() ==> -0x8000_0000_0000_0000 <= #[trigger] model::total_for(
                rows.take(n),
                column,
                key,
            ) <= 0x7fff_ffff_ffff_ffff,
{
}

// --- tallies --------------------------------------------------------------------

/// A sale is tallied if and only if it was made no earlier than the start of the
/// window and no later than its end, where these are given; and as often as it is
/// in the ledger.
pub proof fn law_window_takes_the_sales_made_in_it(
    rows: Seq<RowView>,
    since_ms: Option<i64>,
    until_ms: Option<i64>,
)
    ensures
        forall|row: RowView| #[trigger]
            rows.filter(model::in_window(since_ms, until_ms)).contains(row) <==> {
                &&& rows.contains(row)
                &&& (since_ms matches Some(s) ==> s <= row.created_at)
                &&& (until_ms matches Some(u) ==> row.created_at <= u)
            },
        rows.filter(model::in_window(since_ms, until_ms)) == rows.filter(
            |row: RowView|
                (since_ms is None || since_ms->0 <= row.created_at) && (until_ms is None
                    || row.created_at <= until_ms->0),
        ),
{
    let window = model::in_window(since_ms, until_ms);
    assert(window =~= (|row: RowView|
        (since_ms is None || since_ms->0 <= row.created_at) && (until_ms is None || row.created_at
            <= until_ms->0)));
    assert forall|row: RowView| #[trigger] rows.filter(window).contains(row) <==> {
        &&& rows.contains(row)
        &&& (since_ms matches Some(s) ==> s <= row.created_at)
        &&& (until_ms matches Some(u) ==> row.created_at <= u)
    } by {
        if rows.filter(window).contains(row) {
            let m = choose|m: int|
                0 <= m < rows.filter(window).len() && rows.filter(window)[m] == row;
            rows.lemma_filter_pred(window, m);
            rows.lemma_filter_contains_rev(window, row);
        }
        if rows.contains(row) && window(row) {
            let i = choose|i: int| 0 <= i < rows.len() && rows[i] == row;
            rows.lemma_filter_contains(window, i);
        }
    }
}

/// Two windows side by side count what the one window over both counts.
pub proof fn law_windows_side_by_side_add_up(
    rows: Seq<RowView>,
    since_ms: Option<i64>,
    mid_ms: i64,
    until_ms: Option<i64>,
)
    requires
        mid_ms < i64::MAX,
        since_ms matches Some(s) ==> s <= mid_ms,
        until_ms matches Some(u) ==> mid_ms < u,
    ensures
        rows.filter(model::in_window(since_ms, Some(mid_ms))).len() + rows.filter(
            model::in_window(Some((mid_ms + 1) as i64), until_ms),
        ).len() == rows.filter(model::in_window(since_ms, until_ms)).len(),
        model::takings(rows.filter(model::in_window(since_ms, Some(mid_ms)))) + model::takings(
            rows.filter(model::in_window(Some((mid_ms + 1) as i64), until_ms)),
        ) == model::takings(rows.filter(model::in_window(since_ms, until_ms))),
    decreases rows.len(),
{
    reveal(Seq::filter);
    if rows.len() > 0 {
        law_windows_side_by_side_add_up(rows.drop_last(), since_ms, mid_ms, until_ms);
        let row = rows.last();
        let front = rows.drop_last();
        assert(front.filter(model::in_window(since_ms, Some(mid_ms))).push(row).drop_last()
            =~= front.filter(model::in_window(since_ms, Some(mid_ms))));
        let later = model::in_window(Some((mid_ms + 1) as i64), until_ms);
        assert(front.filter(later).push(row).drop_last() =~= front.filter(later));
        let both = model::in_window(since_ms, until_ms);
        assert(front.filter(both).push(row).drop_last() =~= front.filter(both));
    }
}

/// Sales are grouped by their currency or by their method.
pub proof fn law_columns_are_currency_and_method(row: RowView)
    ensures
        model::key_of(TallyColumn::Currency, row) == row.currency,
        model::key_of(TallyColumn::Method, row) == row.method,
{
}

/// A group's total is the sum of the amounts, and its count the number, of the
/// sales with its key, whatever the sales were put together from.
pub proof fn law_groups_add_up(
    a: Seq<RowView>,
    b: Seq<RowView>,
    row: RowView,
    column: TallyColumn,
    key: Seq<char>,
)
    ensures
        model::total_for(seq![], column, key) == 0,
        model::count_for(seq![], column, key) == 0,
        ({
            let held = match column {
                TallyColumn::Currency => row.currency,
                TallyColumn::Method => row.method,
            };
            &&& held == key ==> model::total_for(seq![row], column, key) == row.amount_cents
            &&& held == key ==> model::count_for(seq![row], column, key) == 1
            &&& held != key ==> model::total_for(seq![row], column, key) == 0
            &&& held != key ==> model::count_for(seq![row], column, key) == 0
        }),
        model::total_for(a + b, column, key) == model::total_for(a, column, key) + model::total_for(
            b,
            column,
            key,
        ),
        model::count_for(a + b, column, key) == model::count_for(a, column, key) + model::count_for(
            b,
            column,
            key,
        ),
    decreases b.len(),
{
    let one = seq![row];
    assert(one.drop_last() =~= seq![]);
    assert(one.last() == row);
    assert(model::total_for(one.drop_last(), column, key) == 0);
    assert(model::count_for(one.drop_last(), column, key) == 0);
    if b.len() == 0 {
        assert(a + b =~= a);
    } else {
        law_groups_add_up(a, b.drop_last(), row, column, key);
        assert((a + b).drop_last() =~= a + b.drop_last());
    }
}

/// A tally has one group for each key that a sale has, in ascending order, with
/// the total and the count of that key, and no other.
pub proof fn law_tally_has_a_group_for_each_key(
    rows: Seq<RowView>,
    column: TallyColumn,
    key: Seq<char>,
)
    ensures
        ({
            let groups = model::tally(rows, column);
            &&& (exists|i: int| 0 <= i < groups.len() && (#[trigger] groups[i]).key == key) <==> (
            exists|k: int|
                0 <= k < rows.len() && key == match column {
                    TallyColumn::Currency => (#[trigger] rows[k]).currency,
                    TallyColumn::Method => rows[k].method,
                })
            &&& forall|i: int|
                0 <= i < groups.len() && (#[trigger] groups[i]).key == key ==> groups[i] == (
                TallyView {
                    key,
                    total_cents: model::total_for(rows, column, key),
                    count: model::count_for(rows, column, key),
                })
            &&& forall|i: int, j: int|
                0 <= i < j < groups.len() ==> (#[trigger] groups[i]).key != (
                #[trigger] groups[j]).key && text::precedes(groups[i].key, groups[j].key)
        }),
{
    let groups = model::tally(rows, column);
    let keys = model::group_keys(rows, column);
    laws::law_tally_groups(rows, column);
    lemmas::lemma_group_keys(rows, column);
    assert forall|i: int, j: int| 0 <= i < j < groups.len() implies (#[trigger] groups[i]).key != (
    #[trigger] groups[j]).key && text::precedes(groups[i].key, groups[j].key) by {
        text::lemma_precedes_irreflexive(groups[i].key);
    }
    if exists|i: int| 0 <= i < groups.len() && (#[trigger] groups[i]).key == key {
        let i = choose|i: int| 0 <= i < groups.len() && (#[trigger] groups[i]).key == key;
        assert(keys[i] == key);
        assert(keys.contains(key));
        let k = choose|k: int|
            0 <= k < rows.len() && model::key_of(column, #[trigger] rows[k]) == key;
        assert(key == match column {
            TallyColumn::Currency => rows[k].currency,
            TallyColumn::Method => rows[k].method,
        });
    }
    if exists|k: int|
        0 <= k < rows.len() && key == match column {
            TallyColumn::Currency => (#[trigger] rows[k]).currency,
            TallyColumn::Method => rows[k].method,
        } {
        let k = choose|k: int|
            0 <= k < rows.len() && key == match column {
                TallyColumn::Currency => (#[trigger] rows[k]).currency,
                TallyColumn::Method => rows[k].method,
            };
        assert(model::key_of(column, rows[k]) == key);
        let i = choose|i: int|
            0 <= i < groups.len() && (#[trigger] groups[i]).key == model::key_of(column, rows[k]);
        assert(groups[i].key == key);
    }
}

// --- reconciling ----------------------------------------------------------------

/// A sale is flagged as stuck if and only if its flag is 0 and it was made before
/// the time that lies the threshold back, where a negative threshold counts as 0;
/// and as unlinked if and only if its flag is 1 and it has no Square id, or an
/// empty one.
pub proof fn law_reconcile_flags_by_age_and_link(
    rows: Seq<RowView>,
    now: int,
    threshold_ms: int,
    id: Seq<char>,
)
    requires
        forall|i: int| 0 <= i < rows.len() ==> (#[trigger] rows[i]).receipt_id is Some,
    ensures
        model::reconcile_report(rows, now, threshold_ms).stuck_unsynced.contains(id) <==> exists|
            i: int,
        |
            {
                &&& 0 <= i < rows.len()
                &&& (#[trigger] rows[i]).receipt_id == Some(id)
                &&& rows[i].synced == 0
                &&& rows[i].created_at < now
                &&& rows[i].created_at < now - threshold_ms
            },
        model::reconcile_report(rows, now, threshold_ms).synced_without_square_id.contains(id)
            <==> exists|i: int|
            {
                &&& 0 <= i < rows.len()
                &&& (#[trigger] rows[i]).receipt_id == Some(id)
                &&& rows[i].synced == 1
                &&& rows[i].square_id is None || rows[i].square_id == Some(Seq::<char>::empty())
            },
{
    laws::law_reconcile_flags_the_anomalies(rows, now, threshold_ms);
    let report = model::reconcile_report(rows, now, threshold_ms);
    if report.synced_without_square_id.contains(id) {
        let i = choose|i: int|
            0 <= i < rows.len() && model::is_unlinked()(#[trigger] rows[i]) && rows[i].receipt_id
                == Some(id);
        if rows[i].square_id is Some {
            assert(rows[i].square_id->0 =~= Seq::<char>::empty());
        }
        assert(rows[i].receipt_id == Some(id));
    }
    if exists|i: int|
        {
            &&& 0 <= i < rows.len()
            &&& (#[trigger] rows[i]).receipt_id == Some(id)
            &&& rows[i].synced == 0
            &&& rows[i].created_at < now
            &&& rows[i].created_at < now - threshold_ms
        } {
        let i = choose|i: int|
            {
                &&& 0 <= i < rows.len()
                &&& (#[trigger] rows[i]).receipt_id == Some(id)
                &&& rows[i].synced == 0
                &&& rows[i].created_at < now
                &&& rows[i].created_at < now - threshold_ms
            };
        assert(model::is_stuck(now, threshold_ms)(rows[i]));
    }
    if exists|i: int|
        {
            &&& 0 <= i < rows.len()
            &&& (#[trigger] rows[i]).receipt_id == Some(id)
            &&& rows[i].synced == 1
            &&& rows[i].square_id is None || rows[i].square_id == Some(Seq::<char>::empty())
        } {
        let i = choose|i: int|
            {
                &&& 0 <= i < rows.len()
                &&& (#[trigger] rows[i]).receipt_id == Some(id)
                &&& rows[i].synced == 1
                &&& rows[i].square_id is None || rows[i].square_id == Some(Seq::<char>::empty())
            };
        assert(model::is_unlinked()(rows[i]));
    }
}

/// A report holds the receipt ids of the rows that are flagged, the oldest first,
/// with the threshold and the time that it was asked for.
pub proof fn law_report_lists_the_flagged_rows_by_time(
    rows: Seq<RowView>,
    now: int,
    threshold_ms: int,
)
    ensures
        ({
            let report = model::reconcile_report(rows, now, threshold_ms);
            let stuck = model::oldest_first(
                rows.filter(
                    |row: RowView|
                        row.synced == 0 && row.created_at < now && row.created_at < now
                            - threshold_ms,
                ),
            );
            let unlinked = model::oldest_first(
                rows.filter(
                    |row: RowView|
                        row.synced == 1 && (row.square_id is None || row.square_id->0.len() == 0),
                ),
            );
            &&& report.stuck_unsynced.len() == stuck.len()
            &&& forall|k: int|
                0 <= k < stuck.len() ==> #[trigger] report.stuck_unsynced[k]
                    == stuck[k].receipt_id->0
            &&& report.synced_without_square_id.len() == unlinked.len()
            &&& forall|k: int|
                0 <= k < unlinked.len() ==> #[trigger] report.synced_without_square_id[k]
                    == unlinked[k].receipt_id->0
            &&& report.threshold_ms == threshold_ms
            &&& report.checked_at == now
        }),
        forall|row: RowView| #[trigger]
            model::is_stuck(now, threshold_ms)(row) <==> row.synced == 0 && row.created_at < now
                && row.created_at < now - threshold_ms,
        forall|row: RowView| #[trigger]
            model::is_unlinked()(row) <==> row.synced == 1 && (row.square_id is None
                || row.square_id->0.len() == 0),
{
    assert(model::is_stuck(now, threshold_ms) =~= (|row: RowView|
        row.synced == 0 && row.created_at < now && row.created_at < now - threshold_ms));
    assert(model::is_unlinked() =~= (|row: RowView|
        row.synced == 1 && (row.square_id is None || row.square_id->0.len() == 0)));
}

/// A sale that is stuck and is not pushed is stuck at every later time, and by
/// every smaller threshold.
pub proof fn law_stuck_sale_stays_stuck(
    rows: Seq<RowView>,
    now: int,
    later: int,
    threshold_ms: int,
    smaller_ms: int,
    id: Seq<char>,
)
    requires
        forall|i: int| 0 <= i < rows.len() ==> (#[trigger] rows[i]).receipt_id is Some,
        now <= later,
        smaller_ms <= threshold_ms,
        model::reconcile_report(rows, now, threshold_ms).stuck_unsynced.contains(id),
    ensures
        model::reconcile_report(rows, later, smaller_ms).stuck_unsynced.contains(id),
{
    law_reconcile_flags_by_age_and_link(rows, now, threshold_ms, id);
    law_reconcile_flags_by_age_and_link(rows, later, smaller_ms, id);
    let i = choose|i: int|
        {
            &&& 0 <= i < rows.len()
            &&& (#[trigger] rows[i]).receipt_id == Some(id)
            &&& rows[i].synced == 0
            &&& rows[i].created_at < now
            &&& rows[i].created_at < now - threshold_ms
        };
    assert(rows[i].created_at < later && rows[i].created_at < later - smaller_ms);
}

// --- the environment and the clock ----------------------------------------------

/// The ledger lies where the environment says; else in the user's profile; else in
/// the home directory; else in the current one.
pub proof fn law_ledger_lies_where_the_environment_says(
    configured: Option<Seq<char>>,
    user_profile: Option<Seq<char>>,
    home: Option<Seq<char>>,
)
    ensures
        configured matches Some(path) ==> config::db_path_text(configured, user_profile, home)
            == path,
        configured is None ==> config::db_path_text(configured, user_profile, home)
            == config::default_db_path_text(user_profile, home),
        user_profile matches Some(dir) ==> config::default_db_path_text(user_profile, home) == dir
            + "/.edge-revenue/ledger.db"@,
        user_profile is None ==> (home matches Some(dir) ==> config::default_db_path_text(
            user_profile,
            home,
        ) == dir + "/.edge-revenue/ledger.db"@),
        user_profile is None && home is None ==> config::default_db_path_text(user_profile, home)
            == "."@ + "/.edge-revenue/ledger.db"@,
{
}

/// A clock shows the milliseconds since the epoch, less a multiple of 2 to the
/// 64th where they do not fit, and 0 before the epoch.
pub proof fn law_clock_shows_milliseconds(millis: u128)
    ensures
        clock::clock_shows(None) == 0,
        millis <= i64::MAX ==> clock::clock_shows(Some(millis)) == millis,
        clock::clock_shows(Some(millis)) as u64 == millis as u64,
{
    assert((millis as i64) as u64 == millis as u64) by (bit_vector);
}

// --- texts ----------------------------------------------------------------------

/// White space is decided character by character, and is what Unicode lists.
pub proof fn law_blank_is_decided_by_each_character(a: Seq<char>, b: Seq<char>, c: char)
    ensures
        text::is_blank(seq![]),
        text::is_blank(seq![c]) <==> {
            let n = c as int;
            ||| 9 <= n <= 13
            ||| n == 32
            ||| n == 133
            ||| n == 160
            ||| n == 5760
            ||| 8192 <= n <= 8202
            ||| n == 8232
            ||| n == 8233
            ||| n == 8239
            ||| n == 8287
            ||| n == 12288
        },
        text::is_blank(a + b) <==> text::is_blank(a) && text::is_blank(b),
{
    assert(seq![c][0] == c);
    if text::is_blank(seq![c]) {
        assert(text::is_whitespace(seq![c][0]));
    }
    if text::is_blank(a + b) {
        assert forall|i: int| 0 <= i < a.len() implies text::is_whitespace(#[trigger] a[i]) by {
            assert((a + b)[i] == a[i]);
        }
        assert forall|i: int| 0 <= i < b.len() implies text::is_whitespace(#[trigger] b[i]) by {
            assert((a + b)[a.len() + i] == b[i]);
        }
    }
}

/// Trimming takes white space off both ends, and all of it, and nothing else.
pub proof fn law_trimmed_is_what_is_between(s: Seq<char>) -> (ends: (Seq<char>, Seq<char>))
    ensures
        s == ends.0 + text::trimmed(s) + ends.1,
        text::is_blank(ends.0),
        text::is_blank(ends.1),
        text::trimmed(s).len() > 0 ==> !text::is_whitespace(text::trimmed(s).first())
            && !text::is_whitespace(text::trimmed(s).last()),
        text::trimmed(s).len() == 0 <==> text::is_blank(s),
{
    let before = lemma_trimmed_start(s);
    let after = lemma_trimmed_end(text::trimmed_start(s));
    assert(s =~= before + text::trimmed(s) + after);
    text::lemma_trimmed_blank(s);
    if text::trimmed(s).len() > 0 {
        assert(text::trimmed(s).first() == text::trimmed_start(s).first());
    }
    (before, after)
}

proof fn lemma_trimmed_start(s: Seq<char>) -> (before: Seq<char>)
    ensures
        s == before + text::trimmed_start(s),
        text::is_blank(before),
        text::trimmed_start(s).len() > 0 ==> !text::is_whitespace(text::trimmed_start(s).first()),
    decreases s.len(),
{
    if s.len() > 0 && text::is_whitespace(s.first()) {
        let before = lemma_trimmed_start(s.drop_first());
        let more = seq![s.first()] + before;
        assert(s =~= seq![s.first()] + s.drop_first());
        assert(s =~= more + text::trimmed_start(s));
        assert forall|i: int| 0 <= i < more.len() implies text::is_whitespace(#[trigger] more[i]) by {
            if i > 0 {
                assert(more[i] == before[i - 1]);
            }
        }
        more
    } else {
        assert(s =~= Seq::<char>::empty() + s);
        Seq::empty()
    }
}

proof fn lemma_trimmed_end(s: Seq<char>) -> (after: Seq<char>)
    ensures
        s == text::trimmed_end(s) + after,
        text::is_blank(after),
        text::trimmed_end(s).len() > 0 ==> !text::is_whitespace(text::trimmed_end(s).last()),
    decreases s.len(),
{
    if s.len() > 0 && text::is_whitespace(s.last()) {
        let after = lemma_trimmed_end(s.drop_last());
        let more = after.push(s.last());
        assert(s =~= s.drop_last().push(s.last()));
        assert(s =~= text::trimmed_end(s) + more);
        assert forall|i: int| 0 <= i < more.len() implies text::is_whitespace(#[trigger] more[i]) by {
            if i < after.len() {
                assert(more[i] == after[i]);
            }
        }
        more
    } else {
        assert(s =~= s + Seq::<char>::empty());
        Seq::empty()
    }
}

/// The upper case of an ASCII text has its letters as capitals and its other
/// characters as they are; of other texts it is Unicode's.
pub proof fn law_upper_case_maps_each_letter(s: Seq<char>)
    ensures
        (forall|i: int| 0 <= i < s.len() ==> 0 <= (#[trigger] s[i]) as int <= 127) ==> {
            &&& text::uppercase(s).len() == s.len()
            &&& forall|i: int|
                0 <= i < s.len() ==> {
                    let c = s[i] as int;
                    let up = (#[trigger] text::uppercase(s)[i]) as int;
                    if 97 <= c <= 122 {
                        up == c - 32
                    } else {
                        up == c
                    }
                }
        },
        !(forall|i: int| 0 <= i < s.len() ==> 0 <= (#[trigger] s[i]) as int <= 127)
            ==> text::uppercase(s) == text::unicode_uppercase(s),
{
    if forall|i: int| 0 <= i < s.len() ==> 0 <= (#[trigger] s[i]) as int <= 127 {
        assert(vstd::utf8::is_ascii_chars(s));
    } else {
        let i = choose|i: int|
            0 <= i < s.len() && !(0 <= (#[trigger] s[i]) as int && s[i] as int <= 127);
        assert(!vstd::utf8::is_ascii_chars(s));
    }
}

/// A text precedes another where it has the smaller character at the first place
/// at which they differ, or is the beginning of it.
pub proof fn law_order_is_by_the_first_difference(a: Seq<char>, b: Seq<char>)
    ensures
        text::precedes(a, b) <==> exists|k: int|
            {
                &&& 0 <= k <= a.len() && k < b.len()
                &&& #[trigger] a.take(k) == b.take(k)
                &&& k == a.len() || (a[k] as int) < (b[k] as int)
            },
    decreases a.len(),
{
    if b.len() == 0 {
    } else if a.len() == 0 {
        assert(a.take(0) =~= b.take(0));
    } else if a.first() != b.first() {
        assert(a.take(0) =~= b.take(0));
        assert forall|k: int|
            0 <= k <= a.len() && k < b.len() && #[trigger] a.take(k) == b.take(k) implies k == 0 by {
            if k > 0 {
                assert(a.take(k)[0] == a[0] && b.take(k)[0] == b[0]);
            }
        }
    } else {
        let x = a.drop_first();
        let y = b.drop_first();
        law_order_is_by_the_first_difference(x, y);
        if text::precedes(x, y) {
            let k = choose|k: int|
                {
                    &&& 0 <= k <= x.len() && k < y.len()
                    &&& #[trigger] x.take(k) == y.take(k)
                    &&& k == x.len() || (x[k] as int) < (y[k] as int)
                };
            assert(a.take(k + 1) =~= seq![a.first()] + x.take(k));
            assert(b.take(k + 1) =~= seq![b.first()] + y.take(k));
            assert(a.take(k + 1) == b.take(k + 1));
        }
        if exists|k: int|
            {
                &&& 0 <= k <= a.len() && k < b.len()
                &&& #[trigger] a.take(k) == b.take(k)
                &&& k == a.len() || (a[k] as int) < (b[k] as int)
            } {
            let k = choose|k: int|
                {
                    &&& 0 <= k <= a.len() && k < b.len()
                    &&& #[trigger] a.take(k) == b.take(k)
                    &&& k == a.len() || (a[k] as int) < (b[k] as int)
                };
            assert(k > 0);
            assert(x.take(k - 1) =~= a.take(k).drop_first());
            assert(y.take(k - 1) =~= b.take(k).drop_first());
            assert(x.take(k - 1) == y.take(k - 1));
        }
    }
}

/// What a sequence of digits says as a number.
pub open spec fn value_of(digits: Seq<char>) -> int
    decreases digits.len(),
{
    if digits.len() == 0 {
        0
    } else {
        value_of(digits.drop_last()) * 10 + (digits.last() as int - 48)
    }
}

/// A number in plain decimal: digits and nothing else, and no zero to begin with
/// but that of 0 itself.
pub open spec fn is_plain_decimal(digits: Seq<char>) -> bool {
    &&& digits.len() > 0
    &&& forall|i: int| 0 <= i < digits.len() ==> 48 <= (#[trigger] digits[i]) as int <= 57
    &&& digits.len() > 1 ==> digits[0] as int != 48
}

/// A number is written in plain decimal, and reads back as itself.
pub proof fn law_numbers_read_back(n: nat)
    ensures
        is_plain_decimal(text::decimal(n)),
        value_of(text::decimal(n)) == n,
        n > 0 ==> text::decimal(n)[0] as int != 48,
    decreases n,
{
    let digits = text::decimal(n);
    if n < 10 {
        assert(digits.drop_last() =~= Seq::<char>::empty());
        assert(value_of(digits.drop_last()) == 0);
    } else {
        law_numbers_read_back(n / 10);
        assert(digits.drop_last() =~= text::decimal(n / 10));
        assert forall|i: int| 0 <= i < digits.len() implies 48 <= (#[trigger] digits[i]) as int
            <= 57 by {
            if i < digits.len() - 1 {
                assert(digits[i] == text::decimal(n / 10)[i]);
            }
        }
        assert(digits[0] == text::decimal(n / 10)[0]);
    }
}

/// A negative number has a minus sign before it; another has none. Two digits are
/// two digits.
pub proof fn law_signs_and_pairs(n: int, pair: nat)
    ensures
        n >= 0 ==> text::signed_decimal(n) == text::decimal(n as nat),
        n < 0 ==> text::signed_decimal(n) == seq!['-'] + text::decimal((-n) as nat),
        pair < 100 ==> {
            &&& text::two_digits(pair).len() == 2
            &&& 48 <= text::two_digits(pair)[0] as int <= 57
            &&& 48 <= text::two_digits(pair)[1] as int <= 57
            &&& value_of(text::two_digits(pair)) == pair
        },
{
    let d = text::two_digits(pair);
    if pair < 100 {
        reveal_with_fuel(value_of, 3);
        assert(d.drop_last().drop_last() =~= Seq::<char>::empty());
        assert(d.drop_last().last() == d[0]);
    }
}

/// Joined texts stand one after the other with the separator between them, and
/// only there.
pub proof fn law_joined_texts_are_separated(
    parts: Seq<Seq<char>>,
    part: Seq<char>,
    separator: Seq<char>,
)
    ensures
        text::joined(seq![], separator) == Seq::<char>::empty(),
        text::joined(seq![part], separator) == part,
        parts.len() > 0 ==> text::joined(parts.push(part), separator) == text::joined(
            parts,
            separator,
        ) + separator + part,
{
    assert(parts.push(part).drop_last() =~= parts);
}

} // verus!
