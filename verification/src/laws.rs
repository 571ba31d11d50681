//! The laws of the ledger: what holds of it whatever is recorded, pushed and
//! asked, and in whatever order.

use vstd::prelude::*;

use crate::lemmas;
use crate::model;
use crate::model::{RowView, SyncMarkView, TallyView, TransactionView};
use crate::store::TallyColumn;
use crate::text;

verus! {

// --- receipts -------------------------------------------------------------------

/// What is written down of a sale is what is read back, and the other way round
/// for a row that has a receipt id and a flag of 0 or 1.
pub proof fn law_rows_read_back(tx: TransactionView, row: RowView)
    ensures
        model::decoded(model::encoded(tx)) == tx,
        row.receipt_id is Some && 0 <= row.synced <= 1 ==> model::encoded(model::decoded(row))
            == row,
{
}

/// A receipt proves a sale: a recorded sale is found under its receipt id, and
/// recording it changes what is found under no other.
pub proof fn law_recorded_sale_is_found(rows: Seq<RowView>, tx: TransactionView)
    requires
        !model::has_receipt(rows, tx.receipt_id),
    ensures
        model::lookup(rows.push(model::encoded(tx)), tx.receipt_id) == Some(tx),
        forall|id: Seq<char>|
            id != tx.receipt_id ==> #[trigger] model::lookup(rows.push(model::encoded(tx)), id)
                == model::lookup(rows, id),
{
    let more = rows.push(model::encoded(tx));
    assert forall|k: int| 0 <= k < rows.len() implies (#[trigger] more[k]).receipt_id
        != Some(tx.receipt_id) by {
        assert(rows[k].receipt_id != Some(tx.receipt_id));
    }
    lemmas::lemma_find_receipt(more, tx.receipt_id, rows.len() as int);
    assert forall|id: Seq<char>| id != tx.receipt_id implies #[trigger] model::lookup(more, id)
        == model::lookup(rows, id) by {
        let at = lemma_first_with_receipt(rows, id);
        lemmas::lemma_find_receipt(rows, id, at);
        assert forall|k: int| 0 <= k < at implies (#[trigger] more[k]).receipt_id != Some(id) by {
            assert(more[k] == rows[k]);
        }
        if at < rows.len() {
            lemmas::lemma_find_receipt(more, id, at);
        } else {
            lemmas::lemma_find_receipt(more, id, at + 1);
        }
    }
}

proof fn lemma_first_with_receipt(rows: Seq<RowView>, id: Seq<char>) -> (at: int)
    ensures
        0 <= at <= rows.len(),
        forall|k: int| 0 <= k < at ==> (#[trigger] rows[k]).receipt_id != Some(id),
        at < rows.len() ==> rows[at].receipt_id == Some(id),
    decreases rows.len(),
{
    if rows.len() == 0 {
        0
    } else {
        let front = rows.drop_last();
        let at = lemma_first_with_receipt(front, id);
        assert forall|k: int| 0 <= k < at implies (#[trigger] rows[k]).receipt_id != Some(id) by {
            assert(front[k] == rows[k]);
        }
        if at == front.len() && rows.last().receipt_id != Some(id) {
            at + 1
        } else {
            at
        }
    }
}

/// A lookup finds a row of the ledger that carries the receipt id, and finds
/// none only where there is none.
pub proof fn law_lookup(rows: Seq<RowView>, id: Seq<char>)
    ensures
        match model::find_receipt(rows, id) {
            Some(row) => rows.contains(row) && row.receipt_id == Some(id),
            None => !model::has_receipt(rows, id),
        },
        model::lookup(rows, id) is Some <==> model::has_receipt(rows, id),
        model::lookup(rows, id) matches Some(tx) ==> tx.receipt_id == id,
{
    let at = lemma_first_with_receipt(rows, id);
    lemmas::lemma_find_receipt(rows, id, at);
}

/// No two sales share a receipt: recording one under a new id does not put an
/// end to that.
pub proof fn law_recording_keeps_receipts_unique(rows: Seq<RowView>, tx: TransactionView)
    requires
        model::receipts_unique(rows),
        !model::has_receipt(rows, tx.receipt_id),
    ensures
        model::receipts_unique(rows.push(model::encoded(tx))),
{
    let more = rows.push(model::encoded(tx));
    assert forall|i: int, j: int|
        0 <= i < j < more.len() implies model::apart(#[trigger] more[i], #[trigger] more[j]) by {
        assert(rows[i].receipt_id != Some(tx.receipt_id));
    }
}

/// No two sales share a receipt: writing a push down does not put an end to that.
pub proof fn law_push_keeps_receipts_unique(rows: Seq<RowView>, mark: SyncMarkView)
    requires
        model::receipts_unique(rows),
    ensures
        model::receipts_unique(model::apply_mark(rows, mark)),
{
}

/// No two sales share a receipt: a pass over the outbox does not put an end to
/// that.
pub proof fn law_sync_keeps_receipts_unique(
    before: Seq<RowView>,
    after: Seq<RowView>,
)
    requires
        model::receipts_unique(before),
        model::fully_pushed(before, after),
    ensures
        model::receipts_unique(after),
{
    assert forall|i: int, j: int| 0 <= i < j < after.len() implies model::apart(
        #[trigger] after[i],
        #[trigger] after[j],
    ) by {
        assert(model::pushed_row(before[i], after[i]));
        assert(model::pushed_row(before[j], after[j]));
        assert(model::apart(before[i], before[j]));
    }
}

// --- the outbox -----------------------------------------------------------------

/// Made at the time `at`.
pub open spec fn made_at(at: int) -> spec_fn(RowView) -> bool {
    |row: RowView| row.created_at == at
}

/// No row is older than one before it.
pub open spec fn by_age(rows: Seq<RowView>) -> bool {
    forall|i: int, j: int|
        0 <= i < j < rows.len() ==> (#[trigger] rows[i]).created_at <= (
        #[trigger] rows[j]).created_at
}

proof fn lemma_insert_by_age_ordered(sorted: Seq<RowView>, row: RowView, at: int)
    requires
        by_age(sorted),
    ensures
        by_age(model::insert_by_age(sorted, row)),
        model::insert_by_age(sorted, row).filter(made_at(at)) == if row.created_at == at {
            sorted.filter(made_at(at)).push(row)
        } else {
            sorted.filter(made_at(at))
        },
    decreases sorted.len(),
{
    reveal(Seq::filter);
    let out = model::insert_by_age(sorted, row);
    if sorted.len() == 0 || sorted.last().created_at <= row.created_at {
        assert(out.drop_last() =~= sorted);
        assert forall|i: int, j: int| 0 <= i < j < out.len() implies (#[trigger] out[i]).created_at
            <= (#[trigger] out[j]).created_at by {
            if j == sorted.len() && i < sorted.len() - 1 {
                assert(sorted[i].created_at <= sorted[sorted.len() - 1].created_at);
            }
        }
    } else {
        let front = sorted.drop_last();
        let rest = model::insert_by_age(front, row);
        lemma_insert_by_age_ordered(front, row, at);
        lemmas::lemma_insert_by_age_contains(front, row);
        assert(out.drop_last() =~= rest);
        assert forall|i: int, j: int| 0 <= i < j < out.len() implies (#[trigger] out[i]).created_at
            <= (#[trigger] out[j]).created_at by {
            if j == rest.len() {
                assert(rest.contains(rest[i]));
                if rest[i] != row {
                    let m = choose|m: int| 0 <= m < front.len() && front[m] == rest[i];
                    assert(sorted[m].created_at <= sorted[sorted.len() - 1].created_at);
                }
            }
        }
    }
}

/// Ordering by age orders by age, and leaves the rows of one age as they were.
pub proof fn law_oldest_first(rows: Seq<RowView>, at: int)
    ensures
        by_age(model::oldest_first(rows)),
        model::oldest_first(rows).filter(made_at(at)) == rows.filter(made_at(at)),
    decreases rows.len(),
{
    reveal(Seq::filter);
    if rows.len() > 0 {
        law_oldest_first(rows.drop_last(), at);
        lemma_insert_by_age_ordered(
            model::oldest_first(rows.drop_last()),
            rows.last(),
            at,
        );
    }
}

/// The outbox holds the unsynced sales and no others, the oldest first; those
/// made at one time are in the order in which they were recorded.
pub proof fn law_queue_is_the_unsynced_by_age(rows: Seq<RowView>)
    ensures
        by_age(model::queue(rows)),
        model::queue(rows).len() == rows.filter(model::is_queued()).len(),
        forall|at: int| #[trigger]
            model::queue(rows).filter(made_at(at)) == rows.filter(model::is_queued()).filter(
                made_at(at),
            ),
        forall|row: RowView| #[trigger]
            model::queue(rows).contains(row) <==> rows.contains(row) && row.synced == 0,
{
    let found = rows.filter(model::is_queued());
    law_oldest_first(found, 0);
    lemmas::lemma_oldest_first_contains(found);
    assert forall|at: int| #[trigger]
        model::queue(rows).filter(made_at(at)) == found.filter(made_at(at)) by {
        law_oldest_first(found, at);
    }
    assert forall|row: RowView| #[trigger]
        model::queue(rows).contains(row) <==> rows.contains(row) && row.synced == 0 by {
        lemmas::lemma_queue_contains(rows, row);
    }
}

/// A recorded sale is queued: it takes its place in the outbox by age, and the
/// others keep theirs.
pub proof fn law_recorded_sale_is_queued(rows: Seq<RowView>, row: RowView)
    requires
        row.synced == 0,
    ensures
        model::queue(rows.push(row)) == model::insert_by_age(model::queue(rows), row),
        model::queue(rows.push(row)).contains(row),
        model::queue(rows.push(row)).len() == model::queue(rows).len() + 1,
{
    reveal(Seq::filter);
    let found = rows.filter(model::is_queued());
    assert(rows.push(row).drop_last() =~= rows);
    assert(found.push(row).drop_last() =~= found);
    lemmas::lemma_insert_by_age_contains(model::queue(rows), row);
}

/// A sale recorded no earlier than every queued sale is the last to be pushed.
pub proof fn law_newest_sale_is_queued_last(rows: Seq<RowView>, row: RowView)
    requires
        row.synced == 0,
        forall|i: int|
            0 <= i < rows.len() && (#[trigger] rows[i]).synced == 0 ==> rows[i].created_at
                <= row.created_at,
    ensures
        model::queue(rows.push(row)) == model::queue(rows).push(row),
{
    law_recorded_sale_is_queued(rows, row);
    let queue = model::queue(rows);
    if queue.len() > 0 {
        lemmas::lemma_queue_contains(rows, queue.last());
        assert(queue.contains(queue[queue.len() - 1]));
        let i = choose|i: int| 0 <= i < rows.len() && rows[i] == queue.last();
        assert(rows[i].created_at <= row.created_at);
    }
}

// --- the ledger is append-only --------------------------------------------------

/// The same sale: all that was recorded of it is as it was.
pub open spec fn same_sale(was: RowView, now: RowView) -> bool {
    now == (RowView {
        synced: now.synced,
        square_id: now.square_id,
        synced_at: now.synced_at,
        ..was
    })
}

/// The rows before are there after, in their places and as they were recorded;
/// none that was synced has changed at all.
pub open spec fn extends(before: Seq<RowView>, after: Seq<RowView>) -> bool {
    &&& before.len() <= after.len()
    &&& forall|i: int|
        0 <= i < before.len() ==> {
            &&& same_sale(before[i], #[trigger] after[i])
            &&& before[i].synced != 0 ==> after[i] == before[i]
        }
}

/// The ledger is append-only: recording a sale changes no row.
pub proof fn law_recording_is_append_only(rows: Seq<RowView>, row: RowView)
    ensures
        rows.push(row).take(rows.len() as int) == rows,
        extends(rows, rows.push(row)),
{
    assert(rows.push(row).take(rows.len() as int) =~= rows);
}

/// The ledger is append-only: writing a push down deletes no row, and changes
/// only the flag, the Square id and the time of the push, and only once.
pub proof fn law_push_is_append_only(rows: Seq<RowView>, mark: SyncMarkView)
    ensures
        model::apply_mark(rows, mark).len() == rows.len(),
        extends(rows, model::apply_mark(rows, mark)),
{
}

/// The ledger is append-only: a pass over the outbox deletes no row, and changes
/// only the flag, the Square id and the time of the push, and only once.
pub proof fn law_sync_is_append_only(before: Seq<RowView>, after: Seq<RowView>)
    requires
        model::fully_pushed(before, after),
    ensures
        after.len() == before.len(),
        extends(before, after),
{
}

/// What one step or many extend, the next step extends.
pub proof fn law_append_only_steps_add_up(
    first: Seq<RowView>,
    second: Seq<RowView>,
    third: Seq<RowView>,
)
    requires
        extends(first, second),
        extends(second, third),
    ensures
        extends(first, third),
{
    assert forall|i: int| 0 <= i < first.len() implies same_sale(first[i], #[trigger] third[i]) && (
    first[i].synced != 0 ==> third[i] == first[i]) by {
        assert(same_sale(first[i], second[i]));
    }
}

/// A receipt stays good: whatever is recorded and pushed later, the same sale is
/// found under its id.
pub proof fn law_receipt_stays_good(
    before: Seq<RowView>,
    after: Seq<RowView>,
    id: Seq<char>,
)
    requires
        extends(before, after),
        model::has_receipt(before, id),
    ensures
        model::find_receipt(before, id) matches Some(was) && model::find_receipt(
            after,
            id,
        ) matches Some(now) && same_sale(was, now) && (was.synced != 0 ==> now == was),
{
    let at = lemma_first_with_receipt(before, id);
    lemmas::lemma_find_receipt(before, id, at);
    assert forall|k: int| 0 <= k < at implies (#[trigger] after[k]).receipt_id != Some(id) by {
        assert(same_sale(before[k], after[k]));
    }
    assert(same_sale(before[at], after[at]));
    lemmas::lemma_find_receipt(after, id, at);
}

// --- syncing --------------------------------------------------------------------

/// A pass over the outbox empties it.
pub proof fn law_sync_drains_the_outbox(before: Seq<RowView>, after: Seq<RowView>)
    requires
        model::fully_pushed(before, after),
    ensures
        model::queue(after).len() == 0,
{
    assert forall|i: int| 0 <= i < after.len() implies (#[trigger] after[i]).synced != 0 by {
        assert(model::pushed_row(before[i], after[i]));
    }
    lemmas::lemma_filter_none(after, model::is_queued());
}

/// A second pass with nothing queued in between changes nothing.
pub proof fn law_second_sync_is_a_no_op(
    before: Seq<RowView>,
    after: Seq<RowView>,
    again: Seq<RowView>,
)
    requires
        model::fully_pushed(before, after),
        model::fully_pushed(after, again),
    ensures
        again == after,
{
    assert forall|i: int| 0 <= i < after.len() implies again[i] == after[i] by {
        assert(model::pushed_row(before[i], after[i]));
        assert(model::pushed_row(after[i], again[i]));
    }
    assert(again =~= after);
}

/// Not the sale of this receipt.
pub open spec fn other_than(id: Seq<char>) -> spec_fn(RowView) -> bool {
    |row: RowView| row.receipt_id != Some(id)
}

proof fn lemma_marked_leaves_filter(rows: Seq<RowView>, mark: SyncMarkView)
    ensures
        model::apply_mark(rows, mark).filter(model::is_queued()) == rows.filter(
            model::is_queued(),
        ).filter(other_than(mark.receipt_id)),
    decreases rows.len(),
{
    reveal(Seq::filter);
    if rows.len() > 0 {
        let front = rows.drop_last();
        let found = front.filter(model::is_queued());
        lemma_marked_leaves_filter(front, mark);
        assert(model::apply_mark(rows, mark).drop_last() =~= model::apply_mark(front, mark));
        assert(found.push(rows.last()).drop_last() =~= found);
    } else {
        assert(model::apply_mark(rows, mark) =~= rows);
    }
}

proof fn lemma_insert_by_age_filter(
    sorted: Seq<RowView>,
    row: RowView,
    pred: spec_fn(RowView) -> bool,
)
    requires
        by_age(sorted),
    ensures
        model::insert_by_age(sorted, row).filter(pred) == if pred(row) {
            model::insert_by_age(sorted.filter(pred), row)
        } else {
            sorted.filter(pred)
        },
    decreases sorted.len(),
{
    reveal(Seq::filter);
    let out = model::insert_by_age(sorted, row);
    if sorted.len() == 0 || sorted.last().created_at <= row.created_at {
        assert(out.drop_last() =~= sorted);
        let kept = sorted.filter(pred);
        if kept.len() > 0 {
            assert(kept.contains(kept[kept.len() - 1]));
            sorted.lemma_filter_contains_rev(pred, kept.last());
            let i = choose|i: int| 0 <= i < sorted.len() && sorted[i] == kept.last();
            if i < sorted.len() - 1 {
                assert(sorted[i].created_at <= sorted[sorted.len() - 1].created_at);
            }
        }
    } else {
        let front = sorted.drop_last();
        let rest = model::insert_by_age(front, row);
        lemma_insert_by_age_filter(front, row, pred);
        assert(out.drop_last() =~= rest);
        let kept = front.filter(pred);
        if pred(sorted.last()) {
            assert(kept.push(sorted.last()).drop_last() =~= kept);
        }
    }
}

proof fn lemma_oldest_first_filter(
    rows: Seq<RowView>,
    pred: spec_fn(RowView) -> bool,
)
    ensures
        model::oldest_first(rows.filter(pred)) == model::oldest_first(rows).filter(pred),
    decreases rows.len(),
{
    reveal(Seq::filter);
    if rows.len() > 0 {
        let front = rows.drop_last();
        let kept = front.filter(pred);
        lemma_oldest_first_filter(front, pred);
        law_oldest_first(front, 0);
        lemma_insert_by_age_filter(model::oldest_first(front), rows.last(), pred);
        assert(kept.push(rows.last()).drop_last() =~= kept);
    }
}

proof fn lemma_oldest_first_unique(rows: Seq<RowView>)
    requires
        model::receipts_unique(rows),
    ensures
        model::receipts_unique(model::oldest_first(rows)),
    decreases rows.len(),
{
    if rows.len() > 0 {
        let front = rows.drop_last();
        let sorted = model::oldest_first(front);
        assert forall|i: int, j: int| 0 <= i < j < front.len() implies model::apart(
            #[trigger] front[i],
            #[trigger] front[j],
        ) by {
            assert(model::apart(rows[i], rows[j]));
        }
        lemma_oldest_first_unique(front);
        lemmas::lemma_oldest_first_contains(front);
        assert forall|i: int| 0 <= i < sorted.len() implies model::apart(
            #[trigger] sorted[i],
            rows.last(),
        ) by {
            assert(sorted.contains(sorted[i]));
            let m = choose|m: int| 0 <= m < front.len() && front[m] == sorted[i];
            assert(model::apart(rows[m], rows[rows.len() - 1]));
        }
        lemma_insert_by_age_unique(sorted, rows.last());
    }
}

proof fn lemma_insert_by_age_unique(sorted: Seq<RowView>, row: RowView)
    requires
        model::receipts_unique(sorted),
        forall|i: int| 0 <= i < sorted.len() ==> model::apart(#[trigger] sorted[i], row),
    ensures
        model::receipts_unique(model::insert_by_age(sorted, row)),
    decreases sorted.len(),
{
    let out = model::insert_by_age(sorted, row);
    if sorted.len() == 0 || sorted.last().created_at <= row.created_at {
        assert forall|i: int, j: int| 0 <= i < j < out.len() implies model::apart(
            #[trigger] out[i],
            #[trigger] out[j],
        ) by {
            assert(model::apart(sorted[i], row));
        }
    } else {
        let front = sorted.drop_last();
        let rest = model::insert_by_age(front, row);
        lemma_insert_by_age_unique(front, row);
        lemmas::lemma_insert_by_age_contains(front, row);
        assert forall|i: int, j: int| 0 <= i < j < out.len() implies model::apart(
            #[trigger] out[i],
            #[trigger] out[j],
        ) by {
            if j == rest.len() {
                assert(rest.contains(rest[i]));
                assert(model::apart(sorted[sorted.len() - 1], row));
                if rest[i] != row {
                    let m = choose|m: int| 0 <= m < front.len() && front[m] == rest[i];
                    assert(model::apart(sorted[m], sorted[sorted.len() - 1]));
                }
            }
        }
    }
}

proof fn lemma_filter_unique(
    rows: Seq<RowView>,
    pred: spec_fn(RowView) -> bool,
)
    requires
        model::receipts_unique(rows),
    ensures
        model::receipts_unique(rows.filter(pred)),
    decreases rows.len(),
{
    reveal(Seq::filter);
    if rows.len() > 0 {
        let front = rows.drop_last();
        let kept = front.filter(pred);
        assert forall|i: int, j: int| 0 <= i < j < front.len() implies model::apart(
            #[trigger] front[i],
            #[trigger] front[j],
        ) by {
            assert(model::apart(rows[i], rows[j]));
        }
        lemma_filter_unique(front, pred);
        if pred(rows.last()) {
            assert forall|i: int| 0 <= i < kept.len() implies model::apart(
                #[trigger] kept[i],
                rows.last(),
            ) by {
                assert(kept.contains(kept[i]));
                front.lemma_filter_contains_rev(pred, kept[i]);
                let m = choose|m: int| 0 <= m < front.len() && front[m] == kept[i];
                assert(model::apart(rows[m], rows[rows.len() - 1]));
            }
            let out = kept.push(rows.last());
            assert forall|i: int, j: int| 0 <= i < j < out.len() implies model::apart(
                #[trigger] out[i],
                #[trigger] out[j],
            ) by {
                assert(model::apart(kept[i], rows.last()));
            }
        }
    }
}

proof fn lemma_filter_all<A>(s: Seq<A>, pred: spec_fn(A) -> bool)
    requires
        forall|i: int| 0 <= i < s.len() ==> pred(#[trigger] s[i]),
    ensures
        s.filter(pred) == s,
    decreases s.len(),
{
    reveal(Seq::filter);
    if s.len() > 0 {
        let front = s.drop_last();
        assert forall|i: int| 0 <= i < front.len() implies pred(#[trigger] front[i]) by {
            assert(front[i] == s[i]);
        }
        lemma_filter_all(front, pred);
        assert(front.push(s.last()) =~= s);
    }
}

/// A push of the first in the outbox takes it out, and moves no other.
pub proof fn law_push_takes_the_first_out(rows: Seq<RowView>, mark: SyncMarkView)
    requires
        model::receipts_unique(rows),
        model::queue(rows).len() > 0,
        model::queue(rows).first().receipt_id == Some(mark.receipt_id),
    ensures
        model::queue(model::apply_mark(rows, mark)) == model::queue(rows).drop_first(),
{
    reveal(Seq::filter);
    let found = rows.filter(model::is_queued());
    let queue = model::queue(rows);
    let others = other_than(mark.receipt_id);
    lemma_marked_leaves_filter(rows, mark);
    lemma_oldest_first_filter(found, others);
    lemma_filter_unique(rows, model::is_queued());
    lemma_oldest_first_unique(found);
    let first = seq![queue.first()];
    let rest = queue.drop_first();
    assert(queue =~= first + rest);
    Seq::filter_distributes_over_add(first, rest, others);
    lemmas::lemma_filter_none(first, others);
    assert forall|i: int| 0 <= i < rest.len() implies others(#[trigger] rest[i]) by {
        assert(model::apart(queue[0], queue[i + 1]));
    }
    lemma_filter_all(rest, others);
    assert(Seq::<RowView>::empty() + rest =~= rest);
}

/// Pushes of the first in the outbox go oldest first: after any number of them
/// the outbox is what it was without as many from its front. So where the push of
/// a sale fails in the middle of a pass, what was pushed before it is out of the
/// outbox and the sale is the first of what is left: it is retried first.
pub proof fn law_failed_push_is_retried(rows: Seq<RowView>, marks: Seq<SyncMarkView>)
    requires
        model::receipts_unique(rows),
        marks.len() <= model::queue(rows).len(),
        forall|k: int|
            0 <= k < marks.len() ==> model::queue(rows)[k].receipt_id == Some(
                (#[trigger] marks[k]).receipt_id,
            ),
    ensures
        model::queue(model::apply_marks(rows, marks)) == model::queue(rows).skip(marks.len() as int),
        model::receipts_unique(model::apply_marks(rows, marks)),
        extends(rows, model::apply_marks(rows, marks)),
    decreases marks.len(),
{
    let queue = model::queue(rows);
    if marks.len() == 0 {
        assert(queue.skip(0) =~= queue);
    } else {
        let front = marks.drop_last();
        assert forall|k: int| 0 <= k < front.len() implies queue[k].receipt_id == Some(
            (#[trigger] front[k]).receipt_id,
        ) by {
            assert(front[k] == marks[k]);
        }
        law_failed_push_is_retried(rows, front);
        let partly = model::apply_marks(rows, front);
        assert(queue[marks.len() - 1].receipt_id == Some(marks[marks.len() - 1].receipt_id));
        assert(model::queue(partly).first() == queue[marks.len() - 1]);
        law_push_takes_the_first_out(partly, marks.last());
        law_push_keeps_receipts_unique(partly, marks.last());
        law_push_is_append_only(partly, marks.last());
        law_append_only_steps_add_up(rows, partly, model::apply_marks(rows, marks));
        assert(queue.skip(front.len() as int).drop_first() =~= queue.skip(marks.len() as int));
    }
}

// --- status ---------------------------------------------------------------------

/// Every sale is either synced or queued, and the outbox is as deep as the
/// status says.
pub proof fn law_status_adds_up(rows: Seq<RowView>)
    requires
        model::flags_valid(rows),
        model::countable(rows),
    ensures
        model::flags_fit(rows),
        model::flag_total(rows) + rows.filter(model::is_queued()).len() == rows.len(),
        model::queue(rows).len() == rows.filter(model::is_queued()).len(),
{
    lemmas::lemma_flags_add_up(rows);
    lemma_synced_or_queued(rows);
    lemmas::lemma_oldest_first_contains(rows.filter(model::is_queued()));
}

proof fn lemma_synced_or_queued(rows: Seq<RowView>)
    ensures
        rows.filter(model::is_synced()).len() + rows.filter(model::is_queued()).len()
            == rows.len(),
    decreases rows.len(),
{
    reveal(Seq::filter);
    if rows.len() > 0 {
        lemma_synced_or_queued(rows.drop_last());
    }
}

/// The last sync is the latest time at which a row was pushed; there is none only
/// where none ever was.
pub proof fn law_last_sync_is_the_latest(rows: Seq<RowView>)
    ensures
        match model::last_synced_at(rows) {
            Some(at) => {
                &&& exists|i: int| 0 <= i < rows.len() && (#[trigger] rows[i]).synced_at == Some(at)
                &&& forall|i: int|
                    0 <= i < rows.len() ==> ((#[trigger] rows[i]).synced_at matches Some(t) ==> t
                        <= at)
            },
            None => forall|i: int| 0 <= i < rows.len() ==> (#[trigger] rows[i]).synced_at is None,
        },
    decreases rows.len(),
{
    if rows.len() > 0 {
        let front = rows.drop_last();
        law_last_sync_is_the_latest(front);
        assert(rows[rows.len() - 1] == rows.last());
        assert forall|i: int| 0 <= i < front.len() implies rows[i] == #[trigger] front[i] by {
        }
        match model::last_synced_at(front) {
            Some(at) => {
                let i = choose|i: int|
                    0 <= i < front.len() && (#[trigger] front[i]).synced_at == Some(at);
                assert(rows[i].synced_at == Some(at));
            },
            None => {},
        }
        match model::last_synced_at(rows) {
            Some(at) => {
                assert forall|i: int| 0 <= i < rows.len() implies ((
                #[trigger] rows[i]).synced_at matches Some(t) ==> t <= at) by {
                    if i < front.len() {
                        assert(front[i] == rows[i]);
                    }
                }
            },
            None => {
                assert forall|i: int| 0 <= i < rows.len() implies (
                #[trigger] rows[i]).synced_at is None by {
                    if i < front.len() {
                        assert(front[i] == rows[i]);
                    }
                }
            },
        }
    }
}

// --- tallies --------------------------------------------------------------------

/// A tally has a group for each key that occurs, once, in ascending order; the
/// group holds the sum and the number of the sales with that key.
pub proof fn law_tally_groups(rows: Seq<RowView>, column: TallyColumn)
    ensures
        ({
            let groups = model::tally(rows, column);
            &&& forall|i: int, j: int|
                0 <= i < j < groups.len() ==> text::precedes(
                    (#[trigger] groups[i]).key,
                    (#[trigger] groups[j]).key,
                )
            &&& forall|i: int|
                0 <= i < groups.len() ==> {
                    let group = #[trigger] groups[i];
                    &&& group.total_cents == model::total_for(rows, column, group.key)
                    &&& group.count == model::count_for(rows, column, group.key)
                    &&& group.count > 0
                }
            &&& forall|k: int|
                0 <= k < rows.len() ==> exists|i: int|
                    0 <= i < groups.len() && (#[trigger] groups[i]).key == model::key_of(
                        column,
                        #[trigger] rows[k],
                    )
        }),
{
    let groups = model::tally(rows, column);
    let keys = model::group_keys(rows, column);
    lemmas::lemma_group_keys(rows, column);
    assert forall|i: int, j: int| 0 <= i < j < groups.len() implies text::precedes(
        (#[trigger] groups[i]).key,
        (#[trigger] groups[j]).key,
    ) by {
        assert(groups[i].key == keys[i] && groups[j].key == keys[j]);
    }
    assert forall|i: int| 0 <= i < groups.len() implies (#[trigger] groups[i]).count > 0 by {
        assert(keys.contains(keys[i]));
        let k = choose|k: int|
            0 <= k < rows.len() && model::key_of(column, #[trigger] rows[k]) == keys[i];
        lemma_counted(rows, column, k);
    }
    assert forall|k: int| 0 <= k < rows.len() implies exists|i: int|
        0 <= i < groups.len() && (#[trigger] groups[i]).key == model::key_of(
            column,
            #[trigger] rows[k],
        ) by {
        let key = model::key_of(column, rows[k]);
        assert(keys.contains(key));
        let i = choose|i: int| 0 <= i < keys.len() && keys[i] == key;
        assert(groups[i].key == key);
    }
}

proof fn lemma_counted(rows: Seq<RowView>, column: TallyColumn, k: int)
    requires
        0 <= k < rows.len(),
    ensures
        model::count_for(rows, column, model::key_of(column, rows[k])) > 0,
    decreases rows.len(),
{
    let key = model::key_of(column, rows[k]);
    if k < rows.len() - 1 {
        lemma_counted(rows.drop_last(), column, k);
    } else {
        lemmas::lemma_count_bound(rows.drop_last(), column, key);
    }
}

/// Totals are exact: summed up by currency or by method, the groups of a tally
/// add up to the takings, and their counts to the number of sales.
pub proof fn law_tally_adds_up(rows: Seq<RowView>, column: TallyColumn)
    ensures
        model::grand_total(model::tally(rows, column)) == model::takings(rows),
        model::grand_count(model::tally(rows, column)) == rows.len(),
{
    lemmas::lemma_tally_sums(rows, column);
}

/// A recorded sale is tallied under its key, once and in full, and changes no
/// other group.
pub proof fn law_recorded_sale_is_tallied(
    rows: Seq<RowView>,
    row: RowView,
    column: TallyColumn,
    key: Seq<char>,
)
    ensures
        model::tally_for(rows.push(row), column, key) == if model::key_of(column, row) == key {
            TallyView {
                key,
                total_cents: model::total_for(rows, column, key) + row.amount_cents,
                count: model::count_for(rows, column, key) + 1,
            }
        } else {
            model::tally_for(rows, column, key)
        },
        model::takings(rows.push(row)) == model::takings(rows) + row.amount_cents,
{
    assert(rows.push(row).drop_last() =~= rows);
}

/// The same sales in the same places.
pub open spec fn same_sales(before: Seq<RowView>, after: Seq<RowView>) -> bool {
    &&& before.len() == after.len()
    &&& forall|i: int| 0 <= i < before.len() ==> same_sale(before[i], #[trigger] after[i])
}

proof fn lemma_same_sales_front(before: Seq<RowView>, after: Seq<RowView>)
    requires
        same_sales(before, after),
        before.len() > 0,
    ensures
        same_sales(before.drop_last(), after.drop_last()),
        same_sale(before.last(), after.last()),
{
    assert(same_sale(before[before.len() - 1], after[before.len() - 1]));
    assert forall|i: int| 0 <= i < before.len() - 1 implies same_sale(
        before.drop_last()[i],
        #[trigger] after.drop_last()[i],
    ) by {
        assert(same_sale(before[i], after[i]));
    }
}

proof fn lemma_same_sales_filter(
    before: Seq<RowView>,
    after: Seq<RowView>,
    since_ms: Option<i64>,
    until_ms: Option<i64>,
)
    requires
        same_sales(before, after),
    ensures
        same_sales(
            before.filter(model::in_window(since_ms, until_ms)),
            after.filter(model::in_window(since_ms, until_ms)),
        ),
    decreases before.len(),
{
    reveal(Seq::filter);
    if before.len() > 0 {
        lemma_same_sales_front(before, after);
        lemma_same_sales_filter(before.drop_last(), after.drop_last(), since_ms, until_ms);
    }
}

proof fn lemma_same_sales_sums(
    before: Seq<RowView>,
    after: Seq<RowView>,
    column: TallyColumn,
    key: Seq<char>,
)
    requires
        same_sales(before, after),
    ensures
        model::group_keys(before, column) == model::group_keys(after, column),
        model::total_for(before, column, key) == model::total_for(after, column, key),
        model::count_for(before, column, key) == model::count_for(after, column, key),
    decreases before.len(),
{
    if before.len() > 0 {
        lemma_same_sales_front(before, after);
        lemma_same_sales_sums(before.drop_last(), after.drop_last(), column, key);
    }
}

proof fn lemma_same_sales_fit(
    before: Seq<RowView>,
    after: Seq<RowView>,
    column: TallyColumn,
)
    requires
        same_sales(before, after),
        model::totals_fit(before, column),
    ensures
        model::totals_fit(after, column),
{
    assert forall|n: int, key: Seq<char>| 0 <= n <= after.len() implies i64::MIN
        <= #[trigger] model::total_for(after.take(n), column, key) <= i64::MAX by {
        assert forall|i: int| 0 <= i < n implies same_sale(
            before.take(n)[i],
            #[trigger] after.take(n)[i],
        ) by {
            assert(same_sale(before[i], after[i]));
        }
        lemma_same_sales_sums(before.take(n), after.take(n), column, key);
    }
}

/// Pushing sales to Square changes no tally, in whatever window.
pub proof fn law_push_changes_no_tally(
    before: Seq<RowView>,
    after: Seq<RowView>,
    since_ms: Option<i64>,
    until_ms: Option<i64>,
    column: TallyColumn,
)
    requires
        extends(before, after),
        after.len() == before.len(),
    ensures
        ({
            let sales_before = before.filter(model::in_window(since_ms, until_ms));
            let sales_after = after.filter(model::in_window(since_ms, until_ms));
            &&& model::tally(sales_after, column) == model::tally(sales_before, column)
            &&& model::totals_fit(sales_after, column) <==> model::totals_fit(sales_before, column)
        }),
{
    let sales_before = before.filter(model::in_window(since_ms, until_ms));
    let sales_after = after.filter(model::in_window(since_ms, until_ms));
    assert(same_sales(before, after));
    lemma_same_sales_filter(before, after, since_ms, until_ms);
    lemma_same_sales_sums(sales_before, sales_after, column, seq![]);
    assert forall|k: int| 0 <= k < model::group_keys(sales_before, column).len() implies
        #[trigger] model::tally(sales_before, column)[k] == model::tally(sales_after, column)[k] by {
        let key = model::group_keys(sales_before, column)[k];
        lemma_same_sales_sums(sales_before, sales_after, column, key);
    }
    assert(model::tally(sales_after, column) =~= model::tally(sales_before, column));
    if model::totals_fit(sales_before, column) {
        lemma_same_sales_fit(sales_before, sales_after, column);
    }
    if model::totals_fit(sales_after, column) {
        assert forall|i: int| 0 <= i < sales_after.len() implies same_sale(
            sales_after[i],
            #[trigger] sales_before[i],
        ) by {
            assert(same_sale(sales_before[i], sales_after[i]));
        }
        lemma_same_sales_fit(sales_after, sales_before, column);
    }
}

/// A window that every sale was made before, or after, tallies nothing.
pub proof fn law_window_outside_tallies_nothing(
    rows: Seq<RowView>,
    since_ms: Option<i64>,
    until_ms: Option<i64>,
    column: TallyColumn,
)
    requires
        forall|i: int|
            0 <= i < rows.len() ==> {
                ||| (since_ms matches Some(s) && (#[trigger] rows[i]).created_at < s)
                ||| (until_ms matches Some(u) && u < rows[i].created_at)
            },
    ensures
        rows.filter(model::in_window(since_ms, until_ms)).len() == 0,
        model::tally(rows.filter(model::in_window(since_ms, until_ms)), column).len() == 0,
        model::totals_fit(rows.filter(model::in_window(since_ms, until_ms)), column),
{
    lemmas::lemma_filter_none(rows, model::in_window(since_ms, until_ms));
    let none = rows.filter(model::in_window(since_ms, until_ms));
    assert forall|n: int, key: Seq<char>| 0 <= n <= none.len() implies i64::MIN
        <= #[trigger] model::total_for(none.take(n), column, key) <= i64::MAX by {
        assert(none.take(n).len() == 0);
    }
}

/// Without a window every sale is tallied.
pub proof fn law_open_window_tallies_everything(rows: Seq<RowView>)
    ensures
        rows.filter(model::in_window(None, None)) == rows,
{
    lemma_filter_all(rows, model::in_window(None, None));
}

proof fn lemma_total_grows(
    rows: Seq<RowView>,
    column: TallyColumn,
    key: Seq<char>,
    n: int,
)
    requires
        0 <= n <= rows.len(),
        forall|i: int| 0 <= i < rows.len() ==> (#[trigger] rows[i]).amount_cents > 0,
    ensures
        0 <= model::total_for(rows.take(n), column, key) <= model::total_for(rows, column, key),
    decreases rows.len(),
{
    if n == rows.len() {
        assert(rows.take(n) =~= rows);
        if n > 0 {
            let front = rows.drop_last();
            assert forall|i: int| 0 <= i < front.len() implies (
            #[trigger] front[i]).amount_cents > 0 by {
                assert(rows[i].amount_cents > 0);
            }
            lemma_total_grows(front, column, key, n - 1);
            assert(front.take(n - 1) =~= front);
            assert(rows[n - 1].amount_cents > 0);
        }
    } else {
        let front = rows.drop_last();
        assert forall|i: int| 0 <= i < front.len() implies (
        #[trigger] front[i]).amount_cents > 0 by {
            assert(rows[i].amount_cents > 0);
        }
        lemma_total_grows(front, column, key, n);
        assert(front.take(n) =~= rows.take(n));
        assert(rows[rows.len() - 1].amount_cents > 0);
    }
}

/// Of sales with positive amounts a tally fails only where a total itself is
/// more than an `i64` holds, whatever order they are added up in.
pub proof fn law_tally_fails_only_on_a_large_total(
    rows: Seq<RowView>,
    column: TallyColumn,
)
    requires
        forall|i: int| 0 <= i < rows.len() ==> (#[trigger] rows[i]).amount_cents > 0,
    ensures
        model::totals_fit(rows, column) <==> forall|key: Seq<char>| #[trigger]
            model::total_for(rows, column, key) <= i64::MAX,
{
    if model::totals_fit(rows, column) {
        assert forall|key: Seq<char>| #[trigger]
            model::total_for(rows, column, key) <= i64::MAX by {
            assert(rows.take(rows.len() as int) =~= rows);
            assert(model::total_for(rows.take(rows.len() as int), column, key) <= i64::MAX);
        }
    }
    if forall|key: Seq<char>| #[trigger] model::total_for(rows, column, key) <= i64::MAX {
        assert forall|n: int, key: Seq<char>| 0 <= n <= rows.len() implies i64::MIN
            <= #[trigger] model::total_for(rows.take(n), column, key) <= i64::MAX by {
            lemma_total_grows(rows, column, key, n);
        }
    }
}

// --- what every ledger keeps ----------------------------------------------------

/// A row in order: it has a receipt id, the amount is positive, the flag is 0 or
/// 1, and it carries an id of Square's and the time of the push if and only if the
/// flag is 1.
pub open spec fn row_in_order(row: RowView) -> bool {
    &&& row.receipt_id is Some
    &&& row.amount_cents > 0
    &&& row.synced == 0 || row.synced == 1
    &&& if row.synced == 1 {
        (row.square_id matches Some(id) && id.len() > 0) && row.synced_at is Some
    } else {
        row.square_id is None && row.synced_at is None
    }
}

/// A ledger in order: every row is.
pub open spec fn in_order(rows: Seq<RowView>) -> bool {
    forall|i: int| 0 <= i < rows.len() ==> row_in_order(#[trigger] rows[i])
}

/// An empty ledger is in order, and recording a sale that is not refused keeps it
/// so.
pub proof fn law_recording_keeps_order(
    rows: Seq<RowView>,
    receipt_id: Seq<char>,
    now: int,
    amount_cents: int,
    currency: Seq<char>,
    item: Seq<char>,
    method: Seq<char>,
    note: Option<Seq<char>>,
)
    requires
        in_order(rows),
        model::sale_refusal(amount_cents, item, method) is None,
    ensures
        in_order(Seq::<RowView>::empty()),
        in_order(
            rows.push(
                model::encoded(
                    model::recorded_sale(
                        receipt_id,
                        now,
                        amount_cents,
                        currency,
                        item,
                        method,
                        note,
                    ),
                ),
            ),
        ),
{
}

/// Writing down a push that Square gave an id to keeps a ledger in order.
pub proof fn law_push_keeps_order(rows: Seq<RowView>, mark: SyncMarkView)
    requires
        in_order(rows),
        mark.square_id.len() > 0,
    ensures
        in_order(model::apply_mark(rows, mark)),
{
    let marked = model::apply_mark(rows, mark);
    assert forall|i: int| 0 <= i < marked.len() implies row_in_order(#[trigger] marked[i]) by {
        assert(row_in_order(rows[i]));
    }
}

/// A pass over the outbox keeps a ledger in order.
pub proof fn law_sync_keeps_order(before: Seq<RowView>, after: Seq<RowView>)
    requires
        in_order(before),
        model::fully_pushed(before, after),
    ensures
        in_order(after),
{
    assert forall|i: int| 0 <= i < after.len() implies row_in_order(#[trigger] after[i]) by {
        assert(row_in_order(before[i]));
        assert(model::pushed_row(before[i], after[i]));
        law_square_ids_tell_sales_apart(before[i].receipt_id->0, before[i].receipt_id->0);
    }
}

/// Square's ids are not empty, and different sales get different ones.
pub proof fn law_square_ids_tell_sales_apart(a: Seq<char>, b: Seq<char>)
    ensures
        model::square_id_of(a).len() == a.len() + 3,
        model::square_id_of(a) == model::square_id_of(b) ==> a == b,
{
    reveal_strlit("sq_");
    if model::square_id_of(a) == model::square_id_of(b) {
        assert(a =~= model::square_id_of(a).skip(3));
        assert(b =~= model::square_id_of(b).skip(3));
    }
}

/// In a ledger in order every row has a receipt id to be read under, and the flags
/// can be summed up where the rows can be counted: no row is refused, and no
/// status.
pub proof fn law_in_order_never_refuses(
    rows: Seq<RowView>,
    picked: spec_fn(RowView) -> bool,
)
    requires
        in_order(rows),
    ensures
        model::named(rows, picked),
        model::flags_valid(rows),
        model::countable(rows) ==> model::flags_fit(rows),
{
    assert forall|i: int| 0 <= i < rows.len() implies 0 <= (#[trigger] rows[i]).synced <= 1
        && rows[i].receipt_id is Some by {
        assert(row_in_order(rows[i]));
    }
    if model::countable(rows) {
        lemmas::lemma_flags_add_up(rows);
    }
}

// --- reconciling ----------------------------------------------------------------

proof fn lemma_receipts_of(rows: Seq<RowView>, pred: spec_fn(RowView) -> bool)
    requires
        model::named(rows, pred),
    ensures
        forall|id: Seq<char>| #[trigger]
            model::receipts(model::oldest_first(rows.filter(pred))).contains(id) <==> exists|i: int|
                0 <= i < rows.len() && pred(#[trigger] rows[i]) && rows[i].receipt_id == Some(id),
{
    let found = rows.filter(pred);
    let sorted = model::oldest_first(found);
    let ids = model::receipts(sorted);
    lemmas::lemma_oldest_first_contains(found);
    assert forall|id: Seq<char>| #[trigger] ids.contains(id) <==> exists|i: int|
        0 <= i < rows.len() && pred(#[trigger] rows[i]) && rows[i].receipt_id == Some(id) by {
        if ids.contains(id) {
            let k = choose|k: int| 0 <= k < ids.len() && ids[k] == id;
            assert(sorted.contains(sorted[k]));
            assert(found.contains(sorted[k]));
            let m = choose|m: int| 0 <= m < found.len() && found[m] == sorted[k];
            rows.lemma_filter_pred(pred, m);
            rows.lemma_filter_contains_rev(pred, found[m]);
            let i = choose|i: int| 0 <= i < rows.len() && rows[i] == found[m];
            assert(pred(rows[i]) && rows[i].receipt_id == Some(id));
        }
        if exists|i: int|
            0 <= i < rows.len() && pred(#[trigger] rows[i]) && rows[i].receipt_id == Some(id) {
            let i = choose|i: int|
                0 <= i < rows.len() && pred(#[trigger] rows[i]) && rows[i].receipt_id == Some(id);
            rows.lemma_filter_contains(pred, i);
            assert(sorted.contains(rows[i]));
            let k = choose|k: int| 0 <= k < sorted.len() && sorted[k] == rows[i];
            assert(ids[k] == id);
        }
    }
}

/// A reconcile flags every anomaly and nothing else: the sales still queued and
/// older than the threshold, and the synced ones without an id of Square's.
pub proof fn law_reconcile_flags_the_anomalies(
    rows: Seq<RowView>,
    now: int,
    threshold_ms: int,
)
    requires
        model::named(rows, model::is_stuck(now, threshold_ms)),
        model::named(rows, model::is_unlinked()),
    ensures
        forall|id: Seq<char>| #[trigger]
            model::reconcile_report(rows, now, threshold_ms).stuck_unsynced.contains(id)
                <==> exists|i: int|
                0 <= i < rows.len() && model::is_stuck(now, threshold_ms)(#[trigger] rows[i])
                    && rows[i].receipt_id == Some(id),
        forall|id: Seq<char>| #[trigger]
            model::reconcile_report(rows, now, threshold_ms).synced_without_square_id.contains(id)
                <==> exists|i: int|
                0 <= i < rows.len() && model::is_unlinked()(#[trigger] rows[i])
                    && rows[i].receipt_id == Some(id),
{
    lemma_receipts_of(rows, model::is_stuck(now, threshold_ms));
    lemma_receipts_of(rows, model::is_unlinked());
}

/// After a pass over the outbox nothing is stuck, whatever the threshold and
/// whenever it is asked.
pub proof fn law_nothing_is_stuck_after_a_sync(
    before: Seq<RowView>,
    after: Seq<RowView>,
    now: int,
    threshold_ms: int,
)
    requires
        model::fully_pushed(before, after),
    ensures
        model::reconcile_report(after, now, threshold_ms).stuck_unsynced.len() == 0,
{
    let stuck = model::is_stuck(now, threshold_ms);
    assert forall|i: int| 0 <= i < after.len() implies !stuck(#[trigger] after[i]) by {
        assert(model::pushed_row(before[i], after[i]));
    }
    lemmas::lemma_filter_none(after, stuck);
}

/// In a ledger in order no synced sale is without an id of Square's.
pub proof fn law_in_order_has_no_unlinked(
    rows: Seq<RowView>,
    now: int,
    threshold_ms: int,
)
    requires
        in_order(rows),
    ensures
        model::reconcile_report(rows, now, threshold_ms).synced_without_square_id.len() == 0,
{
    let unlinked = model::is_unlinked();
    assert forall|i: int| 0 <= i < rows.len() implies !unlinked(#[trigger] rows[i]) by {
        assert(row_in_order(rows[i]));
    }
    lemmas::lemma_filter_none(rows, unlinked);
}

} // verus!
