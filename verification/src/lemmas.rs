//! Lemmas on the model that the store's functions and the laws rest on.

use vstd::prelude::*;

use crate::model;
use crate::model::{TallyView, RowView};
use crate::store::TallyColumn;
use crate::text;

verus! {

// --- filters --------------------------------------------------------------------

/// What is filtered out of a sequence begins with what is filtered out of its
/// beginning.
pub proof fn lemma_filter_prefix<A>(s: Seq<A>, pred: spec_fn(A) -> bool, n: int)
    requires
        0 <= n <= s.len(),
    ensures
        s.take(n).filter(pred).len() <= s.filter(pred).len(),
        s.filter(pred).take(s.take(n).filter(pred).len() as int) == s.take(n).filter(pred),
{
    assert(s =~= s.take(n) + s.skip(n));
    Seq::filter_distributes_over_add(s.take(n), s.skip(n), pred);
    let front = s.take(n).filter(pred);
    assert(s.filter(pred).take(front.len() as int) =~= front);
}

/// Nothing is filtered out where nothing passes.
pub proof fn lemma_filter_none<A>(s: Seq<A>, pred: spec_fn(A) -> bool)
    requires
        forall|i: int| 0 <= i < s.len() ==> !pred(#[trigger] s[i]),
    ensures
        s.filter(pred) == Seq::<A>::empty(),
    decreases s.len(),
{
    reveal(Seq::filter);
    if s.len() > 0 {
        let front = s.drop_last();
        assert forall|i: int| 0 <= i < front.len() implies !pred(#[trigger] front[i]) by {
            assert(front[i] == s[i]);
        }
        lemma_filter_none(front, pred);
    } else {
        assert(s =~= Seq::<A>::empty());
    }
}

// --- receipts -------------------------------------------------------------------

/// The first row with a receipt id is the one before which none carries it.
pub proof fn lemma_find_receipt(rows: Seq<RowView>, receipt_id: Seq<char>, at: int)
    requires
        0 <= at <= rows.len(),
        forall|k: int| 0 <= k < at ==> (#[trigger] rows[k]).receipt_id != Some(receipt_id),
        at < rows.len() ==> rows[at].receipt_id == Some(receipt_id),
    ensures
        model::find_receipt(rows, receipt_id) == if at < rows.len() {
            Some(rows[at])
        } else {
            None
        },
    decreases rows.len(),
{
    if at > 0 {
        let rest = rows.drop_first();
        assert(rows[0].receipt_id != Some(receipt_id));
        assert forall|k: int| 0 <= k < at - 1 implies (#[trigger] rest[k]).receipt_id
            != Some(receipt_id) by {
            assert(rest[k] == rows[k + 1]);
        }
        lemma_find_receipt(rest, receipt_id, at - 1);
    }
}

// --- order ----------------------------------------------------------------------

/// Putting a row in its place adds that row and no other.
pub proof fn lemma_insert_by_age_contains(sorted: Seq<RowView>, row: RowView)
    ensures
        model::insert_by_age(sorted, row).len() == sorted.len() + 1,
        forall|x: RowView| #[trigger]
            model::insert_by_age(sorted, row).contains(x) <==> sorted.contains(x) || x == row,
    decreases sorted.len(),
{
    let out = model::insert_by_age(sorted, row);
    if sorted.len() == 0 || sorted.last().created_at <= row.created_at {
        assert forall|x: RowView| #[trigger] out.contains(x) <==> sorted.contains(x) || x
            == row by {
            if sorted.contains(x) {
                let i = choose|i: int| 0 <= i < sorted.len() && sorted[i] == x;
                assert(out[i] == x);
            }
            assert(out[sorted.len() as int] == row);
        }
    } else {
        let front = sorted.drop_last();
        let rest = model::insert_by_age(front, row);
        lemma_insert_by_age_contains(front, row);
        assert forall|x: RowView| #[trigger] out.contains(x) <==> sorted.contains(x) || x
            == row by {
            if out.contains(x) {
                let i = choose|i: int| 0 <= i < out.len() && out[i] == x;
                if i < rest.len() {
                    assert(rest.contains(x));
                    if x != row {
                        let m = choose|m: int| 0 <= m < front.len() && front[m] == x;
                        assert(sorted[m] == x);
                    }
                } else {
                    assert(sorted[sorted.len() - 1] == x);
                }
            }
            if sorted.contains(x) || x == row {
                if front.contains(x) || x == row {
                    assert(rest.contains(x));
                    let m = choose|m: int| 0 <= m < rest.len() && rest[m] == x;
                    assert(out[m] == x);
                } else {
                    let i = choose|i: int| 0 <= i < sorted.len() && sorted[i] == x;
                    if i < front.len() {
                        assert(front[i] == x);
                    }
                    assert(out[rest.len() as int] == x);
                }
            }
        }
    }
}

/// Ordering the rows keeps every row and adds none.
pub proof fn lemma_oldest_first_contains(rows: Seq<RowView>)
    ensures
        model::oldest_first(rows).len() == rows.len(),
        forall|x: RowView| #[trigger]
            model::oldest_first(rows).contains(x) <==> rows.contains(x),
    decreases rows.len(),
{
    if rows.len() > 0 {
        let front = rows.drop_last();
        lemma_oldest_first_contains(front);
        lemma_insert_by_age_contains(model::oldest_first(front), rows.last());
        assert forall|x: RowView| #[trigger]
            model::oldest_first(rows).contains(x) <==> rows.contains(x) by {
            if rows.contains(x) {
                let i = choose|i: int| 0 <= i < rows.len() && rows[i] == x;
                if i < front.len() {
                    assert(front[i] == x);
                    assert(front.contains(x));
                }
            }
            if front.contains(x) {
                let i = choose|i: int| 0 <= i < front.len() && front[i] == x;
                assert(rows[i] == x);
            }
            assert(rows[rows.len() - 1] == rows.last());
        }
    }
}

/// The outbox holds exactly the rows whose flag is 0.
pub proof fn lemma_queue_contains(rows: Seq<RowView>, row: RowView)
    ensures
        model::queue(rows).contains(row) <==> rows.contains(row) && row.synced == 0,
{
    let found = rows.filter(model::is_queued());
    lemma_oldest_first_contains(found);
    if rows.contains(row) && row.synced == 0 {
        let i = choose|i: int| 0 <= i < rows.len() && rows[i] == row;
        rows.lemma_filter_contains(model::is_queued(), i);
    }
    if found.contains(row) {
        let i = choose|i: int| 0 <= i < found.len() && found[i] == row;
        rows.lemma_filter_pred(model::is_queued(), i);
        rows.lemma_filter_contains_rev(model::is_queued(), row);
    }
}

// --- flags ----------------------------------------------------------------------

/// Flags that are 0 or 1 sum up to the number of rows that are synced, which is
/// no more than there are rows.
proof fn lemma_flag_total(rows: Seq<RowView>)
    requires
        model::flags_valid(rows),
    ensures
        model::flag_total(rows) == rows.filter(model::is_synced()).len(),
        model::flag_total(rows) <= rows.len(),
    decreases rows.len(),
{
    reveal(Seq::filter);
    if rows.len() > 0 {
        let front = rows.drop_last();
        assert forall|i: int| 0 <= i < front.len() implies 0 <= (#[trigger] front[i]).synced
            <= 1 by {
            assert(front[i] == rows[i]);
        }
        assert(rows[rows.len() - 1] == rows.last());
        lemma_flag_total(front);
    }
}

/// Flags that are 0 or 1 can be summed up where the rows can be counted, and the
/// sum is the number of rows that are synced.
pub proof fn lemma_flags_add_up(rows: Seq<RowView>)
    requires
        model::flags_valid(rows),
        model::countable(rows),
    ensures
        model::flags_fit(rows),
        model::flag_total(rows) == rows.filter(model::is_synced()).len(),
{
    lemma_flag_total(rows);
    assert forall|n: int| 0 <= n <= rows.len() implies i64::MIN <= #[trigger] model::flag_total(
        rows.take(n),
    ) <= i64::MAX by {
        assert forall|i: int| 0 <= i < n implies 0 <= (#[trigger] rows.take(n)[i]).synced <= 1 by {
            assert(rows.take(n)[i] == rows[i]);
        }
        lemma_flag_total(rows.take(n));
    }
}

// --- groups ---------------------------------------------------------------------

/// Each key precedes those behind it.
pub open spec fn ascending(keys: Seq<Seq<char>>) -> bool {
    forall|i: int, j: int|
        0 <= i < j < keys.len() ==> text::precedes(#[trigger] keys[i], #[trigger] keys[j])
}

/// Inserting a key keeps the order and adds nothing but the key.
pub proof fn lemma_insert_key_ascending(keys: Seq<Seq<char>>, key: Seq<char>)
    requires
        ascending(keys),
    ensures
        ascending(model::insert_key(keys, key)),
        forall|k: Seq<char>| #[trigger]
            model::insert_key(keys, key).contains(k) <==> keys.contains(k) || k == key,
    decreases keys.len(),
{
    let out = model::insert_key(keys, key);
    if keys.len() == 0 || text::precedes(keys.last(), key) {
        assert forall|i: int, j: int| 0 <= i < j < out.len() implies text::precedes(
            #[trigger] out[i],
            #[trigger] out[j],
        ) by {
            if j == keys.len() && i < keys.len() - 1 {
                text::lemma_precedes_transitive(keys[i], keys.last(), key);
            }
        }
        assert forall|k: Seq<char>| #[trigger] out.contains(k) <==> keys.contains(k) || k == key by {
            if keys.contains(k) {
                let i = choose|i: int| 0 <= i < keys.len() && keys[i] == k;
                assert(out[i] == k);
            }
            assert(out[keys.len() as int] == key);
        }
    } else if keys.last() == key {
    } else {
        let front = keys.drop_last();
        let rest = model::insert_key(front, key);
        lemma_insert_key_ascending(front, key);
        text::lemma_precedes_total(keys.last(), key);
        assert forall|i: int, j: int| 0 <= i < j < out.len() implies text::precedes(
            #[trigger] out[i],
            #[trigger] out[j],
        ) by {
            if j == rest.len() {
                assert(rest.contains(rest[i]));
                if rest[i] != key {
                    let m = choose|m: int| 0 <= m < front.len() && front[m] == rest[i];
                    assert(keys[m] == rest[i]);
                }
            }
        }
        assert forall|k: Seq<char>| #[trigger] out.contains(k) <==> keys.contains(k) || k == key by {
            if out.contains(k) {
                let i = choose|i: int| 0 <= i < out.len() && out[i] == k;
                if i < rest.len() {
                    assert(rest.contains(k));
                    if k != key {
                        let m = choose|m: int| 0 <= m < front.len() && front[m] == k;
                        assert(keys[m] == k);
                    }
                }
            }
            if keys.contains(k) {
                let i = choose|i: int| 0 <= i < keys.len() && keys[i] == k;
                if i < front.len() {
                    assert(front[i] == k);
                    assert(rest.contains(k));
                    let m = choose|m: int| 0 <= m < rest.len() && rest[m] == k;
                    assert(out[m] == k);
                } else {
                    assert(out[rest.len() as int] == k);
                }
            }
            if k == key {
                assert(rest.contains(k));
                let m = choose|m: int| 0 <= m < rest.len() && rest[m] == k;
                assert(out[m] == k);
            }
        }
    }
}

/// The place of a key is the first whose key does not precede it.
pub proof fn lemma_insert_key_at(keys: Seq<Seq<char>>, key: Seq<char>, at: int)
    requires
        ascending(keys),
        0 <= at <= keys.len(),
        forall|k: int| 0 <= k < at ==> text::precedes(#[trigger] keys[k], key),
        at < keys.len() ==> !text::precedes(keys[at], key),
    ensures
        model::insert_key(keys, key) == if at < keys.len() && keys[at] == key {
            keys
        } else {
            keys.insert(at, key)
        },
    decreases keys.len(),
{
    if keys.len() == 0 {
        assert(keys.insert(at, key) =~= keys.push(key));
    } else if text::precedes(keys.last(), key) {
        if at < keys.len() - 1 {
            text::lemma_precedes_transitive(keys[at], keys.last(), key);
        }
        assert(keys.insert(at, key) =~= keys.push(key));
    } else if keys.last() == key {
        text::lemma_precedes_irreflexive(key);
        if at < keys.len() - 1 {
            assert(text::precedes(keys[at], keys.last()));
        }
    } else {
        let front = keys.drop_last();
        lemma_insert_key_at(front, key, at);
        assert(keys.insert(at, key) =~= front.insert(at, key).push(keys.last()));
        if at < front.len() && front[at] == key {
            assert(front.push(keys.last()) =~= keys);
        }
    }
}

/// The keys of the rows ascend, and are exactly what the column holds in them.
pub proof fn lemma_group_keys(rows: Seq<RowView>, column: TallyColumn)
    ensures
        ascending(model::group_keys(rows, column)),
        forall|k: Seq<char>| #[trigger]
            model::group_keys(rows, column).contains(k) <==> exists|i: int|
                0 <= i < rows.len() && model::key_of(column, #[trigger] rows[i]) == k,
    decreases rows.len(),
{
    if rows.len() > 0 {
        let front = rows.drop_last();
        let key = model::key_of(column, rows.last());
        lemma_group_keys(front, column);
        lemma_insert_key_ascending(model::group_keys(front, column), key);
        assert forall|k: Seq<char>| #[trigger]
            model::group_keys(rows, column).contains(k) <==> exists|i: int|
                0 <= i < rows.len() && model::key_of(column, #[trigger] rows[i]) == k by {
            if model::group_keys(front, column).contains(k) {
                let i = choose|i: int|
                    0 <= i < front.len() && model::key_of(column, #[trigger] front[i]) == k;
                assert(rows[i] == front[i]);
            }
            if k == key {
                assert(model::key_of(column, rows[rows.len() - 1]) == k);
            }
            if exists|i: int| 0 <= i < rows.len() && model::key_of(column, #[trigger] rows[i]) == k {
                let i = choose|i: int|
                    0 <= i < rows.len() && model::key_of(column, #[trigger] rows[i]) == k;
                if i < front.len() {
                    assert(front[i] == rows[i]);
                    assert(model::group_keys(front, column).contains(k));
                }
            }
        }
    }
}

/// There is nothing to sum up under a key that is not among the keys.
pub proof fn lemma_no_key_no_sum(rows: Seq<RowView>, column: TallyColumn, key: Seq<char>)
    requires
        !model::group_keys(rows, column).contains(key),
    ensures
        model::total_for(rows, column, key) == 0,
        model::count_for(rows, column, key) == 0,
    decreases rows.len(),
{
    if rows.len() > 0 {
        let front = rows.drop_last();
        lemma_group_keys(front, column);
        lemma_insert_key_ascending(
            model::group_keys(front, column),
            model::key_of(column, rows.last()),
        );
        lemma_no_key_no_sum(front, column, key);
    }
}

/// A count is no more than the number of rows.
pub proof fn lemma_count_bound(rows: Seq<RowView>, column: TallyColumn, key: Seq<char>)
    ensures
        0 <= model::count_for(rows, column, key) <= rows.len(),
    decreases rows.len(),
{
    if rows.len() > 0 {
        lemma_count_bound(rows.drop_last(), column, key);
    }
}

/// What one more row does to the groups: it is added to the group of its key, or
/// opens one in the key's place.
pub proof fn lemma_tally_push(
    rows: Seq<RowView>,
    column: TallyColumn,
    row: RowView,
    at: int,
)
    requires
        ({
            let groups = model::tally(rows, column);
            let key = model::key_of(column, row);
            &&& 0 <= at <= groups.len()
            &&& forall|k: int|
                0 <= k < at ==> text::precedes((#[trigger] groups[k]).key, key)
            &&& at < groups.len() ==> !text::precedes(groups[at].key, key)
        }),
    ensures
        ({
            let groups = model::tally(rows, column);
            let key = model::key_of(column, row);
            model::tally(rows.push(row), column) == if at < groups.len() && groups[at].key == key {
                groups.update(
                    at,
                    TallyView {
                        key,
                        total_cents: groups[at].total_cents + row.amount_cents,
                        count: groups[at].count + 1,
                    },
                )
            } else {
                groups.insert(at, TallyView { key, total_cents: row.amount_cents, count: 1 })
            }
        }),
{
    let more = rows.push(row);
    let key = model::key_of(column, row);
    let keys = model::group_keys(rows, column);
    let groups = model::tally(rows, column);
    assert(more.drop_last() =~= rows);
    lemma_group_keys(rows, column);
    assert forall|k: int| 0 <= k < at implies text::precedes(#[trigger] keys[k], key) by {
        assert(groups[k].key == keys[k]);
    }
    if at < keys.len() {
        assert(groups[at].key == keys[at]);
    }
    lemma_insert_key_at(keys, key, at);
    text::lemma_precedes_irreflexive(key);
    if at < keys.len() && keys[at] == key {
        assert forall|k: int| 0 <= k < keys.len() && k != at implies #[trigger] keys[k] != key by {
            if k < at {
                assert(text::precedes(keys[k], keys[at]));
            } else {
                assert(text::precedes(keys[at], keys[k]));
            }
        }
        assert(model::tally(more, column) =~= groups.update(
            at,
            TallyView {
                key,
                total_cents: groups[at].total_cents + row.amount_cents,
                count: groups[at].count + 1,
            },
        ));
    } else {
        assert forall|k: int| 0 <= k < keys.len() implies #[trigger] keys[k] != key by {
            if k > at {
                assert(text::precedes(keys[at], keys[k]));
                text::lemma_precedes_total(keys[at], key);
            }
        }
        assert(!keys.contains(key));
        lemma_no_key_no_sum(rows, column, key);
        assert(model::tally(more, column) =~= groups.insert(
            at,
            TallyView { key, total_cents: row.amount_cents, count: 1 },
        ));
    }
}

/// Every key has a place among keys.
proof fn lemma_place(groups: Seq<TallyView>, key: Seq<char>) -> (at: int)
    ensures
        0 <= at <= groups.len(),
        forall|k: int| 0 <= k < at ==> text::precedes((#[trigger] groups[k]).key, key),
        at < groups.len() ==> !text::precedes(groups[at].key, key),
    decreases groups.len(),
{
    if groups.len() == 0 {
        0
    } else {
        let front = groups.drop_last();
        let at = lemma_place(front, key);
        assert forall|k: int| 0 <= k < at implies text::precedes(
            (#[trigger] groups[k]).key,
            key,
        ) by {
            assert(front[k] == groups[k]);
        }
        if at == front.len() && text::precedes(groups.last().key, key) {
            at + 1
        } else {
            at
        }
    }
}

proof fn lemma_sums_insert(groups: Seq<TallyView>, at: int, group: TallyView)
    requires
        0 <= at <= groups.len(),
    ensures
        model::grand_total(groups.insert(at, group)) == model::grand_total(groups)
            + group.total_cents,
        model::grand_count(groups.insert(at, group)) == model::grand_count(groups) + group.count,
    decreases groups.len(),
{
    let more = groups.insert(at, group);
    if at == groups.len() {
        assert(more.drop_last() =~= groups);
    } else {
        lemma_sums_insert(groups.drop_last(), at, group);
        assert(more.drop_last() =~= groups.drop_last().insert(at, group));
    }
}

proof fn lemma_sums_update(groups: Seq<TallyView>, at: int, group: TallyView)
    requires
        0 <= at < groups.len(),
    ensures
        model::grand_total(groups.update(at, group)) == model::grand_total(groups)
            - groups[at].total_cents + group.total_cents,
        model::grand_count(groups.update(at, group)) == model::grand_count(groups)
            - groups[at].count + group.count,
    decreases groups.len(),
{
    let other = groups.update(at, group);
    if at == groups.len() - 1 {
        assert(other.drop_last() =~= groups.drop_last());
    } else {
        lemma_sums_update(groups.drop_last(), at, group);
        assert(other.drop_last() =~= groups.drop_last().update(at, group));
    }
}

/// The groups leave out no row and count none twice.
pub proof fn lemma_tally_sums(rows: Seq<RowView>, column: TallyColumn)
    ensures
        model::grand_total(model::tally(rows, column)) == model::takings(rows),
        model::grand_count(model::tally(rows, column)) == rows.len(),
    decreases rows.len(),
{
    if rows.len() > 0 {
        let front = rows.drop_last();
        let row = rows.last();
        let key = model::key_of(column, row);
        let groups = model::tally(front, column);
        lemma_tally_sums(front, column);
        let at = lemma_place(groups, key);
        assert(front.push(row) =~= rows);
        lemma_tally_push(front, column, row, at);
        if at < groups.len() && groups[at].key == key {
            lemma_sums_update(
                groups,
                at,
                TallyView {
                    key,
                    total_cents: groups[at].total_cents + row.amount_cents,
                    count: groups[at].count + 1,
                },
            );
        } else {
            lemma_sums_insert(
                groups,
                at,
                TallyView { key, total_cents: row.amount_cents, count: 1 },
            );
        }
    }
}

/// Some of the groups count no more than all of them.
pub proof fn lemma_counts_add_up(rows: Seq<RowView>, column: TallyColumn, n: int)
    requires
        0 <= n <= model::tally(rows, column).len(),
    ensures
        0 <= model::grand_count(model::tally(rows, column).take(n)) <= rows.len(),
        n < model::tally(rows, column).len() ==> model::grand_count(
            model::tally(rows, column).take(n + 1),
        ) == model::grand_count(model::tally(rows, column).take(n)) + model::tally(
            rows,
            column,
        )[n].count,
    decreases model::tally(rows, column).len() - n,
{
    let groups = model::tally(rows, column);
    if n == groups.len() {
        lemma_tally_sums(rows, column);
        assert(groups.take(n) =~= groups);
    } else {
        lemma_counts_add_up(rows, column, n + 1);
        lemma_count_bound(rows, column, groups[n].key);
        assert(groups.take(n + 1).drop_last() =~= groups.take(n));
    }
    lemma_count_nonnegative(rows, column, n);
}

proof fn lemma_count_nonnegative(rows: Seq<RowView>, column: TallyColumn, n: int)
    requires
        0 <= n <= model::tally(rows, column).len(),
    ensures
        0 <= model::grand_count(model::tally(rows, column).take(n)),
    decreases n,
{
    let groups = model::tally(rows, column);
    if n > 0 {
        lemma_count_nonnegative(rows, column, n - 1);
        lemma_count_bound(rows, column, groups[n - 1].key);
        assert(groups.take(n).drop_last() =~= groups.take(n - 1));
    }
}

} // verus!
