//! What the answers of the tools show, and where in the text.

use vstd::prelude::*;

use crate::fields;
use crate::model::{ReconcileReportView, TallyView, TransactionView};
use crate::report;
use crate::report::TotalStyle;
use crate::text;

verus! {

// --- money ----------------------------------------------------------------------

/// `units` and `pair` are an amount before and behind the point: in plain decimal
/// they say how many cents it is, and a minus sign stands before the units where
/// it is a unit or more below zero.
pub open spec fn is_amount(cents: int, units: Seq<char>, pair: Seq<char>) -> bool {
    let magnitude = if cents < 0 {
        -cents
    } else {
        cents
    };
    let digits = if cents <= -100 {
        units.drop_first()
    } else {
        units
    };
    &&& cents <= -100 ==> units.len() > 0 && units[0] == '-'
    &&& fields::is_plain_decimal(digits)
    &&& pair.len() == 2
    &&& 48 <= pair[0] as int <= 57
    &&& 48 <= pair[1] as int <= 57
    &&& fields::value_of(digits) * 100 + fields::value_of(pair) == magnitude
}

/// An amount is shown to the cent, with its currency behind it.
pub proof fn law_money_is_shown_to_the_cent(cents: int, currency: Seq<char>) -> (amount: (
    Seq<char>,
    Seq<char>,
))
    ensures
        is_amount(cents, amount.0, amount.1),
        report::money_text(cents, currency) == amount.0 + "."@ + amount.1 + " "@ + currency,
{
    let magnitude = report::magnitude(cents);
    let units = text::signed_decimal(report::whole_units(cents));
    let pair = text::two_digits((magnitude % 100) as nat);
    fields::law_numbers_read_back((magnitude / 100) as nat);
    fields::law_signs_and_pairs(report::whole_units(cents), (magnitude % 100) as nat);
    if cents <= -100 {
        assert(units.drop_first() =~= text::decimal((magnitude / 100) as nat));
    }
    (units, pair)
}

/// Different amounts of one currency are shown differently, unless one of them is
/// between -100 and 0, which is shown without its sign.
pub proof fn law_different_amounts_are_shown_differently(a: int, b: int, currency: Seq<char>)
    requires
        a >= 0 || a <= -100,
        b >= 0 || b <= -100,
        report::money_text(a, currency) == report::money_text(b, currency),
    ensures
        a == b,
{
    let (a_units, a_pair) = law_money_is_shown_to_the_cent(a, currency);
    let (b_units, b_pair) = law_money_is_shown_to_the_cent(b, currency);
    let x = report::money_text(a, currency);
    reveal_strlit(".");
    reveal_strlit(" ");
    let tail = 4 + currency.len();
    assert(a_units.len() == x.len() - tail);
    assert(b_units.len() == x.len() - tail);
    assert(a_units =~= x.take(x.len() - tail));
    assert(b_units =~= x.take(x.len() - tail));
    let at = x.len() - tail + 1;
    assert(a_pair =~= x.subrange(at, at + 2));
    assert(b_pair =~= x.subrange(at, at + 2));
    if a <= -100 && b >= 0 {
        assert(b_units[0] as int >= 48);
    }
    if b <= -100 && a >= 0 {
        assert(a_units[0] as int >= 48);
    }
}

// --- a sale ---------------------------------------------------------------------

/// The proof of a sale shows its receipt id, its amount to the cent in its own
/// currency, its item and its method, whether it is synced and under which Square
/// id, and its note.
pub proof fn law_proof_of_sale_shows_the_sale(tx: TransactionView) -> (amount: (
    Seq<char>,
    Seq<char>,
))
    ensures
        is_amount(tx.amount_cents, amount.0, amount.1),
        ({
            let shown = "Receipt "@ + tx.receipt_id + ": "@ + (amount.0 + "."@ + amount.1 + " "@
                + tx.currency) + " for '"@ + tx.item + "' via "@ + tx.method + " \u{2014} "@;
            let state = if !tx.synced {
                "queued (offline, not yet synced)"@
            } else if tx.square_id is Some {
                "synced (square_id "@ + tx.square_id->0 + ")"@
            } else {
                "synced (square_id "@ + "?"@ + ")"@
            };
            let note = if tx.note is Some {
                " note: "@ + tx.note->0
            } else {
                Seq::<char>::empty()
            };
            &&& report::tx_text(tx) == shown + state + "."@ + note
            &&& forall|id: Seq<char>| #[trigger]
                report::receipt_verify_text(id, Some(tx)) == shown + state + "."@ + note
        }),
{
    law_money_is_shown_to_the_cent(tx.amount_cents, tx.currency)
}

/// The proof of a sale has the currency that was recorded with it directly behind
/// the amount and a space, and before what was sold.
pub proof fn law_proof_of_sale_shows_the_currency(tx: TransactionView) -> (at: int)
    ensures
        ({
            let shown = report::tx_text(tx);
            let end = at + tx.currency.len();
            &&& 4 <= at <= end <= shown.len()
            &&& shown.subrange(at, end) == tx.currency
            &&& shown[at - 1] == ' '
            &&& 48 <= shown[at - 2] as int <= 57
            &&& 48 <= shown[at - 3] as int <= 57
            &&& shown[at - 4] == '.'
            &&& end + 6 <= shown.len()
            &&& shown.subrange(end, end + 6) == " for '"@
        }),
{
    let (units, pair) = law_proof_of_sale_shows_the_sale(tx);
    let shown = report::tx_text(tx);
    reveal_strlit(".");
    reveal_strlit(" ");
    reveal_strlit(" for '");
    let before = "Receipt "@ + tx.receipt_id + ": "@ + units + "."@ + pair + " "@;
    let at = before.len() as int;
    let end = at + tx.currency.len();
    let rest = shown.skip(end);
    let start = "Receipt "@ + tx.receipt_id + ": "@;
    assert(start + (units + "."@ + pair + " "@ + tx.currency) =~= before + tx.currency);
    assert(shown.take(end) =~= before + tx.currency);
    assert(shown.subrange(at, end) =~= tx.currency);
    assert(shown.subrange(end, end + 6) =~= " for '"@);
    assert forall|k: int| 0 <= k < at implies #[trigger] shown[k] == before[k] by {
        assert(shown.take(end)[k] == (before + tx.currency)[k]);
    }
    assert(before[at - 1] == ' ');
    assert(before[at - 2] == pair[1]);
    assert(before[at - 3] == pair[0]);
    assert(before[at - 4] == '.');
    at
}

/// Sales that differ in nothing but their currencies have different proofs.
pub proof fn law_proofs_tell_currencies_apart(tx: TransactionView, currency: Seq<char>)
    requires
        currency.len() == tx.currency.len(),
        currency != tx.currency,
    ensures
        report::tx_text(tx) != report::tx_text(TransactionView { currency, ..tx }),
        report::sale_record_text(tx) != report::sale_record_text(
            TransactionView { currency, ..tx },
        ),
        report::money_text(tx.amount_cents, tx.currency) != report::money_text(
            tx.amount_cents,
            currency,
        ),
{
    let other = TransactionView { currency, ..tx };
    let units = text::signed_decimal(report::whole_units(tx.amount_cents));
    let pair = text::two_digits((report::magnitude(tx.amount_cents) % 100) as nat);
    let amount = units + "."@ + pair + " "@;
    assert(report::money_text(tx.amount_cents, tx.currency) =~= amount + tx.currency);
    assert(report::money_text(tx.amount_cents, currency) =~= amount + currency);
    lemma_differs_behind(amount, tx.currency, currency, seq![], seq![]);
    assert(amount + tx.currency + seq![] =~= amount + tx.currency);
    assert(amount + currency + seq![] =~= amount + currency);
    let start = "Receipt "@ + tx.receipt_id + ": "@ + amount;
    let x = report::tx_text(tx);
    let y = report::tx_text(other);
    let end = start.len() + currency.len();
    lemma_differs_behind(start, tx.currency, currency, x.skip(end as int), y.skip(end as int));
    assert(x =~= start + tx.currency + x.skip(end as int));
    assert(y =~= start + currency + y.skip(end as int));
    let start = "Recorded sale: "@ + amount;
    let x = report::sale_record_text(tx);
    let y = report::sale_record_text(other);
    let end = start.len() + currency.len();
    lemma_differs_behind(start, tx.currency, currency, x.skip(end as int), y.skip(end as int));
    assert(x =~= start + tx.currency + x.skip(end as int));
    assert(y =~= start + currency + y.skip(end as int));
}

proof fn lemma_differs_behind(
    start: Seq<char>,
    a: Seq<char>,
    b: Seq<char>,
    a_end: Seq<char>,
    b_end: Seq<char>,
)
    requires
        a.len() == b.len(),
        a != b,
    ensures
        start + a + a_end != start + b + b_end,
{
    let x = start + a + a_end;
    let y = start + b + b_end;
    if x == y {
        assert(a =~= x.subrange(start.len() as int, (start.len() + a.len()) as int));
        assert(b =~= y.subrange(start.len() as int, (start.len() + a.len()) as int));
    }
}

/// The answer to a recording shows the amount to the cent in the currency that was
/// recorded, the item, the method and the receipt id.
pub proof fn law_recording_is_answered_with_the_sale(tx: TransactionView) -> (amount: (
    Seq<char>,
    Seq<char>,
))
    ensures
        is_amount(tx.amount_cents, amount.0, amount.1),
        report::sale_record_text(tx) == "Recorded sale: "@ + (amount.0 + "."@ + amount.1 + " "@
            + tx.currency) + " for '"@ + tx.item + "' via "@ + tx.method + ". Receipt id: "@
            + tx.receipt_id + " (queued offline, not yet synced to Square)."@,
{
    law_money_is_shown_to_the_cent(tx.amount_cents, tx.currency)
}

/// A receipt that is not known is answered with its id.
pub proof fn law_unknown_receipt_is_answered_with_its_id(id: Seq<char>)
    ensures
        report::receipt_verify_text(id, None) == "No sale found for receipt id "@ + id + "."@,
{
}

// --- counts ---------------------------------------------------------------------

/// A sync is answered with how many sales were pushed and how many are left, and
/// without a token with how many are queued; the numbers read back as themselves.
pub proof fn law_sync_is_answered_with_the_counts(synced_now: nat, still_queued: nat) -> (shown: (
    Seq<char>,
    Seq<char>,
))
    ensures
        fields::is_plain_decimal(shown.0) && fields::value_of(shown.0) == synced_now,
        fields::is_plain_decimal(shown.1) && fields::value_of(shown.1) == still_queued,
        report::square_sync_text(true, synced_now, still_queued) == "Synced "@ + shown.0
            + " transaction(s) to Square. "@ + shown.1 + " still queued."@,
        report::square_sync_text(false, synced_now, still_queued) == "Offline mode: "@ + shown.1
            + " transaction(s) queued, not synced (SQUARE_ACCESS_TOKEN unset)."@,
{
    fields::law_numbers_read_back(synced_now);
    fields::law_numbers_read_back(still_queued);
    (text::decimal(synced_now), text::decimal(still_queued))
}

/// A status is answered with the counts and the time of the last push; the numbers
/// read back as themselves.
pub proof fn law_status_is_answered_with_the_counts(
    total: nat,
    synced: nat,
    queued: nat,
    last: nat,
) -> (shown: (Seq<char>, Seq<char>, Seq<char>, Seq<char>))
    ensures
        fields::is_plain_decimal(shown.0) && fields::value_of(shown.0) == total,
        fields::is_plain_decimal(shown.1) && fields::value_of(shown.1) == synced,
        fields::is_plain_decimal(shown.2) && fields::value_of(shown.2) == queued,
        fields::is_plain_decimal(shown.3) && fields::value_of(shown.3) == last,
        report::sync_status_text(total as int, synced as int, queued as int, Some(last as int))
            == "total="@ + shown.0 + ", synced="@ + shown.1 + ", queued="@ + shown.2
            + ", last_synced_at="@ + shown.3,
        report::sync_status_text(total as int, synced as int, queued as int, None) == "total="@
            + shown.0 + ", synced="@ + shown.1 + ", queued="@ + shown.2 + ", last_synced_at="@
            + "never"@,
{
    fields::law_numbers_read_back(total);
    fields::law_numbers_read_back(synced);
    fields::law_numbers_read_back(queued);
    fields::law_numbers_read_back(last);
    (text::decimal(total), text::decimal(synced), text::decimal(queued), text::decimal(last))
}

/// A status shows each of its numbers in its place, negative ones with their sign.
pub proof fn law_status_shows_any_number(total: int, synced: int, queued: int, last: Option<int>)
    ensures
        report::sync_status_text(total, synced, queued, last) == "total="@ + text::signed_decimal(
            total,
        ) + ", synced="@ + text::signed_decimal(synced) + ", queued="@ + text::signed_decimal(
            queued,
        ) + ", last_synced_at="@ + (if last is Some {
            text::signed_decimal(last->0)
        } else {
            "never"@
        }),
{
}

// --- tallies --------------------------------------------------------------------

/// A tally is answered with the number of sales and the groups by currency and
/// then by method, their totals in cents.
pub proof fn law_tally_is_answered_both_ways(
    by_currency: Seq<TallyView>,
    by_method: Seq<TallyView>,
    count: int,
)
    ensures
        report::daily_tally_text(by_currency, by_method, count) == "Tally over "@
            + text::signed_decimal(count) + " sale(s):\n"@ + report::tally_text(
            "by currency"@,
            by_currency,
            TotalStyle::Cents,
        ) + report::tally_text("by method"@, by_method, TotalStyle::Cents),
{
}

/// Under its label a tally has a line for each group, in their order: the key, the
/// total in cents, and the number of sales. Without groups it says so.
pub proof fn law_each_group_has_a_line_in_cents(
    label: Seq<char>,
    groups: Seq<TallyView>,
    group: TallyView,
)
    ensures
        report::tally_text(label, seq![], TotalStyle::Cents) == "  "@ + label + ": (none)\n"@,
        report::tally_text(label, groups.push(group), TotalStyle::Cents) == (if groups.len() == 0 {
            "  "@ + label + ":\n"@
        } else {
            report::tally_text(label, groups, TotalStyle::Cents)
        }) + ("    "@ + group.key + " \u{2014} "@ + text::signed_decimal(group.total_cents) + " ("@
            + text::signed_decimal(group.count) + " sale(s))\n"@),
{
    let more = groups.push(group);
    let head = "  "@ + label + ":\n"@;
    assert(more.drop_last() =~= groups);
    assert(more.last() == group);
    let line = report::group_line(group, TotalStyle::Cents);
    assert(report::group_lines(more, TotalStyle::Cents) == report::group_lines(
        groups,
        TotalStyle::Cents,
    ) + line);
    assert(head + (report::group_lines(groups, TotalStyle::Cents) + line) =~= (head
        + report::group_lines(groups, TotalStyle::Cents)) + line);
    if groups.len() == 0 {
        assert(report::group_lines(groups, TotalStyle::Cents) =~= Seq::<char>::empty());
        assert(head + report::group_lines(groups, TotalStyle::Cents) =~= head);
    }
}

/// The same with the totals in units and cents.
pub proof fn law_each_group_has_a_line_in_units(
    label: Seq<char>,
    groups: Seq<TallyView>,
    group: TallyView,
) -> (amount: (Seq<char>, Seq<char>))
    ensures
        is_amount(group.total_cents, amount.0, amount.1),
        report::tally_text(label, seq![], TotalStyle::Units) == "  "@ + label + ": (none)\n"@,
        report::tally_text(label, groups.push(group), TotalStyle::Units) == (if groups.len() == 0 {
            "  "@ + label + ":\n"@
        } else {
            report::tally_text(label, groups, TotalStyle::Units)
        }) + ("    "@ + group.key + " \u{2014} "@ + (amount.0 + "."@ + amount.1 + " "@) + " ("@
            + text::signed_decimal(group.count) + " sale(s))\n"@),
{
    let amount = law_money_is_shown_to_the_cent(group.total_cents, ""@);
    reveal_strlit("");
    let more = groups.push(group);
    let head = "  "@ + label + ":\n"@;
    assert(more.drop_last() =~= groups);
    assert(more.last() == group);
    let line = report::group_line(group, TotalStyle::Units);
    assert(amount.0 + "."@ + amount.1 + " "@ + ""@ =~= amount.0 + "."@ + amount.1 + " "@);
    assert(report::group_lines(more, TotalStyle::Units) == report::group_lines(
        groups,
        TotalStyle::Units,
    ) + line);
    assert(head + (report::group_lines(groups, TotalStyle::Units) + line) =~= (head
        + report::group_lines(groups, TotalStyle::Units)) + line);
    if groups.len() == 0 {
        assert(report::group_lines(groups, TotalStyle::Units) =~= Seq::<char>::empty());
        assert(head + report::group_lines(groups, TotalStyle::Units) =~= head);
    }
    amount
}

// --- reconciling ----------------------------------------------------------------

/// A reconcile is answered clean if and only if nothing is flagged, and else with a
/// line for each kind of anomaly that there is: how many, and every receipt id.
pub proof fn law_reconcile_is_answered_with_every_anomaly(report: ReconcileReportView)
    ensures
        ({
            let stuck = report.stuck_unsynced;
            let unlinked = report.synced_without_square_id;
            let threshold = text::signed_decimal(report.threshold_ms);
            let head = "Reconcile anomalies (threshold "@ + threshold + "ms):\n"@;
            let stuck_line = "  "@ + "stuck unsynced"@ + " ("@ + text::decimal(stuck.len()) + "): "@
                + text::joined(stuck, ", "@) + "\n"@;
            let unlinked_line = "  "@ + "synced without square_id"@ + " ("@ + text::decimal(
                unlinked.len(),
            ) + "): "@ + text::joined(unlinked, ", "@) + "\n"@;
            let shown = report::reconcile_text(report);
            &&& stuck.len() == 0 && unlinked.len() == 0 ==> shown == "Reconcile clean (threshold "@
                + threshold + "ms): no stuck-unsynced and no synced-without-square_id rows."@
            &&& stuck.len() > 0 && unlinked.len() == 0 ==> shown == head + stuck_line
            &&& stuck.len() == 0 && unlinked.len() > 0 ==> shown == head + unlinked_line
            &&& stuck.len() > 0 && unlinked.len() > 0 ==> shown == head + stuck_line + unlinked_line
        }),
{
    let stuck = report.stuck_unsynced;
    let unlinked = report.synced_without_square_id;
    let head = "Reconcile anomalies (threshold "@ + text::signed_decimal(report.threshold_ms)
        + "ms):\n"@;
    let stuck_line = report::anomaly_line("stuck unsynced"@, stuck);
    let unlinked_line = report::anomaly_line("synced without square_id"@, unlinked);
    if unlinked.len() == 0 {
        assert(head + stuck_line + unlinked_line =~= head + stuck_line);
    }
    if stuck.len() == 0 {
        assert(head + stuck_line + unlinked_line =~= head + unlinked_line);
    }
}

} // verus!
