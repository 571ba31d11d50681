//! What the operator reads: the answers of the six tools, as text.

use vstd::prelude::*;

use crate::model::{ReconcileReportView, TallyView, TransactionView};
use crate::store;
use crate::store::{ReconcileReport, Tally, Transaction};
use crate::text;

verus! {

// --- money ----------------------------------------------------------------------

/// `n` without its sign.
pub open spec fn magnitude(n: int) -> int {
    if n < 0 {
        -n
    } else {
        n
    }
}

/// The whole units of an amount, rounded towards zero.
pub open spec fn whole_units(cents: int) -> int {
    if cents < 0 {
        -(magnitude(cents) / 100)
    } else {
        cents / 100
    }
}

/// An amount as units and cents with the currency behind it. The cents have no
/// sign, so that an amount between -100 and 0 shows none.
pub open spec fn money_text(cents: int, currency: Seq<char>) -> Seq<char> {
    text::signed_decimal(whole_units(cents)) + "."@ + text::two_digits(
        (magnitude(cents) % 100) as nat,
    ) + " "@ + currency
}

/// An amount of `cents` in `currency`, e.g. `12.99 USD`.
pub fn money(cents: i64, currency: &str) -> (r: String)
    ensures
        r@ == money_text(cents as int, currency@),
{
    let magnitude: u64 = if cents == i64::MIN {
        9223372036854775808
    } else if cents < 0 {
        (-cents) as u64
    } else {
        cents as u64
    };
    let whole: i64 = (magnitude / 100) as i64;
    let units: i64 = if cents < 0 {
        -whole
    } else {
        whole
    };
    let mut out: String = text::signed_decimal_text(units);
    out.append(".");
    out.append(text::two_digits_text(magnitude % 100).as_str());
    out.append(" ");
    out.append(currency);
    out
}

// --- tallies --------------------------------------------------------------------

/// How a group's total is written.
#[derive(Debug, Clone, Copy, PartialEq, Eq, Structural)]
pub enum TotalStyle {
    /// Units and cents, e.g. `15.00`.
    Units,
    /// Integer cents, e.g. `1500`.
    Cents,
}

/// A group's total.
pub open spec fn total_text(total_cents: int, style: TotalStyle) -> Seq<char> {
    match style {
        TotalStyle::Units => money_text(total_cents, ""@),
        TotalStyle::Cents => text::signed_decimal(total_cents),
    }
}

/// The line of a group.
pub open spec fn group_line(group: TallyView, style: TotalStyle) -> Seq<char> {
    "    "@ + group.key + " \u{2014} "@ + total_text(group.total_cents, style) + " ("@
        + text::signed_decimal(group.count) + " sale(s))\n"@
}

/// The lines of the groups.
pub open spec fn group_lines(groups: Seq<TallyView>, style: TotalStyle) -> Seq<char>
    decreases groups.len(),
{
    if groups.len() == 0 {
        seq![]
    } else {
        group_lines(groups.drop_last(), style) + group_line(groups.last(), style)
    }
}

/// The groups under a label.
pub open spec fn tally_text(
    label: Seq<char>,
    groups: Seq<TallyView>,
    style: TotalStyle,
) -> Seq<char> {
    if groups.len() == 0 {
        "  "@ + label + ": (none)\n"@
    } else {
        "  "@ + label + ":\n"@ + group_lines(groups, style)
    }
}

/// A group's total.
fn render_total(total_cents: i64, style: TotalStyle) -> (r: String)
    ensures
        r@ == total_text(total_cents as int, style),
{
    match style {
        TotalStyle::Units => money(total_cents, ""),
        TotalStyle::Cents => text::signed_decimal_text(total_cents),
    }
}

/// The groups under a label, one on a line, with their totals in units and cents.
pub fn render_tally(label: &str, rows: &[Tally]) -> (r: String)
    ensures
        r@ == tally_text(label@, store::groups_of(rows@), TotalStyle::Units),
{
    render_groups(label, rows, TotalStyle::Units)
}

/// The groups under a label, one on a line.
fn render_groups(label: &str, rows: &[Tally], style: TotalStyle) -> (r: String)
    ensures
        r@ == tally_text(label@, store::groups_of(rows@), style),
{
    let mut out: String = "  ".to_string();
    out.append(label);
    if rows.len() == 0 {
        out.append(": (none)\n");
        return out;
    }
    out.append(":\n");
    let ghost head = out@;
    let ghost groups = store::groups_of(rows@);
    let mut i: usize = 0;
    proof {
        assert(head + group_lines(groups.take(0), style) =~= head);
    }
    while i < rows.len()
        invariant
            i <= rows.len(),
            groups == store::groups_of(rows@),
            out@ == head + group_lines(groups.take(i as int), style),
        decreases rows.len() - i,
    {
        let t: &Tally = &rows[i];
        let ghost before = out@;
        out.append("    ");
        out.append(t.key.as_str());
        out.append(" \u{2014} ");
        out.append(render_total(t.total_cents, style).as_str());
        out.append(" (");
        out.append(text::signed_decimal_text(t.count).as_str());
        out.append(" sale(s))\n");
        proof {
            assert(groups.take(i + 1).drop_last() =~= groups.take(i as int));
            assert(groups.take(i + 1).last() == t@);
            assert(out@ =~= before + group_line(t@, style));
            assert(out@ =~= head + group_lines(groups.take(i + 1), style));
        }
        i = i + 1;
    }
    proof {
        assert(groups.take(i as int) =~= groups);
    }
    out
}

// --- sales ----------------------------------------------------------------------

/// How far a sale has come on its way to Square.
pub open spec fn sync_text(tx: TransactionView) -> Seq<char> {
    if tx.synced {
        "synced (square_id "@ + (match tx.square_id {
            Some(id) => id,
            None => "?"@,
        }) + ")"@
    } else {
        "queued (offline, not yet synced)"@
    }
}

/// A sale in one line.
pub open spec fn tx_text(tx: TransactionView) -> Seq<char> {
    "Receipt "@ + tx.receipt_id + ": "@ + money_text(tx.amount_cents, tx.currency) + " for '"@
        + tx.item + "' via "@ + tx.method + " \u{2014} "@ + sync_text(tx) + "."@ + (
    match tx.note {
        Some(note) => " note: "@ + note,
        None => seq![],
    })
}

/// A sale in one line.
pub fn render_tx(tx: &Transaction) -> (r: String)
    ensures
        r@ == tx_text(tx@),
{
    let mut out: String = "Receipt ".to_string();
    out.append(tx.receipt_id.as_str());
    out.append(": ");
    out.append(money(tx.amount_cents, tx.currency.as_str()).as_str());
    out.append(" for '");
    out.append(tx.item.as_str());
    out.append("' via ");
    out.append(tx.method.as_str());
    out.append(" \u{2014} ");
    let ghost head = out@;
    if tx.synced {
        out.append("synced (square_id ");
        match &tx.square_id {
            Some(id) => out.append(id.as_str()),
            None => out.append("?"),
        }
        out.append(")");
    } else {
        out.append("queued (offline, not yet synced)");
    }
    proof {
        assert(out@ =~= head + sync_text(tx@));
    }
    out.append(".");
    let ghost head = out@;
    match &tx.note {
        Some(note) => {
            out.append(" note: ");
            out.append(note.as_str());
        },
        None => {},
    }
    proof {
        assert(out@ =~= head + (match tx@.note {
            Some(note) => " note: "@ + note,
            None => seq![],
        }));
    }
    out
}

// --- the tools' answers ---------------------------------------------------------

/// How long an unsynced sale may wait before `reconcile` calls it stuck, unless
/// told otherwise: one hour in milliseconds.
pub const DEFAULT_RECONCILE_THRESHOLD_MS: i64 = 3_600_000;

/// The threshold of a `reconcile` that names one, or names none.
pub fn reconcile_threshold(threshold_ms: Option<i64>) -> (r: i64)
    ensures
        r == match threshold_ms {
            Some(t) => t,
            None => 3_600_000,
        },
{
    match threshold_ms {
        Some(t) => t,
        None => DEFAULT_RECONCILE_THRESHOLD_MS,
    }
}

/// The answer to `sale_record`.
pub open spec fn sale_record_text(tx: TransactionView) -> Seq<char> {
    "Recorded sale: "@ + money_text(tx.amount_cents, tx.currency) + " for '"@ + tx.item + "' via "@
        + tx.method + ". Receipt id: "@ + tx.receipt_id
        + " (queued offline, not yet synced to Square)."@
}

/// The answer to `sale_record`: the sale that was recorded, and its receipt id.
pub fn sale_record_reply(tx: &Transaction) -> (r: String)
    ensures
        r@ == sale_record_text(tx@),
{
    let mut out: String = "Recorded sale: ".to_string();
    out.append(money(tx.amount_cents, tx.currency.as_str()).as_str());
    out.append(" for '");
    out.append(tx.item.as_str());
    out.append("' via ");
    out.append(tx.method.as_str());
    out.append(". Receipt id: ");
    out.append(tx.receipt_id.as_str());
    out.append(" (queued offline, not yet synced to Square).");
    out
}

/// The answer to `receipt_verify`.
pub open spec fn receipt_verify_text(
    receipt_id: Seq<char>,
    found: Option<TransactionView>,
) -> Seq<char> {
    match found {
        Some(tx) => tx_text(tx),
        None => "No sale found for receipt id "@ + receipt_id + "."@,
    }
}

/// The answer to `receipt_verify`: the sale that was found under the id, or that
/// there is none.
pub fn receipt_verify_reply(receipt_id: &str, found: &Option<Transaction>) -> (r: String)
    ensures
        r@ == receipt_verify_text(receipt_id@, store::opt_sale(*found)),
{
    match found {
        Some(tx) => render_tx(tx),
        None => {
            let mut out: String = "No sale found for receipt id ".to_string();
            out.append(receipt_id);
            out.append(".");
            out
        },
    }
}

/// The answer to `square_sync`.
pub open spec fn square_sync_text(online: bool, synced_now: nat, still_queued: nat) -> Seq<char> {
    if online {
        "Synced "@ + text::decimal(synced_now) + " transaction(s) to Square. "@ + text::decimal(
            still_queued,
        ) + " still queued."@
    } else {
        "Offline mode: "@ + text::decimal(still_queued)
            + " transaction(s) queued, not synced (SQUARE_ACCESS_TOKEN unset)."@
    }
}

/// The answer to `square_sync`: what was pushed and what is left, or, without a
/// token, how deep the queue is.
pub fn square_sync_reply(online: bool, synced_now: usize, still_queued: usize) -> (r: String)
    ensures
        r@ == square_sync_text(online, synced_now as nat, still_queued as nat),
{
    if online {
        let mut out: String = "Synced ".to_string();
        out.append(text::decimal_text(synced_now as u64).as_str());
        out.append(" transaction(s) to Square. ");
        out.append(text::decimal_text(still_queued as u64).as_str());
        out.append(" still queued.");
        out
    } else {
        let mut out: String = "Offline mode: ".to_string();
        out.append(text::decimal_text(still_queued as u64).as_str());
        out.append(" transaction(s) queued, not synced (SQUARE_ACCESS_TOKEN unset).");
        out
    }
}

/// The answer to `sync_status`.
pub open spec fn sync_status_text(
    total: int,
    synced: int,
    queued: int,
    last: Option<int>,
) -> Seq<char> {
    "total="@ + text::signed_decimal(total) + ", synced="@ + text::signed_decimal(synced)
        + ", queued="@ + text::signed_decimal(queued) + ", last_synced_at="@ + (match last {
        Some(at) => text::signed_decimal(at),
        None => "never"@,
    })
}

/// The answer to `sync_status`: the counts and the time of the last push.
pub fn sync_status_reply(total: i64, synced: i64, queued: i64, last: Option<i64>) -> (r: String)
    ensures
        r@ == sync_status_text(total as int, synced as int, queued as int, store::opt_int(last)),
{
    let mut out: String = "total=".to_string();
    out.append(text::signed_decimal_text(total).as_str());
    out.append(", synced=");
    out.append(text::signed_decimal_text(synced).as_str());
    out.append(", queued=");
    out.append(text::signed_decimal_text(queued).as_str());
    out.append(", last_synced_at=");
    match last {
        Some(at) => out.append(text::signed_decimal_text(at).as_str()),
        None => out.append("never"),
    }
    out
}

/// The answer to `daily_tally`, with the totals in cents.
pub open spec fn daily_tally_text(
    by_currency: Seq<TallyView>,
    by_method: Seq<TallyView>,
    count: int,
) -> Seq<char> {
    "Tally over "@ + text::signed_decimal(count) + " sale(s):\n"@ + tally_text(
        "by currency"@,
        by_currency,
        TotalStyle::Cents,
    ) + tally_text("by method"@, by_method, TotalStyle::Cents)
}

/// The answer to `daily_tally`: the sales summed up both ways, in cents.
pub fn daily_tally_reply(by_currency: &[Tally], by_method: &[Tally], count: i64) -> (r: String)
    ensures
        r@ == daily_tally_text(
            store::groups_of(by_currency@),
            store::groups_of(by_method@),
            count as int,
        ),
{
    let mut out: String = "Tally over ".to_string();
    out.append(text::signed_decimal_text(count).as_str());
    out.append(" sale(s):\n");
    out.append(render_groups("by currency", by_currency, TotalStyle::Cents).as_str());
    out.append(render_groups("by method", by_method, TotalStyle::Cents).as_str());
    out
}

/// The line of an anomaly: how often it was found, and under which receipt ids.
/// Nothing where it was not found.
pub open spec fn anomaly_line(name: Seq<char>, ids: Seq<Seq<char>>) -> Seq<char> {
    if ids.len() == 0 {
        seq![]
    } else {
        "  "@ + name + " ("@ + text::decimal(ids.len()) + "): "@ + text::joined(ids, ", "@) + "\n"@
    }
}

/// The answer to `reconcile`.
pub open spec fn reconcile_text(report: ReconcileReportView) -> Seq<char> {
    if report.stuck_unsynced.len() == 0 && report.synced_without_square_id.len() == 0 {
        "Reconcile clean (threshold "@ + text::signed_decimal(report.threshold_ms)
            + "ms): no stuck-unsynced and no synced-without-square_id rows."@
    } else {
        "Reconcile anomalies (threshold "@ + text::signed_decimal(report.threshold_ms) + "ms):\n"@
            + anomaly_line("stuck unsynced"@, report.stuck_unsynced) + anomaly_line(
            "synced without square_id"@,
            report.synced_without_square_id,
        )
    }
}

fn anomaly(name: &str, ids: &Vec<String>) -> (r: String)
    ensures
        r@ == anomaly_line(name@, text::texts(ids@)),
{
    if ids.len() == 0 {
        return String::new();
    }
    let mut out: String = "  ".to_string();
    out.append(name);
    out.append(" (");
    out.append(text::decimal_text(ids.len() as u64).as_str());
    out.append("): ");
    out.append(text::join(ids, ", ").as_str());
    out.append("\n");
    out
}

/// The answer to `reconcile`: the anomalies, or that there are none.
pub fn reconcile_reply(report: &ReconcileReport) -> (r: String)
    ensures
        r@ == reconcile_text(report@),
{
    if report.stuck_unsynced.len() == 0 && report.synced_without_square_id.len() == 0 {
        let mut out: String = "Reconcile clean (threshold ".to_string();
        out.append(text::signed_decimal_text(report.threshold_ms).as_str());
        out.append("ms): no stuck-unsynced and no synced-without-square_id rows.");
        return out;
    }
    let mut out: String = "Reconcile anomalies (threshold ".to_string();
    out.append(text::signed_decimal_text(report.threshold_ms).as_str());
    out.append("ms):\n");
    out.append(anomaly("stuck unsynced", &report.stuck_unsynced).as_str());
    out.append(anomaly("synced without square_id", &report.synced_without_square_id).as_str());
    out
}

} // verus!
