//! What the mail store keeps: one record per received mail, stamped with its
//! receipt time, and the cutoff before which a prune deletes records. The
//! storage engine itself is driven by the caller.
use vstd::prelude::*;

use crate::{strings_view, Mail};

verus! {

/// One stored mail, as the `mail` table holds it.
#[derive(Debug, Clone, PartialEq, Eq)]
pub struct MailRecord {
    /// Receipt time in UTC, `YYYY-MM-DD HH:MM:SS.mmm`.
    pub date: String,
    pub sender: String,
    /// The recipients in arrival order, joined by `", "`.
    pub recipients: String,
    pub data: String,
}

/// How long a record is kept: seven days, in milliseconds.
pub const RETENTION_MS: i64 = 7 * 24 * 60 * 60 * 1000;

/// `parts` joined with `sep` between each two.
pub open spec fn joined(parts: Seq<Seq<char>>, sep: Seq<char>) -> Seq<char>
    decreases parts.len(),
{
    if parts.len() == 0 {
        seq![]
    } else if parts.len() == 1 {
        parts[0]
    } else {
        joined(parts.drop_last(), sep) + sep + parts.last()
    }
}

/// How a receipt time is written: `YYYY-MM-DD HH:MM:SS.mmm`, which orders
/// as text as the instants do.
pub const DATE_FORMAT: &'static str = "%Y-%m-%d %H:%M:%S%.3f";

/// The first instant with a date here: 0001-01-01 00:00:00.000 UTC, in
/// milliseconds since the Unix epoch.
pub const MIN_MS: i64 = -62_135_596_800_000;

/// The last instant with a date here: 9999-12-31 23:59:59.999 UTC.
pub const MAX_MS: i64 = 253_402_300_799_999;

/// Whether instant `ms` lies in the years 1 to 9999.
pub open spec fn in_date_range(ms: int) -> bool {
    MIN_MS <= ms <= MAX_MS
}

/// Names the text that chrono gives to an instant, in milliseconds since the
/// Unix epoch, in UTC and the format [`DATE_FORMAT`].
pub uninterp spec fn date_text(ms: i64) -> Seq<char>;

/// Relies on chrono's `DateTime::from_timestamp_millis` and its `format`: the
/// UTC text of an instant, or `None` where chrono has no date for it, which
/// is never the case in the years 1 to 9999. The format is the valid
/// [`DATE_FORMAT`], so writing it does not fail.
#[verifier::external_body]
fn format_millis(ms: i64, format: &str) -> (r: Option<String>)
    requires
        format@ == DATE_FORMAT@,
    ensures
        r matches Some(t) ==> t@ == date_text(ms),
        in_date_range(ms as int) ==> r is Some,
{
    match chrono::DateTime::from_timestamp_millis(ms) {
        Some(d) => Some(d.format(format).to_string()),
        None => None,
    }
}

/// Relies on chrono's `Utc::now` and `timestamp_millis`: the current time in
/// milliseconds since the Unix epoch.
#[verifier::external_body]
fn now_millis() -> (r: i64) {
    chrono::Utc::now().timestamp_millis()
}

/// The recipients of a mail as one text, in arrival order.
pub fn join_recipients(to: &Vec<String>) -> (r: String)
    ensures
        r@ == joined(strings_view(to@), ", "@),
{
    let mut r = String::new();
    let mut i: usize = 0;
    while i < to.len()
        invariant
            i <= to.len(),
            r@ == joined(strings_view(to@.subrange(0, i as int)), ", "@),
        decreases to.len() - i,
    {
        let ghost before = strings_view(to@.subrange(0, i as int));
        let ghost after = strings_view(to@.subrange(0, i + 1));
        assert(after.drop_last() =~= before);
        assert(after.last() == to@[i as int]@);
        if i > 0 {
            r.append(", ");
        } else {
            assert(after =~= seq![to@[0]@]);
        }
        r.append(to[i].as_str());
        i = i + 1;
    }
    assert(to@.subrange(0, to.len() as int) =~= to@);
    r
}

/// The record that stores `mail` under the receipt time `date`.
pub fn record_of(mail: Mail, date: String) -> (r: MailRecord)
    ensures
        r.date@ == date@,
        r.sender@ == mail.from@,
        r.recipients@ == joined(strings_view(mail.to@), ", "@),
        r.data@ == mail.data@,
{
    let recipients = join_recipients(&mail.to);
    MailRecord { date, sender: mail.from, recipients, data: mail.data }
}

/// The record of `mail` received at `received_ms`; `None` only where chrono
/// has no date for that instant, never in the years 1 to 9999.
pub fn record_at(mail: Mail, received_ms: i64) -> (r: Option<MailRecord>)
    ensures
        in_date_range(received_ms as int) ==> r is Some,
        r matches Some(rec) ==> {
            &&& rec.date@ == date_text(received_ms)
            &&& rec.sender@ == mail.from@
            &&& rec.recipients@ == joined(strings_view(mail.to@), ", "@)
            &&& rec.data@ == mail.data@
        },
{
    match format_millis(received_ms, DATE_FORMAT) {
        Some(date) => Some(record_of(mail, date)),
        None => None,
    }
}

/// The record of `mail`, stamped with the current time.
pub fn stamp(mail: Mail) -> (r: Option<MailRecord>)
    ensures
        r matches Some(rec) ==> {
            &&& exists|t: i64| rec.date@ == #[trigger] date_text(t)
            &&& rec.sender@ == mail.from@
            &&& rec.recipients@ == joined(strings_view(mail.to@), ", "@)
            &&& rec.data@ == mail.data@
        },
{
    let now = now_millis();
    record_at(mail, now)
}

/// The instant before which a prune at `now` deletes records.
pub open spec fn cutoff_of(now: int, retention: int) -> int {
    now - retention
}

/// Whether a prune at `now` deletes a record received at `received`: it is
/// older than the retention window.
pub open spec fn pruned(received: int, now: int, retention: int) -> bool {
    received < cutoff_of(now, retention)
}

/// The text of the prune cutoff at `now`.
pub open spec fn cutoff_date(now: i64, retention: i64) -> Seq<char> {
    date_text(cutoff_of(now as int, retention as int) as i64)
}

/// The instant before which records are pruned, `now_ms - retention_ms`;
/// `None` where it does not fit in an `i64`.
pub fn cutoff_millis(now_ms: i64, retention_ms: i64) -> (r: Option<i64>)
    ensures
        r == (if i64::MIN <= cutoff_of(now_ms as int, retention_ms as int) <= i64::MAX {
            Some(cutoff_of(now_ms as int, retention_ms as int) as i64)
        } else {
            None
        }),
{
    now_ms.checked_sub(retention_ms)
}

/// The date text of the prune cutoff at `now_ms`: records stamped before it
/// are deleted. `None` exactly where the cutoff does not fit in an `i64`, or
/// falls outside the years 1 to 9999 and chrono has no date for it.
pub fn cutoff_text_at(now_ms: i64, retention_ms: i64) -> (r: Option<String>)
    ensures
        r matches Some(t) ==> i64::MIN <= cutoff_of(now_ms as int, retention_ms as int)
            <= i64::MAX && t@ == cutoff_date(now_ms, retention_ms),
        !(i64::MIN <= cutoff_of(now_ms as int, retention_ms as int) <= i64::MAX) ==> r is None,
        in_date_range(cutoff_of(now_ms as int, retention_ms as int)) ==> r is Some,
{
    match cutoff_millis(now_ms, retention_ms) {
        Some(cutoff) => format_millis(cutoff, DATE_FORMAT),
        None => None,
    }
}

/// The date text of the prune cutoff for `retention_ms`, measured from the
/// current time.
pub fn prune_cutoff(retention_ms: i64) -> (r: Option<String>)
    ensures
        r matches Some(t) ==> exists|now: i64|
            i64::MIN <= cutoff_of(now as int, retention_ms as int) <= i64::MAX && t@
                == #[trigger] cutoff_date(now, retention_ms),
{
    let now = now_millis();
    cutoff_text_at(now, retention_ms)
}

/// The receipt instants that a prune at `now` with retention `retention`
/// keeps, in order: those that are not [`pruned`].
pub open spec fn surviving(stamps: Seq<int>, now: int, retention: int) -> Seq<int>
    decreases stamps.len(),
{
    if stamps.len() == 0 {
        stamps
    } else {
        let rest = surviving(stamps.drop_last(), now, retention);
        if pruned(stamps.last(), now, retention) {
            rest
        } else {
            rest.push(stamps.last())
        }
    }
}

/// A prune at `now` with retention `retention`, whose cutoff
/// [`cutoff_millis`] computes, deletes every record stamped before the
/// cutoff and keeps every record no older than `retention`.
pub proof fn lemma_prune_window(stamps: Seq<int>, now: int, retention: int)
    ensures
        (forall|i: int|
            0 <= i < stamps.len() ==> #[trigger] stamps[i] < cutoff_of(now, retention))
            ==> surviving(stamps, now, retention) == Seq::<int>::empty(),
        (forall|i: int| 0 <= i < stamps.len() ==> now - #[trigger] stamps[i] <= retention)
            ==> surviving(stamps, now, retention) == stamps,
    decreases stamps.len(),
{
    if stamps.len() > 0 {
        let init = stamps.drop_last();
        lemma_prune_window(init, now, retention);
        if forall|i: int| 0 <= i < stamps.len() ==> #[trigger] stamps[i] < cutoff_of(now, retention) {
            assert forall|i: int| 0 <= i < init.len() implies #[trigger] init[i] < cutoff_of(
                now,
                retention,
            ) by {
                assert(init[i] == stamps[i]);
            }
            assert(stamps[stamps.len() - 1] < cutoff_of(now, retention));
        }
        if forall|i: int| 0 <= i < stamps.len() ==> now - #[trigger] stamps[i] <= retention {
            assert forall|i: int| 0 <= i < init.len() implies now - #[trigger] init[i] <= retention by {
                assert(init[i] == stamps[i]);
            }
            assert(now - stamps[stamps.len() - 1] <= retention);
            assert(init.push(stamps.last()) =~= stamps);
        }
    }
}

} // verus!
