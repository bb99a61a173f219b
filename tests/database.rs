use tmp_mail::database::{
    cutoff_text_at, prune_cutoff, record_at, stamp, MAX_MS, MIN_MS, RETENTION_MS,
};
use tmp_mail::Mail;

fn mail() -> Mail {
    Mail {
        from: "<a@b.com>".to_string(),
        to: vec!["<c@d.com>".to_string()],
        data: "hello\r\n.\r\n".to_string(),
    }
}

#[test]
fn record_at_range_ends_has_dates() {
    assert_eq!(record_at(mail(), MIN_MS).unwrap().date, "0001-01-01 00:00:00.000");
    assert_eq!(record_at(mail(), MAX_MS).unwrap().date, "9999-12-31 23:59:59.999");
    assert_eq!(record_at(mail(), 0).unwrap().date, "1970-01-01 00:00:00.000");
}

#[test]
fn record_outside_chrono_range_is_none() {
    assert!(record_at(mail(), i64::MAX).is_none());
}

#[test]
fn stamp_now_succeeds() {
    let record = stamp(mail()).unwrap();
    assert_eq!(record.sender, "<a@b.com>");
    assert_eq!(record.recipients, "<c@d.com>");
    assert_eq!(record.data, "hello\r\n.\r\n");
    assert_eq!(record.date.len(), 23);
}

#[test]
fn cutoff_text_in_range_succeeds() {
    assert_eq!(cutoff_text_at(RETENTION_MS, RETENTION_MS).unwrap(), "1970-01-01 00:00:00.000");
    assert_eq!(cutoff_text_at(1000, 0).unwrap(), "1970-01-01 00:00:01.000");
}

#[test]
fn prune_cutoff_now_precedes_stamp_now() {
    let cutoff = prune_cutoff(RETENTION_MS).unwrap();
    let record = stamp(mail()).unwrap();
    assert!(cutoff < record.date);
    let none_kept = prune_cutoff(0).unwrap();
    assert!(none_kept >= cutoff);
}
