use acadrust::notification::{NotificationCollection, NotificationType};
use h7cad::diagnostics::{from_acadrust_notifications, NoticeCounts, NoticeSeverity, OpenNotice};

#[test]
fn severity_labels_are_stable_in_chinese_and_english() {
    for sev in [
        NoticeSeverity::NotImplemented,
        NoticeSeverity::NotSupported,
        NoticeSeverity::Warning,
        NoticeSeverity::Error,
    ] {
        assert!(!sev.zh_label().is_empty(), "{sev:?} zh_label empty");
        assert!(!sev.en_tag().is_empty(), "{sev:?} en_tag empty");
    }
    assert_eq!(NoticeSeverity::Warning.zh_label(), "警告");
    assert_eq!(NoticeSeverity::Error.zh_label(), "已恢复错误");
    assert_eq!(NoticeSeverity::NotImplemented.en_tag(), "NotImplemented");
}

#[test]
fn format_zh_produces_bracketed_label_prefix() {
    let notice = OpenNotice::new(NoticeSeverity::Warning, "handle 0xABC missing");
    assert_eq!(notice.format_zh(), "[警告] handle 0xABC missing");
}

#[test]
fn severity_from_acadrust_covers_every_variant() {
    assert_eq!(NoticeSeverity::from_notification_code(0), NoticeSeverity::NotImplemented);
    assert_eq!(NoticeSeverity::from_notification_code(1), NoticeSeverity::NotSupported);
    assert_eq!(NoticeSeverity::from_notification_code(2), NoticeSeverity::Warning);
    assert_eq!(NoticeSeverity::from_notification_code(3), NoticeSeverity::Error);
}

#[test]
fn from_acadrust_notifications_preserves_order_and_message_text() {
    let mut collection = NotificationCollection::new();
    collection.notify(NotificationType::Warning, "w1");
    collection.notify(NotificationType::Error, "e1");
    collection.notify(NotificationType::NotImplemented, "ni1");

    let notices = from_acadrust_notifications(&collection);
    assert_eq!(notices.len(), 3);
    assert_eq!(notices[0].severity, NoticeSeverity::Warning);
    assert_eq!(notices[0].message, "w1");
    assert_eq!(notices[1].severity, NoticeSeverity::Error);
    assert_eq!(notices[1].message, "e1");
    assert_eq!(notices[2].severity, NoticeSeverity::NotImplemented);
    assert_eq!(notices[2].message, "ni1");
}

#[test]
fn from_acadrust_notifications_returns_empty_for_empty_collection() {
    let collection = NotificationCollection::new();
    assert!(from_acadrust_notifications(&collection).is_empty());
}

#[test]
fn notice_counts_bucket_by_severity() {
    let notices = vec![
        OpenNotice::new(NoticeSeverity::Warning, "w1"),
        OpenNotice::new(NoticeSeverity::Warning, "w2"),
        OpenNotice::new(NoticeSeverity::Error, "e1"),
        OpenNotice::new(NoticeSeverity::NotImplemented, "ni1"),
    ];
    let counts = NoticeCounts::from_notices(&notices);
    assert_eq!(counts.warning, 2);
    assert_eq!(counts.error, 1);
    assert_eq!(counts.not_implemented, 1);
    assert_eq!(counts.not_supported, 0);
    assert_eq!(counts.total(), 4);
}

#[test]
fn notice_counts_summary_zh_none_when_empty() {
    let counts = NoticeCounts::default();
    assert!(counts.summary_zh().is_none());
}

#[test]
fn notice_counts_summary_zh_joins_nonzero_buckets() {
    let counts = NoticeCounts { warning: 3, error: 1, not_implemented: 2, not_supported: 0 };
    let summary = counts.summary_zh().expect("non-empty");
    assert!(summary.contains("3 条警告"));
    assert!(summary.contains("1 条已恢复错误"));
    assert!(summary.contains("2 条未实现"));
    assert!(!summary.contains("不支持"));
    assert!(summary.contains(" / "));
}

#[test]
fn summary_zh_exact_order_of_buckets() {
    let counts = NoticeCounts { warning: 1, error: 2, not_implemented: 3, not_supported: 4 };
    assert_eq!(
        counts.summary_zh().unwrap(),
        "1 条警告 / 2 条已恢复错误 / 3 条未实现 / 4 条不支持"
    );
}

#[test]
fn counts_total_equals_number_of_notices() {
    let notices = vec![
        OpenNotice::new(NoticeSeverity::NotSupported, "a"),
        OpenNotice::new(NoticeSeverity::Error, "b"),
        OpenNotice::new(NoticeSeverity::Error, "c"),
    ];
    let counts = NoticeCounts::from_notices(&notices);
    assert_eq!(counts.total(), notices.len());
    assert_eq!(counts.not_supported, 1);
    assert_eq!(counts.error, 2);
}

#[test]
fn every_label_pair() {
    assert_eq!(NoticeSeverity::NotImplemented.zh_label(), "未实现");
    assert_eq!(NoticeSeverity::NotSupported.zh_label(), "不支持");
    assert_eq!(NoticeSeverity::NotSupported.en_tag(), "NotSupported");
    assert_eq!(NoticeSeverity::Warning.en_tag(), "Warning");
    assert_eq!(NoticeSeverity::Error.en_tag(), "Error");
}
