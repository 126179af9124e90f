//! UI-facing diagnostic notices surfaced from file-open operations.
//!
//! The DWG/DXF/PID readers may meet non-fatal issues (unsupported
//! sub-sections, recovered errors, features not implemented yet).  This
//! module keeps them as string-based notices with Chinese-facing labels and
//! aggregates them into a one-line summary.

use crate::text::{dec_text, join_strings, join_with, push_decimal, push_str};
use acadrust::notification::{NotificationCollection, NotificationType};
use vstd::prelude::*;

verus! {

/// Severity classification for an [`OpenNotice`].
#[derive(Debug, Clone, Copy, PartialEq, Eq, Hash, Structural)]
pub enum NoticeSeverity {
    /// Feature recognised but not implemented yet in the reader.
    NotImplemented,
    /// Feature implemented but not supported in the current context.
    NotSupported,
    /// Non-fatal anomaly (missing handle, duplicate key, etc.).
    Warning,
    /// Recoverable error: the reader salvaged the record and continued.
    Error,
}

pub open spec fn zh_label_of(s: NoticeSeverity) -> Seq<char> {
    match s {
        NoticeSeverity::NotImplemented => "未实现"@,
        NoticeSeverity::NotSupported => "不支持"@,
        NoticeSeverity::Warning => "警告"@,
        NoticeSeverity::Error => "已恢复错误"@,
    }
}

pub open spec fn en_tag_of(s: NoticeSeverity) -> Seq<char> {
    match s {
        NoticeSeverity::NotImplemented => "NotImplemented"@,
        NoticeSeverity::NotSupported => "NotSupported"@,
        NoticeSeverity::Warning => "Warning"@,
        NoticeSeverity::Error => "Error"@,
    }
}

impl NoticeSeverity {
    /// Short Chinese label used by the command line.
    pub fn zh_label(self) -> (r: &'static str)
        ensures
            r@ == zh_label_of(self),
    {
        match self {
            NoticeSeverity::NotImplemented => "未实现",
            NoticeSeverity::NotSupported => "不支持",
            NoticeSeverity::Warning => "警告",
            NoticeSeverity::Error => "已恢复错误",
        }
    }

    /// Stable English tag, named like acadrust's `NotificationType`.
    pub fn en_tag(self) -> (r: &'static str)
        ensures
            r@ == en_tag_of(self),
    {
        match self {
            NoticeSeverity::NotImplemented => "NotImplemented",
            NoticeSeverity::NotSupported => "NotSupported",
            NoticeSeverity::Warning => "Warning",
            NoticeSeverity::Error => "Error",
        }
    }

    /// The severity for acadrust's `NotificationType` with variant index
    /// `code` (declaration order: NotImplemented, NotSupported, Warning,
    /// Error).
    pub fn from_notification_code(code: u8) -> (r: NoticeSeverity)
        requires
            code < 4,
        ensures
            r == severity_of_code(code),
    {
        if code == 0 {
            NoticeSeverity::NotImplemented
        } else if code == 1 {
            NoticeSeverity::NotSupported
        } else if code == 2 {
            NoticeSeverity::Warning
        } else {
            NoticeSeverity::Error
        }
    }
}

pub open spec fn severity_of_code(code: u8) -> NoticeSeverity {
    if code == 0 {
        NoticeSeverity::NotImplemented
    } else if code == 1 {
        NoticeSeverity::NotSupported
    } else if code == 2 {
        NoticeSeverity::Warning
    } else {
        NoticeSeverity::Error
    }
}

/// A single user-facing notice surfaced from a file-open operation.
#[derive(Debug, Clone, PartialEq, Eq)]
pub struct OpenNotice {
    pub severity: NoticeSeverity,
    pub message: String,
}

impl OpenNotice {
    pub fn new(severity: NoticeSeverity, message: &str) -> (r: Self)
        ensures
            r.severity == severity,
            r.message@ == message@,
    {
        OpenNotice { severity, message: message.to_string() }
    }

    /// Chinese-facing one-line form: `"[警告] missing handle"`.
    pub fn format_zh(&self) -> (r: String)
        ensures
            r@ == "["@ + zh_label_of(self.severity) + "] "@ + self.message@,
    {
        let mut r = String::new();
        push_str(&mut r, "[");
        push_str(&mut r, self.severity.zh_label());
        push_str(&mut r, "] ");
        push_str(&mut r, self.message.as_str());
        r
    }
}

/// Number of notices in `ns` with severity `s`.
pub open spec fn count_severity(ns: Seq<OpenNotice>, s: NoticeSeverity) -> nat
    decreases ns.len(),
{
    if ns.len() == 0 {
        0
    } else {
        count_severity(ns.drop_last(), s) + if ns.last().severity == s {
            1nat
        } else {
            0nat
        }
    }
}

proof fn lemma_counts_sum(ns: Seq<OpenNotice>)
    ensures
        count_severity(ns, NoticeSeverity::NotImplemented) + count_severity(
            ns,
            NoticeSeverity::NotSupported,
        ) + count_severity(ns, NoticeSeverity::Warning) + count_severity(ns, NoticeSeverity::Error)
            == ns.len(),
    decreases ns.len(),
{
    if ns.len() > 0 {
        lemma_counts_sum(ns.drop_last());
    }
}

/// Severity-bucket counts for a notice list.
#[derive(Debug, Clone, Copy, PartialEq, Eq)]
pub struct NoticeCounts {
    pub not_implemented: usize,
    pub not_supported: usize,
    pub warning: usize,
    pub error: usize,
}

impl Default for NoticeCounts {
    fn default() -> (c: Self)
        ensures
            c.not_implemented == 0 && c.not_supported == 0 && c.warning == 0 && c.error == 0,
    {
        NoticeCounts { not_implemented: 0, not_supported: 0, warning: 0, error: 0 }
    }
}

/// Sum of the four buckets.
pub open spec fn counts_total(c: NoticeCounts) -> int {
    c.not_implemented + c.not_supported + c.warning + c.error
}

/// The non-empty buckets in display order: warnings, recovered errors,
/// not implemented, not supported.
pub open spec fn summary_parts(c: NoticeCounts) -> Seq<Seq<char>> {
    (if c.warning > 0 {
        seq![dec_text(c.warning as nat) + " 条警告"@]
    } else {
        Seq::empty()
    }) + (if c.error > 0 {
        seq![dec_text(c.error as nat) + " 条已恢复错误"@]
    } else {
        Seq::empty()
    }) + (if c.not_implemented > 0 {
        seq![dec_text(c.not_implemented as nat) + " 条未实现"@]
    } else {
        Seq::empty()
    }) + (if c.not_supported > 0 {
        seq![dec_text(c.not_supported as nat) + " 条不支持"@]
    } else {
        Seq::empty()
    })
}

impl NoticeCounts {
    pub fn from_notices(notices: &[OpenNotice]) -> (c: Self)
        ensures
            c.not_implemented == count_severity(notices@, NoticeSeverity::NotImplemented),
            c.not_supported == count_severity(notices@, NoticeSeverity::NotSupported),
            c.warning == count_severity(notices@, NoticeSeverity::Warning),
            c.error == count_severity(notices@, NoticeSeverity::Error),
    {
        let mut c = NoticeCounts { not_implemented: 0, not_supported: 0, warning: 0, error: 0 };
        let mut i: usize = 0;
        while i < notices.len()
            invariant
                i <= notices@.len(),
                c.not_implemented == count_severity(
                    notices@.take(i as int),
                    NoticeSeverity::NotImplemented,
                ),
                c.not_supported == count_severity(
                    notices@.take(i as int),
                    NoticeSeverity::NotSupported,
                ),
                c.warning == count_severity(notices@.take(i as int), NoticeSeverity::Warning),
                c.error == count_severity(notices@.take(i as int), NoticeSeverity::Error),
            decreases notices.len() - i,
        {
            proof {
                lemma_counts_sum(notices@.take(i as int));
                assert(notices@.take(i + 1).drop_last() =~= notices@.take(i as int));
            }
            match notices[i].severity {
                NoticeSeverity::NotImplemented => c.not_implemented = c.not_implemented + 1,
                NoticeSeverity::NotSupported => c.not_supported = c.not_supported + 1,
                NoticeSeverity::Warning => c.warning = c.warning + 1,
                NoticeSeverity::Error => c.error = c.error + 1,
            }
            i += 1;
        }
        assert(notices@.take(notices@.len() as int) =~= notices@);
        c
    }

    pub fn total(&self) -> (n: usize)
        requires
            counts_total(*self) <= usize::MAX,
        ensures
            n == counts_total(*self),
    {
        self.not_implemented + self.not_supported + self.warning + self.error
    }

    /// Compact Chinese-facing summary fragment, `None` when there are no
    /// notices at all.
    pub fn summary_zh(&self) -> (r: Option<String>)
        requires
            counts_total(*self) <= usize::MAX,
        ensures
            counts_total(*self) == 0 ==> r is None,
            counts_total(*self) != 0 ==> (r matches Some(s) && s@ == join_with(
                summary_parts(*self),
                " / "@,
            )),
    {
        if self.total() == 0 {
            return None;
        }
        let mut parts: Vec<String> = Vec::new();
        if self.warning > 0 {
            parts.push(count_phrase(self.warning, " 条警告"));
        }
        if self.error > 0 {
            parts.push(count_phrase(self.error, " 条已恢复错误"));
        }
        if self.not_implemented > 0 {
            parts.push(count_phrase(self.not_implemented, " 条未实现"));
        }
        if self.not_supported > 0 {
            parts.push(count_phrase(self.not_supported, " 条不支持"));
        }
        let r = join_strings(&parts, " / ");
        assert(parts@.map_values(|s: String| s@) =~= summary_parts(*self));
        Some(r)
    }
}

/// `n` in decimal followed by `unit`.
fn count_phrase(n: usize, unit: &str) -> (r: String)
    ensures
        r@ == dec_text(n as nat) + unit@,
{
    let mut r = String::new();
    push_decimal(&mut r, n as u64);
    push_str(&mut r, unit);
    r
}

/// Counting a notice list puts every notice in exactly one bucket.
pub proof fn lemma_counts_total_is_len(notices: Seq<OpenNotice>, c: NoticeCounts)
    requires
        c.not_implemented == count_severity(notices, NoticeSeverity::NotImplemented),
        c.not_supported == count_severity(notices, NoticeSeverity::NotSupported),
        c.warning == count_severity(notices, NoticeSeverity::Warning),
        c.error == count_severity(notices, NoticeSeverity::Error),
    ensures
        counts_total(c) == notices.len(),
{
    lemma_counts_sum(notices);
}

/// What acadrust's `NotificationCollection` holds, in iteration order: per
/// notification, the variant index of its `NotificationType` (declaration
/// order NotImplemented, NotSupported, Warning, Error) and its message.
pub uninterp spec fn notification_items(c: NotificationCollection) -> Seq<(u8, Seq<char>)>;

#[verifier::external_type_specification]
#[verifier::external_body]
pub struct ExNotificationCollection(NotificationCollection);

/// acadrust's `NotificationCollection::iter`: every retained notification
/// in order, as its type's variant index and its message.  The contract
/// claims the order and contents equal `notification_items` and that each
/// index is below 4.
#[verifier::external_body]
fn notification_entries(src: &NotificationCollection) -> (r: Vec<(u8, String)>)
    ensures
        r@.map_values(|e: (u8, String)| (e.0, e.1@)) == notification_items(*src),
        forall|i: int| 0 <= i < r@.len() ==> #[trigger] r@[i].0 < 4,
{
    src.iter().map(|n| {
        let code: u8 = match n.notification_type {
            NotificationType::NotImplemented => 0,
            NotificationType::NotSupported => 1,
            NotificationType::Warning => 2,
            NotificationType::Error => 3,
        };
        (code, n.message.clone())
    }).collect()
}

/// Convert an acadrust `NotificationCollection` into notices, keeping order
/// and message text.
pub fn from_acadrust_notifications(src: &NotificationCollection) -> (r: Vec<OpenNotice>)
    ensures
        r@.len() == notification_items(*src).len(),
        forall|i: int|
            0 <= i < r@.len() ==> (#[trigger] r@[i]).severity == severity_of_code(
                notification_items(*src)[i].0,
            ) && r@[i].message@ == notification_items(*src)[i].1,
{
    let entries = notification_entries(src);
    let ghost items = notification_items(*src);
    let mut r: Vec<OpenNotice> = Vec::new();
    let mut i: usize = 0;
    while i < entries.len()
        invariant
            i <= entries@.len(),
            entries@.map_values(|e: (u8, String)| (e.0, e.1@)) == items,
            forall|j: int| 0 <= j < entries@.len() ==> #[trigger] entries@[j].0 < 4,
            r@.len() == i,
            forall|j: int|
                0 <= j < i ==> (#[trigger] r@[j]).severity == severity_of_code(items[j].0)
                    && r@[j].message@ == items[j].1,
        decreases entries.len() - i,
    {
        let severity = NoticeSeverity::from_notification_code(entries[i].0);
        r.push(OpenNotice { severity, message: entries[i].1.clone() });
        assert(items[i as int] == (entries@[i as int].0, entries@[i as int].1@));
        i += 1;
    }
    r
}

} // verus!
