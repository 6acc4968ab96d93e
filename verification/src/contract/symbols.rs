//! Allow-lists for caller-supplied symbols (statuses, tags, resolutions).
use vstd::prelude::*;
use crate::contract::errors::ContractError;
use crate::contract::types::{status_symbol, BountyStatus, Resolution};

verus! {

/// Which allow-list a raw symbol must be checked against.
#[derive(Copy, Clone, Debug, PartialEq, Eq, Structural)]
pub enum SymbolKind {
    /// A bounty status: `open`, `in_progress`, `completed`, `cancelled`,
    /// `disputed`.
    Status,
    /// A bounty tag: `bug`, `docs`, `feature`, `security`, `test`,
    /// `refactor`, `design`, `chore`, `perf`, `other`.
    Tag,
    /// A dispute resolution: `complete` or `cancel`.
    Resolution,
}

/// The allow-list of `kind`, in order.
pub open spec fn allow_list(kind: SymbolKind) -> Seq<Seq<char>> {
    match kind {
        SymbolKind::Status => seq![
            "open"@,
            "in_progress"@,
            "completed"@,
            "cancelled"@,
            "disputed"@,
        ],
        SymbolKind::Tag => seq![
            "bug"@,
            "docs"@,
            "feature"@,
            "security"@,
            "test"@,
            "refactor"@,
            "design"@,
            "chore"@,
            "perf"@,
            "other"@,
        ],
        SymbolKind::Resolution => seq!["complete"@, "cancel"@],
    }
}

impl SymbolKind {
    /// The allow-list of this kind, in order.
    pub fn allowed_values(&self) -> (v: Vec<&'static str>)
        ensures
            v@.len() == allow_list(*self).len(),
            forall|i: int| 0 <= i < v@.len() ==> #[trigger] v@[i]@ == allow_list(*self)[i],
    {
        match self {
            SymbolKind::Status => vec!["open", "in_progress", "completed", "cancelled", "disputed"],
            SymbolKind::Tag => vec![
                "bug",
                "docs",
                "feature",
                "security",
                "test",
                "refactor",
                "design",
                "chore",
                "perf",
                "other",
            ],
            SymbolKind::Resolution => vec!["complete", "cancel"],
        }
    }
}

/// The bounty status named by `s`, if any.
pub open spec fn spec_status_of(s: Seq<char>) -> Option<BountyStatus> {
    if s == "open"@ {
        Some(BountyStatus::Open)
    } else if s == "in_progress"@ {
        Some(BountyStatus::InProgress)
    } else if s == "completed"@ {
        Some(BountyStatus::Completed)
    } else if s == "cancelled"@ {
        Some(BountyStatus::Cancelled)
    } else if s == "disputed"@ {
        Some(BountyStatus::Disputed)
    } else {
        None
    }
}

/// Whether `s` is one of the accepted tags.
pub open spec fn is_allowed_tag(s: Seq<char>) -> bool {
    ||| s == "bug"@
    ||| s == "docs"@
    ||| s == "feature"@
    ||| s == "security"@
    ||| s == "test"@
    ||| s == "refactor"@
    ||| s == "design"@
    ||| s == "chore"@
    ||| s == "perf"@
    ||| s == "other"@
}

/// Whether `s` is on the allow-list of `kind`.
pub open spec fn is_allowed(kind: SymbolKind, s: Seq<char>) -> bool {
    match kind {
        SymbolKind::Status => spec_status_of(s) is Some,
        SymbolKind::Tag => is_allowed_tag(s),
        SymbolKind::Resolution => spec_resolution_of(s) is Some,
    }
}

/// The error reported for a symbol outside the allow-list of `kind`.
pub open spec fn rejection(kind: SymbolKind) -> ContractError {
    match kind {
        SymbolKind::Status => ContractError::InvalidStatus,
        SymbolKind::Tag => ContractError::InvalidTag,
        SymbolKind::Resolution => ContractError::InvalidResolution,
    }
}

/// Character-wise equality of two strings.
pub fn str_eq(a: &str, b: &str) -> (r: bool)
    ensures
        r == (a@ == b@),
{
    let n = a.unicode_len();
    if n != b.unicode_len() {
        return false;
    }
    let mut i: usize = 0;
    while i < n
        invariant
            n == a@.len(),
            n == b@.len(),
            i <= n,
            forall|k: int| 0 <= k < i ==> a@[k] == b@[k],
        decreases n - i,
    {
        if a.get_char(i) != b.get_char(i) {
            return false;
        }
        i = i + 1;
    }
    assert(a@ =~= b@);
    true
}

/// The status named by `value`, or `InvalidStatus`.
pub fn status_from_symbol(value: &str) -> (r: Result<BountyStatus, ContractError>)
    ensures
        r == match spec_status_of(value@) {
            Some(s) => Ok(s),
            None => Err(ContractError::InvalidStatus),
        },
        r matches Ok(s) ==> status_symbol(s) == value@,
{
    if str_eq(value, "open") {
        Ok(BountyStatus::Open)
    } else if str_eq(value, "in_progress") {
        Ok(BountyStatus::InProgress)
    } else if str_eq(value, "completed") {
        Ok(BountyStatus::Completed)
    } else if str_eq(value, "cancelled") {
        Ok(BountyStatus::Cancelled)
    } else if str_eq(value, "disputed") {
        Ok(BountyStatus::Disputed)
    } else {
        Err(ContractError::InvalidStatus)
    }
}

fn tag_is_allowed(value: &str) -> (b: bool)
    ensures
        b == is_allowed_tag(value@),
{
    str_eq(value, "bug") || str_eq(value, "docs") || str_eq(value, "feature") || str_eq(
        value,
        "security",
    ) || str_eq(value, "test") || str_eq(value, "refactor") || str_eq(value, "design")
        || str_eq(value, "chore") || str_eq(value, "perf") || str_eq(value, "other")
}

/// `Ok(())` when `value` is on the allow-list for `kind`; otherwise the
/// kind's rejection (`InvalidStatus` or `InvalidTag`).
pub fn validate_symbol(kind: SymbolKind, value: &str) -> (r: Result<(), ContractError>)
    ensures
        r == if is_allowed(kind, value@) {
            Ok::<(), ContractError>(())
        } else {
            Err(rejection(kind))
        },
{
    let allowed = match kind {
        SymbolKind::Status => status_from_symbol(value).is_ok(),
        SymbolKind::Tag => tag_is_allowed(value),
        SymbolKind::Resolution => resolution_from_symbol(value).is_ok(),
    };
    if allowed {
        Ok(())
    } else {
        Err(
            match kind {
                SymbolKind::Status => ContractError::InvalidStatus,
                SymbolKind::Tag => ContractError::InvalidTag,
                SymbolKind::Resolution => ContractError::InvalidResolution,
            },
        )
    }
}

/// The resolution named by `value` (`complete` or `cancel`).
pub open spec fn spec_resolution_of(s: Seq<char>) -> Option<Resolution> {
    if s == "complete"@ {
        Some(Resolution::Complete)
    } else if s == "cancel"@ {
        Some(Resolution::Cancel)
    } else {
        None
    }
}

/// The resolution named by `value`, or `InvalidResolution`.
pub fn resolution_from_symbol(value: &str) -> (r: Result<Resolution, ContractError>)
    ensures
        r == match spec_resolution_of(value@) {
            Some(res) => Ok(res),
            None => Err(ContractError::InvalidResolution),
        },
{
    if str_eq(value, "complete") {
        Ok(Resolution::Complete)
    } else if str_eq(value, "cancel") {
        Ok(Resolution::Cancel)
    } else {
        Err(ContractError::InvalidResolution)
    }
}

} // verus!
