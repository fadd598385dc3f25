use vstd::prelude::*;

use crate::path::{parent_is, parent_key, path_components, path_key};

verus! {

/// The kind of move that one log entry records.
#[derive(Debug, Clone, Copy, PartialEq, Eq, Structural)]
pub enum OpType {
    TRASH,
    RESTORE,
}

impl OpType {
    pub open spec fn label(self) -> Seq<char> {
        match self {
            OpType::TRASH => "Trash"@,
            OpType::RESTORE => "Restore"@,
        }
    }

    /// The name under which the kind is shown to the user.
    pub fn to_string(&self) -> (r: String)
        ensures
            r@ == self.label(),
    {
        match self {
            OpType::TRASH => String::from_str("Trash"),
            OpType::RESTORE => String::from_str("Restore"),
        }
    }
}

/// An instant: whole seconds since the Unix epoch and the nanoseconds after
/// them (past 999,999,999 only within a leap second).
#[derive(Debug, Clone, Copy, PartialEq, Eq, Structural)]
pub struct Timestamp {
    pub secs: i64,
    pub nanos: u32,
}

impl Timestamp {
    /// An instant as the clock gives it: within ten trillion seconds of the
    /// epoch, with nanoseconds below one billion.
    pub open spec fn is_clock_reading(self) -> bool {
        -10_000_000_000_000 <= self.secs <= 10_000_000_000_000 && self.nanos < 1_000_000_000
    }

    /// `self` lies strictly before `other`.
    pub open spec fn precedes(self, other: Timestamp) -> bool {
        self.secs < other.secs || (self.secs == other.secs && self.nanos < other.nanos)
    }

    /// Whether `self` lies strictly before `other`.
    pub fn is_before(&self, other: &Timestamp) -> (r: bool)
        ensures
            r == self.precedes(*other),
    {
        self.secs < other.secs || (self.secs == other.secs && self.nanos < other.nanos)
    }

    /// The instant `secs` seconds before `self`, when it is representable.
    pub open spec fn minus_spec(self, secs: nat) -> Option<Timestamp> {
        if self.secs - secs >= i64::MIN {
            Some(Timestamp { secs: (self.secs - secs) as i64, nanos: self.nanos })
        } else {
            None
        }
    }

    /// The instant `secs` seconds before `self`, or nothing when it lies
    /// before the earliest representable second.
    pub fn minus_secs(&self, secs: u64) -> (r: Option<Timestamp>)
        ensures
            r == self.minus_spec(secs as nat),
    {
        let s = self.secs as i128 - secs as i128;
        if s >= i64::MIN as i128 {
            Some(Timestamp { secs: s as i64, nanos: self.nanos })
        } else {
            None
        }
    }
}

/// Relies on chrono's `From<SystemTime> for DateTime<Utc>`, read through
/// DateTime::timestamp and DateTime::timestamp_subsec_nanos: the clock is taken
/// as seconds from the Unix epoch (negative before it) and nanoseconds below
/// one billion. A `DateTime` lies between the years -262,143 and 262,142,
/// so the seconds stay within ten trillion of the epoch. No time zone is
/// looked up; chrono panics only on a clock outside that range.
#[verifier::external_body]
pub(crate) fn clock_now() -> (t: Timestamp)
    ensures
        t.nanos < 1_000_000_000,
        -10_000_000_000_000 <= t.secs <= 10_000_000_000_000,
{
    let now = chrono::DateTime::<chrono::Utc>::from(std::time::SystemTime::now());
    Timestamp { secs: now.timestamp(), nanos: now.timestamp_subsec_nanos() }
}

/// One line of the operation log: a batch of moves of one kind.
/// `src[i]` was moved to `dst[i]`.
#[derive(Debug, Clone, PartialEq, Eq)]
pub struct FileInfo {
    /// The paths the files were moved from.
    pub src: Vec<String>,
    /// The paths the files were moved to.
    pub dst: Vec<String>,
    /// Which kind of move the batch was.
    pub operation: OpType,
    /// When the batch was moved.
    pub moved_time: Timestamp,
}

/// The text of each string, in order.
pub open spec fn views(v: Seq<String>) -> Seq<Seq<char>> {
    v.map_values(|s: String| s@)
}

impl FileInfo {
    pub open spec fn sources(self) -> Seq<Seq<char>> {
        views(self.src@)
    }

    pub open spec fn destinations(self) -> Seq<Seq<char>> {
        views(self.dst@)
    }

    /// A record as it is written: as many sources as destinations, and at
    /// least one of each.
    pub open spec fn wf(self) -> bool {
        self.src.len() == self.dst.len() && self.src.len() >= 1
    }

    /// The paths whose parent a prefix filter looks at: the sources of a
    /// trash batch, the destinations of a restore batch.
    pub open spec fn located(self) -> Seq<Seq<char>> {
        if self.operation == OpType::TRASH {
            self.sources()
        } else {
            self.destinations()
        }
    }
}

/// Which records a scan of the log keeps.
#[derive(Debug, Clone, PartialEq, Eq)]
pub enum Filter {
    /// Every record.
    All,
    /// Records with a located path (see `FileInfo::located`) whose parent is
    /// this directory, compared component by component (see
    /// `path::path_key`).
    Prefix(String),
    /// Records moved strictly before this instant; the scan stops at the first
    /// record that is not.
    Before(Timestamp),
}

/// Whether `rec` is kept by `filter`.
pub open spec fn keeps(rec: FileInfo, filter: Filter) -> bool {
    match filter {
        Filter::All => true,
        Filter::Prefix(dir) => exists|i: int|
            0 <= i < rec.located().len() && parent_key(#[trigger] rec.located()[i]) == Some(
                path_key(dir@),
            ),
        Filter::Before(cutoff) => rec.moved_time.precedes(cutoff),
    }
}

/// Whether one of `paths` has the parent whose key is `key`.
fn some_parent_is(paths: &Vec<String>, key: &(bool, Vec<String>)) -> (r: bool)
    ensures
        r == exists|i: int|
            0 <= i < paths@.len() && parent_key(#[trigger] views(paths@)[i]) == Some(
                (key.0, views(key.1@)),
            ),
{
    let mut i: usize = 0;
    while i < paths.len()
        invariant
            i <= paths.len(),
            forall|j: int|
                0 <= j < i ==> parent_key(#[trigger] views(paths@)[j]) != Some(
                    (key.0, views(key.1@)),
                ),
        decreases paths.len() - i,
    {
        assert(views(paths@)[i as int] == paths@[i as int]@);
        if parent_is(paths[i].as_str(), key) {
            return true;
        }
        i = i + 1;
    }
    false
}

/// Whether `rec` is kept by `filter`.
pub fn matches_filter(rec: &FileInfo, filter: &Filter) -> (r: bool)
    ensures
        r == keeps(*rec, *filter),
{
    match filter {
        Filter::All => true,
        Filter::Prefix(dir) => {
            let key = path_components(dir.as_str());
            match rec.operation {
                OpType::TRASH => some_parent_is(&rec.src, &key),
                OpType::RESTORE => some_parent_is(&rec.dst, &key),
            }
        },
        Filter::Before(cutoff) => rec.moved_time.is_before(cutoff),
    }
}

} // verus!
