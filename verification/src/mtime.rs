use vstd::prelude::*;

verus! {

/// Nanoseconds in one second.
pub const NANOS_PER_SEC: u32 = 1_000_000_000;

/// A file modification time: a point before, at or after the Unix epoch.
///
/// It is kept as its distance from the epoch, in whole seconds and the
/// nanoseconds within the last second, and on which side of the epoch it lies.
/// Points whose whole seconds from the epoch exceed `i64::MAX` cannot be made:
/// the system clock cannot hold them.
#[derive(Clone, Copy, Debug, PartialEq, Eq)]
pub struct MTime {
    before_epoch: bool,
    secs: u64,
    nanos: u32,
}

/// A modification time as plain values.
pub struct MTimeView {
    /// Whether the time lies before the epoch.
    pub before_epoch: bool,
    /// Whole seconds between the time and the epoch.
    pub secs: u64,
    /// Nanoseconds within the last second.
    pub nanos: u32,
}

/// Whether `(secs, nanos)` is the whole-seconds / sub-second split of a
/// distance from the epoch that an [`MTime`] can hold.
pub open spec fn mtime_parts_valid(parts: (u64, u32)) -> bool {
    &&& parts.0 <= i64::MAX
    &&& parts.1 < NANOS_PER_SEC
}

/// Whether `v` is a modification time that an [`MTime`] can hold: a valid
/// split, and the epoch itself counted as not before it.
pub open spec fn mtime_view_valid(v: MTimeView) -> bool {
    &&& mtime_parts_valid((v.secs, v.nanos))
    &&& v.before_epoch ==> (v.secs > 0 || v.nanos > 0)
}

/// The distance `secs` seconds plus `nanos` nanoseconds, split into whole
/// seconds and the nanoseconds within the last second.
pub open spec fn normalized_parts(secs: int, nanos: int) -> (int, int) {
    (secs + nanos / (NANOS_PER_SEC as int), nanos % (NANOS_PER_SEC as int))
}

impl View for MTime {
    type V = MTimeView;

    closed spec fn view(&self) -> MTimeView {
        MTimeView { before_epoch: self.before_epoch, secs: self.secs, nanos: self.nanos }
    }
}

impl MTime {
    #[verifier::type_invariant]
    spec fn inv(self) -> bool {
        mtime_view_valid(self@)
    }

    /// The time `secs` seconds and `nanos` nanoseconds after the epoch;
    /// nanoseconds beyond a second carry into the seconds.
    pub fn from_seconds_and_nanos(secs: u64, nanos: u32) -> (m: MTime)
        requires
            secs + nanos / NANOS_PER_SEC <= i64::MAX,
        ensures
            !m@.before_epoch,
            m@.secs == normalized_parts(secs as int, nanos as int).0,
            m@.nanos == normalized_parts(secs as int, nanos as int).1,
    {
        let carry: u32 = nanos / NANOS_PER_SEC;
        let rest: u32 = nanos % NANOS_PER_SEC;
        MTime { before_epoch: false, secs: secs + carry as u64, nanos: rest }
    }

    /// The time `secs` seconds and `nanos` nanoseconds before the epoch;
    /// nanoseconds beyond a second carry into the seconds. No distance at all
    /// is the epoch itself.
    pub fn before_epoch(secs: u64, nanos: u32) -> (m: MTime)
        requires
            secs + nanos / NANOS_PER_SEC <= i64::MAX,
        ensures
            m@.before_epoch == (secs > 0 || nanos > 0),
            m@.secs == normalized_parts(secs as int, nanos as int).0,
            m@.nanos == normalized_parts(secs as int, nanos as int).1,
    {
        let carry: u32 = nanos / NANOS_PER_SEC;
        let rest: u32 = nanos % NANOS_PER_SEC;
        MTime { before_epoch: secs > 0 || nanos > 0, secs: secs + carry as u64, nanos: rest }
    }

    /// The whole seconds and sub-second nanoseconds since the epoch to store
    /// for this time; `None` for a time before the epoch.
    pub fn to_seconds_and_nanos_for_persistence(self) -> (r: Option<(u64, u32)>)
        ensures
            r == if self@.before_epoch { None } else { Some((self@.secs, self@.nanos)) },
            mtime_view_valid(self@),
    {
        proof {
            use_type_invariant(self);
        }
        if self.before_epoch {
            None
        } else {
            Some((self.secs, self.nanos))
        }
    }
}

/// Storing a modification time and loading it back gives the same time.
pub proof fn lemma_mtime_persistence_round_trip(parts: (u64, u32))
    requires
        mtime_parts_valid(parts),
    ensures
        normalized_parts(parts.0 as int, parts.1 as int) == (parts.0 as int, parts.1 as int),
{
}

} // verus!
