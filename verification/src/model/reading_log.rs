use vstd::prelude::*;

use crate::model::{ayah_index, first_ayah, needs_basmalah, surah_needs_basmalah, ScrollingReader};

verus! {

// --- MARK: PROGRESS

/// The earliest instant that a `jiff::Timestamp` can hold, in nanoseconds
/// since the Unix epoch.
pub const TIMESTAMP_MIN_NANOS: i128 = -377_705_023_201_000_000_000i128;

/// The latest instant that a `jiff::Timestamp` can hold, in nanoseconds
/// since the Unix epoch.
pub const TIMESTAMP_MAX_NANOS: i128 = 253_402_207_200_999_999_999i128;

/// The current time, in nanoseconds since the Unix epoch, or `None` where
/// the system clock is set outside the range of `jiff::Timestamp`: reads
/// `std::time::SystemTime::now`, converts it with jiff's
/// `Timestamp::try_from(SystemTime)` (which returns an error, and does not
/// panic, for a time outside its range) and reads the timestamp with
/// `jiff::Timestamp::as_nanosecond`, which is lossless.
///
/// The contract claims only that a time that comes back lies between jiff's
/// smallest and largest timestamps. Which instant comes back, and whether one
/// does, depends on the system clock, so nothing else is said of it.
#[verifier::external_body]
fn current_time_nanos() -> (r: Option<i128>)
    ensures
        r matches Some(t) ==> TIMESTAMP_MIN_NANOS <= t <= TIMESTAMP_MAX_NANOS,
{
    match jiff::Timestamp::try_from(std::time::SystemTime::now()) {
        Ok(t) => Some(t.as_nanosecond()),
        Err(_) => None,
    }
}

/// The abstract content of a [`Progress`].
pub struct ProgressView {
    pub last_on: i128,
    pub surah: u8,
    pub ayah: u16,
    /// `last_on` is the time that the system clock gave when the progress
    /// was made by [`Progress::new`] (and not a time handed in).
    pub clock_stamped: bool,
}

/// How far the user has read in one surah, and when they last did.
///
/// `last_on` is the time of the last reading, in nanoseconds since the Unix
/// epoch. Only [`Progress::new`], which reads the clock, makes a progress
/// whose view is `clock_stamped`; the fields are private to this module.
#[derive(Clone, Copy)]
pub struct Progress {
    last_on: i128,
    surah: u8,
    ayah: u16,
    clock_stamped: Ghost<bool>,
}

impl View for Progress {
    type V = ProgressView;

    closed spec fn view(&self) -> ProgressView {
        ProgressView {
            last_on: self.last_on,
            surah: self.surah,
            ayah: self.ayah,
            clock_stamped: self.clock_stamped@,
        }
    }
}

impl Progress {
    /// Starts reading `surah` now, at its first shown ayah (see
    /// [`Progress::started_at`]); `None` where the system clock cannot be read
    /// as a timestamp.
    pub fn new(surah: u8) -> (r: Option<Self>)
        ensures
            r matches Some(p) ==> {
                &&& p@.surah == surah
                &&& p@.ayah == first_ayah(surah)
                &&& TIMESTAMP_MIN_NANOS <= p@.last_on <= TIMESTAMP_MAX_NANOS
                &&& p@.clock_stamped
            },
    {
        match current_time_nanos() {
            Some(now) => Some(Progress { clock_stamped: Ghost(true), ..Progress::started_at(surah, now) }),
            None => None,
        }
    }

    /// Starts reading `surah` at time `now` (nanoseconds since the Unix
    /// epoch), at its first shown ayah.
    pub fn started_at(surah: u8, now: i128) -> (r: Self)
        ensures
            r@ == (ProgressView {
                last_on: now,
                surah,
                ayah: first_ayah(surah) as u16,
                clock_stamped: false,
            }),
    {
        Progress {
            last_on: now,
            surah,
            ayah: if surah_needs_basmalah(surah) {
                0
            } else {
                1
            },
            clock_stamped: Ghost(false),
        }
    }

    /// Rebuilds a progress from its three parts.
    pub fn from_parts(last_on: i128, surah: u8, ayah: u16) -> (r: Self)
        ensures
            r@ == (ProgressView { last_on, surah, ayah, clock_stamped: false }),
    {
        Progress { last_on, surah, ayah, clock_stamped: Ghost(false) }
    }

    /// A reader of this surah that jumps to the ayah read last.
    pub fn reader(self) -> (r: ScrollingReader)
        requires
            needs_basmalah(self@.surah) || self@.ayah >= 1,
        ensures
            r.surah == self@.surah,
            r.jump_to_ayah_index == Some(ayah_index(self@.surah, self@.ayah as int) as usize),
            !r.is_scrolling,
    {
        let mut r = ScrollingReader { surah: self.surah, jump_to_ayah_index: None, is_scrolling: false };
        r.jump_to_ayah_index = Some(r.ayah_to_index(self.ayah));
        r
    }

    /// When the surah was last read, in nanoseconds since the Unix epoch.
    pub fn last_on(&self) -> (r: i128)
        ensures
            r == self@.last_on,
    {
        self.last_on
    }

    /// The surah read.
    pub fn surah(&self) -> (r: u8)
        ensures
            r == self@.surah,
    {
        self.surah
    }

    /// The ayah read last.
    pub fn ayah(&self) -> (r: u16)
        ensures
            r == self@.ayah,
    {
        self.ayah
    }

    /// Records that the user is at ayah `ayah`; nothing else changes.
    pub fn set_ayah(&mut self, ayah: u16)
        ensures
            final(self)@ == (ProgressView { ayah, ..old(self)@ }),
    {
        self.ayah = ayah;
    }
}

} // verus!
