//! A quota tracker that reports by sending messages through a caller-
//! supplied messenger, mutating its own bookkeeping behind a shared
//! reference to the messenger.

use vstd::prelude::*;

verus! {

/// A sink for notifications.  Implementations decide what sending means;
/// the tracker only promises which message it hands over.
pub trait Messenger {
    fn send(&self, msg: &str);
}

/// How far into the quota a value has come.
#[derive(PartialEq, Eq, Structural, Clone, Copy, Debug)]
pub enum QuotaLevel {
    /// Over the maximum.
    Exceeded,
    /// Exactly nine tenths of the maximum.
    AtNinety,
    /// Anywhere else below the maximum.
    Low,
}

/// The level a value stands at against a maximum.
pub open spec fn spec_quota_level(value: int, max: int) -> QuotaLevel {
    if value > max {
        QuotaLevel::Exceeded
    } else if max > 0 && value * 10 == max * 9 {
        QuotaLevel::AtNinety
    } else {
        QuotaLevel::Low
    }
}

/// Classifies a value against a maximum: over it, exactly at nine
/// tenths of it, or below.
pub fn quota_level(value: usize, max: usize) -> (q: QuotaLevel)
    requires
        value <= usize::MAX / 10,
        max <= usize::MAX / 9,
    ensures
        q == spec_quota_level(value as int, max as int),
{
    if value > max {
        QuotaLevel::Exceeded
    } else if max > 0 && value * 10 == max * 9 {
        QuotaLevel::AtNinety
    } else {
        QuotaLevel::Low
    }
}

/// Tracks a value against a maximum quota and reports each change
/// through the messenger it borrows.
pub struct Email<'a, T: Messenger> {
    messenger: &'a T,
    max: usize,
    value: usize,
}

impl<'a, T: Messenger> Email<'a, T> {
    /// The maximum the tracker was built with.
    pub closed spec fn max_spec(self) -> usize {
        self.max
    }

    /// The value last set.
    pub closed spec fn value_spec(self) -> usize {
        self.value
    }

    /// A tracker over `messenger` with the given maximum and a value of
    /// zero.
    pub fn new(messenger: &'a T, max: usize) -> (e: Self)
        ensures
            e.max_spec() == max,
            e.value_spec() == 0,
    {
        Email { messenger, max, value: 0 }
    }

    /// Records the new value and sends one message naming the quota
    /// level it stands at.
    pub fn set_value(&mut self, value: usize)
        requires
            value <= usize::MAX / 10,
            old(self).max_spec() <= usize::MAX / 9,
        ensures
            final(self).value_spec() == value,
            final(self).max_spec() == old(self).max_spec(),
    {
        self.value = value;
        let level = quota_level(value, self.max);
        match level {
            QuotaLevel::Exceeded => self.messenger.send("Email quota exceeded"),
            QuotaLevel::AtNinety => self.messenger.send("Email quota at 90%"),
            QuotaLevel::Low => self.messenger.send("Email quota is low"),
        }
    }
}

} // verus!
