//! Two commands that take turns, each followed by a pause of its own.

use vstd::prelude::*;

verus! {

/// Two messages and, for each, the time in microseconds that must pass from
/// the moment its transmission begins until the other one may follow.
pub struct DutyCycleMessage<'a> {
    first_microsecond_period: u64,
    second_microsecond_period: u64,
    first_message: &'a str,
    second_message: &'a str,
}

/// What a `DutyCycleMessage` holds.
pub struct DutyCycleView {
    pub first_period: u64,
    pub second_period: u64,
    pub first_message: Seq<char>,
    pub second_message: Seq<char>,
}

impl<'a> View for DutyCycleMessage<'a> {
    type V = DutyCycleView;

    closed spec fn view(&self) -> DutyCycleView {
        DutyCycleView {
            first_period: self.first_microsecond_period,
            second_period: self.second_microsecond_period,
            first_message: self.first_message@,
            second_message: self.second_message@,
        }
    }
}

impl<'a> DutyCycleMessage<'a> {
    /// Pairs two messages with their periods. Any period is accepted; zero
    /// means that the other message may follow at once.
    pub fn new(
        first_time: u64,
        second_time: u64,
        first_message: &'a str,
        second_message: &'a str,
    ) -> (message: Self)
        ensures
            message@ == (DutyCycleView {
                first_period: first_time,
                second_period: second_time,
                first_message: first_message@,
                second_message: second_message@,
            }),
    {
        Self {
            first_microsecond_period: first_time,
            second_microsecond_period: second_time,
            first_message,
            second_message,
        }
    }

    /// The two periods in microseconds, the first message's first.
    pub fn get_times(&self) -> (times: (u64, u64))
        ensures
            times == (self@.first_period, self@.second_period),
    {
        (self.first_microsecond_period, self.second_microsecond_period)
    }

    /// The two messages, in the order in which they are sent.
    pub fn get_messages(&self) -> (messages: (&'a str, &'a str))
        ensures
            messages.0@ == self@.first_message,
            messages.1@ == self@.second_message,
    {
        (self.first_message, self.second_message)
    }
}

} // verus!
