//! The decisions of the streaming-response processor: the caller awaits each
//! item of a response stream (bounded by a timeout or not) and hands what it
//! observed to a cursor or a collector, which says what to do with it.

use vstd::prelude::*;
use crate::grpc_mock::append_str;
use crate::status::{Code, Status};

verus! {

/// What awaiting the next item of a response stream gave.
pub enum StreamEvent<T> {
    /// The stream yielded an item.
    Item(Result<T, Status>),
    /// The stream ended.
    End,
    /// No item arrived within the timeout, of this many milliseconds.
    TimedOut(u64),
}

/// What to do after an observation.
pub enum StreamAction<T> {
    /// Hand this item, at this 0-based index, to the callback.
    Deliver(Result<T, Status>, usize),
    /// Stop; the stream is abandoned.
    Stop,
}

/// The decimal digit `d` as a character.
pub open spec fn digit_char(d: nat) -> char {
    if d == 0 { '0' } else if d == 1 { '1' } else if d == 2 { '2' } else if d == 3 { '3' }
    else if d == 4 { '4' } else if d == 5 { '5' } else if d == 6 { '6' } else if d == 7 { '7' }
    else if d == 8 { '8' } else { '9' }
}

/// The decimal digits of `n`.
pub open spec fn decimal_text(n: nat) -> Seq<char>
    decreases n,
{
    if n < 10 {
        seq![digit_char(n)]
    } else {
        decimal_text(n / 10).push(digit_char(n % 10))
    }
}

fn digit_str(d: u64) -> (r: &'static str)
    requires
        d < 10,
    ensures
        r@ == seq![digit_char(d as nat)],
{
    proof {
        reveal_strlit("0");
        reveal_strlit("1");
        reveal_strlit("2");
        reveal_strlit("3");
        reveal_strlit("4");
        reveal_strlit("5");
        reveal_strlit("6");
        reveal_strlit("7");
        reveal_strlit("8");
        reveal_strlit("9");
    }
    if d == 0 { "0" } else if d == 1 { "1" } else if d == 2 { "2" } else if d == 3 { "3" }
    else if d == 4 { "4" } else if d == 5 { "5" } else if d == 6 { "6" } else if d == 7 { "7" }
    else if d == 8 { "8" } else { "9" }
}

/// Appends the decimal digits of `n` to `s`.
pub(crate) fn append_decimal(s: &mut String, n: u64)
    ensures
        final(s)@ == old(s)@ + decimal_text(n as nat),
    decreases n,
{
    if n >= 10 {
        append_decimal(s, n / 10);
    }
    append_str(s, digit_str(n % 10));
    assert(s@ =~= old(s)@ + decimal_text(n as nat));
}

/// The text `": exceeded {limit_ms}ms"` that ends a timeout message.
pub open spec fn exceeded_text(limit_ms: nat) -> Seq<char> {
    ": exceeded "@ + decimal_text(limit_ms) + "ms"@
}

/// Appends `exceeded_text(limit_ms)` to `s`.
pub(crate) fn append_exceeded(s: &mut String, limit_ms: u64)
    ensures
        final(s)@ == old(s)@ + exceeded_text(limit_ms as nat),
{
    append_str(s, ": exceeded ");
    append_decimal(s, limit_ms);
    append_str(s, "ms");
    assert(s@ =~= old(s)@ + exceeded_text(limit_ms as nat));
}

/// The synthetic status that stands for a timeout of `limit_ms`
/// milliseconds while waiting for the item at `index`.
pub fn deadline_exceeded(index: usize, limit_ms: u64) -> (r: Status)
    ensures
        r.code == Code::DeadlineExceeded,
        r.message@ == "Timeout waiting for message "@ + decimal_text(index as nat) + exceeded_text(
            limit_ms as nat,
        ),
{
    let mut message = String::new();
    append_str(&mut message, "Timeout waiting for message ");
    append_decimal(&mut message, index as u64);
    append_exceeded(&mut message, limit_ms);
    assert(message@ =~= "Timeout waiting for message "@ + decimal_text(index as nat) + exceeded_text(
        limit_ms as nat,
    ));
    Status::from_string(Code::DeadlineExceeded, message)
}

/// Position in a response stream that is handed to a callback item by item.
pub struct ResponseCursor {
    /// The index the next item gets.
    pub index: usize,
    /// Whether processing has stopped.
    pub finished: bool,
}

impl ResponseCursor {
    pub fn new() -> (r: ResponseCursor)
        ensures
            r.index == 0,
            !r.finished,
    {
        ResponseCursor { index: 0, finished: false }
    }

    /// Takes one observation: an item is delivered at the current index,
    /// which then advances by one; the end stops; a timeout delivers one
    /// deadline-exceeded error at the current index and stops.
    pub fn step<T>(&mut self, event: StreamEvent<T>) -> (r: StreamAction<T>)
        requires
            !old(self).finished,
            old(self).index < usize::MAX,
        ensures
            match event {
                StreamEvent::Item(x) => (r matches StreamAction::Deliver(y, i) && y == x && i == old(
                    self,
                ).index) && final(self).index == old(self).index + 1 && !final(self).finished,
                StreamEvent::End => r is Stop && final(self).index == old(self).index
                    && final(self).finished,
                StreamEvent::TimedOut(ms) => (r matches StreamAction::Deliver(Err(s), i) && i
                    == old(self).index && s.code == Code::DeadlineExceeded && s.message@ == "Timeout waiting for message "@
                    + decimal_text(old(self).index as nat) + exceeded_text(ms as nat)) && final(self).index
                    == old(self).index && final(self).finished,
            },
    {
        match event {
            StreamEvent::Item(x) => {
                let i = self.index;
                self.index = i + 1;
                StreamAction::Deliver(x, i)
            },
            StreamEvent::End => {
                self.finished = true;
                StreamAction::Stop
            },
            StreamEvent::TimedOut(ms) => {
                self.finished = true;
                StreamAction::Deliver(Err(deadline_exceeded(self.index, ms)), self.index)
            },
        }
    }
}

/// The items of a response stream collected in order.
pub struct ResponseCollector<T> {
    pub results: Vec<Result<T, Status>>,
    /// Whether collection has stopped.
    pub finished: bool,
}

impl<T> ResponseCollector<T> {
    pub fn new() -> (r: ResponseCollector<T>)
        ensures
            r.results@.len() == 0,
            !r.finished,
    {
        ResponseCollector { results: Vec::new(), finished: false }
    }

    /// Takes one observation: an item is appended; the end stops; a timeout
    /// appends one deadline-exceeded error and stops.
    pub fn observe(&mut self, event: StreamEvent<T>)
        requires
            !old(self).finished,
        ensures
            match event {
                StreamEvent::Item(x) => final(self).results@ == old(self).results@.push(x)
                    && final(self).finished == false,
                StreamEvent::End => final(self).results@ == old(self).results@
                    && final(self).finished == true,
                StreamEvent::TimedOut(ms) => final(self).results@.len() == old(self).results@.len() + 1
                    && final(self).results@.drop_last() == old(self).results@
                    && (final(self).results@.last() matches Err(s) && s.code == Code::DeadlineExceeded)
                    && final(self).finished == true,
            },
    {
        match event {
            StreamEvent::Item(x) => {
                self.results.push(x);
            },
            StreamEvent::End => {
                self.finished = true;
            },
            StreamEvent::TimedOut(ms) => {
                let i = self.results.len();
                let ghost before = self.results@;
                self.results.push(Err(deadline_exceeded(i, ms)));
                assert(self.results@.drop_last() =~= before);
                self.finished = true;
            },
        }
    }
}

} // verus!
