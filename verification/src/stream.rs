//! The mailbox between the evaluator and its host.
//!
//! The evaluator appends events; the host takes them in order and supplies
//! lines of input. The mailbox itself never waits: a host that shares it
//! between threads puts its own lock around it.

use std::collections::VecDeque;
use vstd::prelude::*;
use vstd::string::StringExecFns;

verus! {

/// Mathematical model of an event.
pub enum SpecEvent {
    Error,
    Finished,
    NeedsInput,
    Output(Seq<char>),
}

/// What the evaluator tells its host.
#[derive(Debug, PartialEq, Eq)]
pub enum Event {
    Error,
    /// The program has ended.
    Finished,
    /// The evaluator has asked for a line of input.
    NeedsInput,
    /// A chunk of program output.
    Output(String),
}

impl View for Event {
    type V = SpecEvent;

    open spec fn view(&self) -> SpecEvent {
        match self {
            Event::Error => SpecEvent::Error,
            Event::Finished => SpecEvent::Finished,
            Event::NeedsInput => SpecEvent::NeedsInput,
            Event::Output(s) => SpecEvent::Output(s@),
        }
    }
}

/// Mathematical model of the mailbox.
pub struct SpecStream {
    /// The lines of input that were supplied and not yet read, oldest first.
    pub inputs: Seq<Seq<char>>,
    /// The events that were emitted and not yet taken, oldest first.
    pub events: Seq<SpecEvent>,
}

impl SpecStream {
    /// The mailbox that holds nothing.
    pub open spec fn empty() -> SpecStream {
        SpecStream { inputs: Seq::empty(), events: Seq::empty() }
    }

    /// The mailbox after `e` has been emitted.
    pub open spec fn emit(self, e: SpecEvent) -> SpecStream {
        SpecStream { events: self.events.push(e), ..self }
    }

    /// The mailbox after the evaluator has asked for a line: the request is
    /// emitted, and the oldest waiting line, if there is one, is taken.
    pub open spec fn read_input(self) -> SpecStream {
        let asked = self.emit(SpecEvent::NeedsInput);
        if self.inputs.len() > 0 {
            SpecStream { inputs: self.inputs.drop_first(), ..asked }
        } else {
            asked
        }
    }

    /// The mailbox after the host has supplied the line `s`.
    pub open spec fn write_input(self, s: Seq<char>) -> SpecStream {
        SpecStream { inputs: self.inputs.push(s), ..self }
    }
}

pub struct Stream {
    inputs: VecDeque<String>,
    events: VecDeque<Event>,
}

impl View for Stream {
    type V = SpecStream;

    closed spec fn view(&self) -> SpecStream {
        SpecStream {
            inputs: Seq::new(self.inputs@.len(), |i: int| self.inputs@[i]@),
            events: Seq::new(self.events@.len(), |i: int| self.events@[i]@),
        }
    }
}

impl Stream {
    /// The mailbox that holds nothing.
    pub fn new() -> (s: Stream)
        ensures
            s@ == SpecStream::empty(),
    {
        let s = Stream { inputs: VecDeque::new(), events: VecDeque::new() };
        assert(s@.inputs =~= Seq::empty());
        assert(s@.events =~= Seq::empty());
        s
    }

    /// Emits `Finished`.
    pub fn finished(&mut self)
        ensures
            final(self)@ == old(self)@.emit(SpecEvent::Finished),
    {
        self.events.push_back(Event::Finished);
        assert(final(self)@.events =~= old(self)@.events.push(SpecEvent::Finished));
        assert(final(self)@.inputs =~= old(self)@.inputs);
    }

    /// Asks for a line of input: emits `NeedsInput` and takes the oldest
    /// waiting line. `None` where no line is waiting.
    pub fn read_input(&mut self) -> (r: Option<String>)
        ensures
            final(self)@ == old(self)@.read_input(),
            match r {
                Some(s) => old(self)@.inputs.len() > 0 && s@ == old(self)@.inputs[0],
                None => old(self)@.inputs.len() == 0,
            },
    {
        self.events.push_back(Event::NeedsInput);
        let line = self.inputs.pop_front();
        assert(final(self)@.events =~= old(self)@.events.push(SpecEvent::NeedsInput));
        assert(final(self)@.inputs =~= old(self)@.read_input().inputs);
        line
    }

    /// Supplies a line of input.
    pub fn write_input(&mut self, s: &str)
        ensures
            final(self)@ == old(self)@.write_input(s@),
    {
        self.inputs.push_back(String::from_str(s));
        assert(final(self)@.inputs =~= old(self)@.inputs.push(s@));
        assert(final(self)@.events =~= old(self)@.events);
    }

    /// Emits a chunk of output.
    pub fn write_output(&mut self, s: &str)
        ensures
            final(self)@ == old(self)@.emit(SpecEvent::Output(s@)),
    {
        self.events.push_back(Event::Output(String::from_str(s)));
        assert(final(self)@.events =~= old(self)@.events.push(SpecEvent::Output(s@)));
        assert(final(self)@.inputs =~= old(self)@.inputs);
    }

    /// Takes the oldest event that was not yet taken. `None` where there is none.
    pub fn get_event(&mut self) -> (r: Option<Event>)
        ensures
            match r {
                Some(e) => old(self)@.events.len() > 0 && e@ == old(self)@.events[0]
                    && final(self)@ == (SpecStream {
                    events: old(self)@.events.drop_first(),
                    ..old(self)@
                }),
                None => old(self)@.events.len() == 0 && final(self)@ == old(self)@,
            },
    {
        let event = self.events.pop_front();
        assert(final(self)@.inputs =~= old(self)@.inputs);
        if event.is_some() {
            assert(final(self)@.events =~= old(self)@.events.drop_first());
        } else {
            assert(final(self)@.events =~= old(self)@.events);
        }
        event
    }

    /// The number of events that wait to be taken.
    pub fn pending(&self) -> (n: usize)
        ensures
            n == self@.events.len(),
    {
        self.events.len()
    }

    /// Takes all the events that wait, and gives those behind the first
    /// `seen` of them, in order.
    pub fn take_after(&mut self, seen: usize) -> (out: Vec<Event>)
        ensures
            final(self)@.inputs == old(self)@.inputs,
            final(self)@.events.len() == 0,
            events_view(out@) == old(self)@.events.skip(
                if seen <= old(self)@.events.len() {
                    seen as int
                } else {
                    old(self)@.events.len() as int
                },
            ),
    {
        let ghost all = self@.events;
        let total = self.events.len();
        let from = if seen <= total {
            seen
        } else {
            total
        };
        let mut out: Vec<Event> = Vec::new();
        let mut k: usize = 0;
        while k < total
            invariant
                k <= total,
                from <= total,
                total == all.len(),
                self@.inputs == old(self)@.inputs,
                self@.events == all.skip(k as int),
                all == old(self)@.events,
                events_view(out@) == if k <= from {
                    Seq::<SpecEvent>::empty()
                } else {
                    all.subrange(from as int, k as int)
                },
            decreases total - k,
        {
            let ghost before = out@;
            match self.get_event() {
                Some(event) => {
                    if k >= from {
                        out.push(event);
                        assert(events_view(out@) =~= events_view(before).push(all[k as int]));
                        assert(all.subrange(from as int, k + 1) =~= all.subrange(
                            from as int,
                            k as int,
                        ).push(all[k as int]));
                    }
                    assert(all.skip(k as int).drop_first() =~= all.skip(k + 1));
                },
                None => {},
            }
            k += 1;
        }
        assert(events_view(out@) =~= all.skip(from as int));
        out
    }
}

/// The events of a list, each by its model.
pub open spec fn events_view(events: Seq<Event>) -> Seq<SpecEvent> {
    Seq::new(events.len(), |i: int| events[i]@)
}

} // verus!
