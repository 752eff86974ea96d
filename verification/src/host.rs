//! A call into a module, step by step.
//!
//! Calling an export of a module means asking the module for a buffer, writing
//! the encoded arguments there, invoking the export, reading the encoded result
//! and giving every buffer back. An export of an asynchronous method returns
//! the handle of a future instead of a result; the host polls the future, and
//! waits to be woken whenever the poll says "pending".
//!
//! The engine that runs the module does each of these things. [`Call`] decides
//! which of them is next: the caller does what an action names and reports what
//! came of it as an event. A call that goes wrong on the way gives back what it
//! holds before it fails.

use crate::abi::{
    async_export_name, async_name, spec_unpack, unpack, BUFFER_ALIGN, PENDING, WAKER_SLOT_SIZE,
};
use crate::script::{Reply, ReplyView};
use crate::text::{ends_with, has_ending};
use crate::value::RawValue;
use crate::wire::{
    args_encodable, args_encoding, encode_args, encode_strings, from_slice, strings_encodable,
    strings_encoding, value_at, views, WireError,
};
use vstd::multiset::Multiset;
use vstd::prelude::*;

verus! {

/// Why a call failed.
#[derive(Debug, Clone, Copy, PartialEq, Eq, Structural)]
pub enum CallError {
    /// The module exports the method neither under its name nor as an
    /// asynchronous method.
    NotFound,
    /// The engine reported an error.
    Trapped,
    /// The encoded arguments are longer than a module can address.
    TooLong,
    /// An event came that the call did not wait for.
    Protocol,
}

/// Something that the host holds of the module and has to give back.
#[derive(Debug, Clone, Copy, PartialEq, Eq, Structural)]
pub enum Release {
    /// A result, which the module allocated: it goes to the export of the
    /// module that frees results.
    Result { len: u32, ptr: u32 },
    /// A future, which goes to the export that frees futures.
    Future { handle: u64 },
    /// A buffer that the host asked for, which goes to the export that frees
    /// buffers.
    Buffer { ptr: u32, size: u32, align: u32 },
}

/// What the engine reports.
#[derive(Debug)]
pub enum Event {
    /// The caller wants the call to begin.
    Begin,
    /// The buffer that was asked for lies at this address.
    Allocated(u32),
    /// What was to be written, or given back, is written or given back.
    Done,
    /// The module has the export that was looked for.
    Found,
    /// The module does not have it.
    NotFound,
    /// The export, or the poll, returned this number.
    Returned(u64),
    /// The module woke the host.
    Woken,
    /// These bytes were read.
    Bytes(Vec<u8>),
    /// The engine reported an error.
    Trapped,
}

/// What an event says.
pub enum EventView {
    Begin,
    Allocated(u32),
    Done,
    Found,
    NotFound,
    Returned(u64),
    Woken,
    Bytes(Seq<u8>),
    Trapped,
}

impl View for Event {
    type V = EventView;

    open spec fn view(&self) -> EventView {
        match self {
            Event::Begin => EventView::Begin,
            Event::Allocated(ptr) => EventView::Allocated(*ptr),
            Event::Done => EventView::Done,
            Event::Found => EventView::Found,
            Event::NotFound => EventView::NotFound,
            Event::Returned(raw) => EventView::Returned(*raw),
            Event::Woken => EventView::Woken,
            Event::Bytes(bytes) => EventView::Bytes(bytes@),
            Event::Trapped => EventView::Trapped,
        }
    }
}

/// What the caller does next.
#[derive(Debug)]
pub enum Action {
    /// Ask the module for a buffer, and report `Allocated`.
    Allocate { size: u32, align: u32 },
    /// Write the encoded arguments at this address, and report `Done`.
    WriteArgs { ptr: u32 },
    /// Look for an export of this name, and report `Found` or `NotFound`.
    Resolve { name: String },
    /// Invoke the export with the length and the address of the arguments, and
    /// report `Returned`.
    Invoke { name: String, len: u32, ptr: u32 },
    /// Store the waker of the host in the slot, poll the future, and report
    /// `Returned`.
    Poll { future: u64, slot: u32 },
    /// Wait until the module wakes the host, and report `Woken`.
    AwaitWake,
    /// Read so many bytes at this address, and report `Bytes`.
    Read { ptr: u32, len: u32 },
    /// Give this back to the module, and report `Done`, or `Trapped` where the
    /// module would not take it.
    Release(Release),
    /// Take the result: the call is done, and holds nothing of the module.
    Finish,
    /// Give up: the call has failed, and holds nothing of the module.
    Fail(CallError),
}

/// What an action says.
pub enum ActionView {
    Allocate { size: u32, align: u32 },
    WriteArgs { ptr: u32 },
    Resolve { name: Seq<char> },
    Invoke { name: Seq<char>, len: u32, ptr: u32 },
    Poll { future: u64, slot: u32 },
    AwaitWake,
    Read { ptr: u32, len: u32 },
    Release(Release),
    Finish,
    Fail(CallError),
}

impl View for Action {
    type V = ActionView;

    open spec fn view(&self) -> ActionView {
        match self {
            Action::Allocate { size, align } => ActionView::Allocate { size: *size, align: *align },
            Action::WriteArgs { ptr } => ActionView::WriteArgs { ptr: *ptr },
            Action::Resolve { name } => ActionView::Resolve { name: name@ },
            Action::Invoke { name, len, ptr } => ActionView::Invoke {
                name: name@,
                len: *len,
                ptr: *ptr,
            },
            Action::Poll { future, slot } => ActionView::Poll { future: *future, slot: *slot },
            Action::AwaitWake => ActionView::AwaitWake,
            Action::Read { ptr, len } => ActionView::Read { ptr: *ptr, len: *len },
            Action::Release(release) => ActionView::Release(*release),
            Action::Finish => ActionView::Finish,
            Action::Fail(error) => ActionView::Fail(*error),
        }
    }
}

/// Where a call stands.
#[derive(Debug, Clone, Copy, PartialEq, Eq, Structural)]
pub enum Phase {
    /// Nothing has been done.
    Start,
    /// The buffer for the arguments is being asked for.
    AllocatingArgs,
    /// The arguments are being written.
    WritingArgs,
    /// The export is being looked for: under the name of the method, or as an
    /// asynchronous method.
    Resolving { asynchronous: bool },
    /// The export is being invoked.
    Invoking { asynchronous: bool },
    /// The waker slot of a future is being asked for.
    AllocatingSlot { future: u64 },
    /// The future is being polled.
    Polling { future: u64, slot: u32 },
    /// The future is pending, and the host waits to be woken.
    Waiting { future: u64, slot: u32 },
    /// The result is being read.
    Reading,
    /// What the host holds is being given back, piece by piece; `next` pieces
    /// are given back already.
    Releasing { next: usize },
    /// The call is done.
    Finished,
    /// The call has failed.
    Failed(CallError),
}

/// The state of a call.
pub struct Calling {
    /// The name of the method.
    pub name: Seq<char>,
    /// The encoded arguments.
    pub args: Seq<u8>,
    /// Where the arguments lie in the module, once they have a buffer.
    pub args_ptr: u32,
    pub phase: Phase,
    /// What is to be given back before the call ends, in this order.
    pub releases: Seq<Release>,
    /// The encoded result, once it is read.
    pub result: Seq<u8>,
    /// Why the call fails once everything is given back, where it does.
    pub failure: Option<CallError>,
}

impl Calling {
    /// The state before anything is done.
    pub open spec fn initial(name: Seq<char>, args: Seq<u8>) -> Calling {
        Calling {
            name,
            args,
            args_ptr: 0,
            phase: Phase::Start,
            releases: Seq::empty(),
            result: Seq::empty(),
            failure: None,
        }
    }

    /// The buffer of the arguments, as something to give back.
    pub open spec fn args_buffer(self) -> Release {
        Release::Buffer { ptr: self.args_ptr, size: self.args.len() as u32, align: BUFFER_ALIGN }
    }

    /// A call is past its start only with arguments that a module can address,
    /// and gives back only what is on its list, which is never longer than
    /// four.
    pub open spec fn well_formed(self) -> bool {
        &&& !(self.phase is Start) && !(self.phase is Failed) ==> self.args.len() <= 0xffff_ffff
        &&& self.phase matches Phase::Releasing { next } ==> next < self.releases.len()
        &&& self.phase is Reading ==> self.releases.len() > 0
        &&& self.releases.len() <= 4
    }

    /// The state of a call that has failed.
    pub open spec fn failed(self, error: CallError) -> (Calling, ActionView) {
        (Calling { phase: Phase::Failed(error), ..self }, ActionView::Fail(error))
    }

    /// The state in which the result is read, with the list of what is to be
    /// given back afterwards.
    pub open spec fn reading(self, raw: u64, releases: Seq<Release>) -> (Calling, ActionView) {
        (
            Calling { phase: Phase::Reading, releases, ..self },
            ActionView::Read { ptr: spec_unpack(raw).1, len: spec_unpack(raw).0 },
        )
    }

    /// The state in which the list of what is to be given back is gone through
    /// from its start.
    pub open spec fn releasing(self) -> (Calling, ActionView) {
        (Calling { phase: Phase::Releasing { next: 0 }, ..self }, ActionView::Release(self.releases[0]))
    }

    /// The waker slot of a future, as something to give back.
    pub open spec fn slot_buffer(slot: u32) -> Release {
        Release::Buffer { ptr: slot, size: WAKER_SLOT_SIZE, align: BUFFER_ALIGN }
    }

    /// What the host holds of the module at this point of the call, in the
    /// order in which it will give it back: the result, the future, the waker
    /// slot, the buffer of the arguments.
    pub open spec fn owed(self) -> Seq<Release> {
        match self.phase {
            Phase::Start | Phase::AllocatingArgs | Phase::Finished | Phase::Failed(_) => Seq::empty(),
            Phase::WritingArgs | Phase::Resolving { .. } | Phase::Invoking { .. } => seq![
                self.args_buffer(),
            ],
            Phase::AllocatingSlot { future } => seq![
                Release::Future { handle: future },
                self.args_buffer(),
            ],
            Phase::Polling { future, slot } | Phase::Waiting { future, slot } => seq![
                Release::Future { handle: future },
                Calling::slot_buffer(slot),
                self.args_buffer(),
            ],
            Phase::Reading => self.releases,
            Phase::Releasing { next } => self.releases.skip(next as int),
        }
    }

    /// The state of a call that is given up. A call that holds nothing fails at
    /// once. A call that holds something gives all of it back first, and fails
    /// with the answer to the last release.
    pub open spec fn given_up(self, error: CallError) -> (Calling, ActionView) {
        if self.owed().len() == 0 {
            self.failed(error)
        } else {
            Calling { releases: self.owed(), failure: Some(error), ..self }.releasing()
        }
    }

    /// Why the call fails in the end, after the answer to a release: for the
    /// reason that it had, or else because the release itself went wrong.
    pub open spec fn failure_after(self, answer: EventView) -> Option<CallError> {
        match self.failure {
            Some(error) => Some(error),
            None => match answer {
                EventView::Done => None,
                EventView::Trapped => Some(CallError::Trapped),
                _ => Some(CallError::Protocol),
            },
        }
    }

    /// The state after an event, and what the caller does next.
    ///
    /// A call ends only when it holds nothing of the module. An error of the
    /// engine, an event that the call does not wait for, and a method that is
    /// not found all give the call up: what it holds is given back, piece by
    /// piece, and then it fails. While things are given back every answer leads
    /// on to the next piece, also the answer that a release went wrong.
    pub open spec fn step(self, event: EventView) -> (Calling, ActionView) {
        match (self.phase, event) {
            (Phase::Finished, _) => (self, ActionView::Finish),
            (Phase::Failed(error), _) => (self, ActionView::Fail(error)),
            (Phase::Releasing { next }, _) => {
                let failure = self.failure_after(event);
                if next + 1 < self.releases.len() {
                    (
                        Calling {
                            phase: Phase::Releasing { next: (next + 1) as usize },
                            failure,
                            ..self
                        },
                        ActionView::Release(self.releases[next + 1]),
                    )
                } else {
                    match failure {
                        Some(error) => Calling { failure, ..self }.failed(error),
                        None => (Calling { phase: Phase::Finished, ..self }, ActionView::Finish),
                    }
                }
            },
            (_, EventView::Trapped) => self.given_up(CallError::Trapped),
            (Phase::Start, EventView::Begin) => if self.args.len() > 0xffff_ffff {
                self.failed(CallError::TooLong)
            } else {
                (
                    Calling { phase: Phase::AllocatingArgs, ..self },
                    ActionView::Allocate { size: self.args.len() as u32, align: BUFFER_ALIGN },
                )
            },
            (Phase::AllocatingArgs, EventView::Allocated(ptr)) => (
                Calling { phase: Phase::WritingArgs, args_ptr: ptr, ..self },
                ActionView::WriteArgs { ptr },
            ),
            (Phase::WritingArgs, EventView::Done) => (
                Calling { phase: Phase::Resolving { asynchronous: false }, ..self },
                ActionView::Resolve { name: self.name },
            ),
            (Phase::Resolving { asynchronous }, EventView::Found) => (
                Calling { phase: Phase::Invoking { asynchronous }, ..self },
                ActionView::Invoke {
                    name: if asynchronous {
                        async_name(self.name)
                    } else {
                        self.name
                    },
                    len: self.args.len() as u32,
                    ptr: self.args_ptr,
                },
            ),
            (Phase::Resolving { asynchronous: false }, EventView::NotFound) => (
                Calling { phase: Phase::Resolving { asynchronous: true }, ..self },
                ActionView::Resolve { name: async_name(self.name) },
            ),
            (Phase::Resolving { asynchronous: true }, EventView::NotFound) => self.given_up(
                CallError::NotFound,
            ),
            (Phase::Invoking { asynchronous: false }, EventView::Returned(raw)) => self.reading(
                raw,
                seq![
                    Release::Result { len: spec_unpack(raw).0, ptr: spec_unpack(raw).1 },
                    self.args_buffer(),
                ],
            ),
            (Phase::Invoking { asynchronous: true }, EventView::Returned(future)) => (
                Calling { phase: Phase::AllocatingSlot { future }, ..self },
                ActionView::Allocate { size: WAKER_SLOT_SIZE, align: BUFFER_ALIGN },
            ),
            (Phase::AllocatingSlot { future }, EventView::Allocated(slot)) => (
                Calling { phase: Phase::Polling { future, slot }, ..self },
                ActionView::Poll { future, slot },
            ),
            (Phase::Polling { future, slot }, EventView::Returned(raw)) => if raw == PENDING {
                (Calling { phase: Phase::Waiting { future, slot }, ..self }, ActionView::AwaitWake)
            } else {
                self.reading(
                    raw,
                    seq![
                        Release::Result { len: spec_unpack(raw).0, ptr: spec_unpack(raw).1 },
                        Release::Future { handle: future },
                        Calling::slot_buffer(slot),
                        self.args_buffer(),
                    ],
                )
            },
            (Phase::Waiting { future, slot }, EventView::Woken) => (
                Calling { phase: Phase::Polling { future, slot }, ..self },
                ActionView::Poll { future, slot },
            ),
            (Phase::Reading, EventView::Bytes(bytes)) => Calling {
                result: bytes,
                ..self
            }.releasing(),
            _ => self.given_up(CallError::Protocol),
        }
    }
}

/// The decisions of one call into a module. The caller begins with the event
/// `Begin`, does what each action names, and reports what came of it, until the
/// action is `Finish` or `Fail`.
pub struct Call {
    name: String,
    args: Vec<u8>,
    args_ptr: u32,
    phase: Phase,
    releases: Vec<Release>,
    result: Vec<u8>,
    failure: Option<CallError>,
}

impl View for Call {
    type V = Calling;

    closed spec fn view(&self) -> Calling {
        Calling {
            name: self.name@,
            args: self.args@,
            args_ptr: self.args_ptr,
            phase: self.phase,
            releases: self.releases@,
            result: self.result@,
            failure: self.failure,
        }
    }
}

impl Call {
    #[verifier::type_invariant]
    spec fn well_formed(self) -> bool {
        self@.well_formed()
    }

    /// A call of the method `name` with these encoded arguments.
    pub fn new(name: String, args: Vec<u8>) -> (r: Call)
        ensures
            r@ == Calling::initial(name@, args@),
    {
        Call {
            name,
            args,
            args_ptr: 0,
            phase: Phase::Start,
            releases: Vec::new(),
            result: Vec::new(),
            failure: None,
        }
    }

    /// Where the call stands.
    pub fn phase(&self) -> (r: Phase)
        ensures
            r == self@.phase,
    {
        self.phase
    }

    /// The encoded arguments, for the action `WriteArgs`.
    pub fn args(&self) -> (r: &Vec<u8>)
        ensures
            r@ == self@.args,
    {
        &self.args
    }

    /// Begins to give back what is on the list.
    fn release_first(&mut self, releases: Vec<Release>) -> (r: Action)
        requires
            old(self).phase is Failed,
            0 < releases@.len() <= 4,
            old(self).args@.len() <= 0xffff_ffff,
        ensures
            (final(self)@, r@) == (Calling { releases: releases@, ..old(self)@ }).releasing(),
            final(self)@.well_formed(),
    {
        let first = releases[0];
        self.releases = releases;
        self.phase = Phase::Releasing { next: 0 };
        Action::Release(first)
    }

    /// The buffer of the arguments, as something to give back.
    fn args_release(&self) -> (r: Release)
        requires
            self.args@.len() <= 0xffff_ffff,
        ensures
            r == self@.args_buffer(),
    {
        Release::Buffer { ptr: self.args_ptr, size: self.args.len() as u32, align: BUFFER_ALIGN }
    }

    /// Gives the call up: begins to give back what the call holds, or fails at
    /// once where it holds nothing.
    fn give_up(&mut self, error: CallError) -> (r: Action)
        requires
            !(old(self).phase is Releasing),
            !(old(self).phase is Finished),
            !(old(self).phase is Failed),
        ensures
            (final(self)@, r@) == old(self)@.given_up(error),
            final(self)@.well_formed(),
    {
        proof {
            use_type_invariant(&*self);
        }
        let mut releases: Vec<Release> = Vec::new();
        match self.phase {
            Phase::WritingArgs | Phase::Resolving { .. } | Phase::Invoking { .. } => {
                releases.push(self.args_release());
            },
            Phase::AllocatingSlot { future } => {
                releases.push(Release::Future { handle: future });
                releases.push(self.args_release());
            },
            Phase::Polling { future, slot } | Phase::Waiting { future, slot } => {
                releases.push(Release::Future { handle: future });
                releases.push(
                    Release::Buffer { ptr: slot, size: WAKER_SLOT_SIZE, align: BUFFER_ALIGN },
                );
                releases.push(self.args_release());
            },
            Phase::Reading => {
                let first = self.releases[0];
                self.phase = Phase::Failed(error);
                self.failure = Some(error);
                self.phase = Phase::Releasing { next: 0 };
                return Action::Release(first);
            },
            _ => {
                self.phase = Phase::Failed(error);
                return Action::Fail(error);
            },
        }
        assert(releases@ =~= old(self)@.owed());
        self.phase = Phase::Failed(error);
        self.failure = Some(error);
        self.release_first(releases)
    }

    /// Begins to read the result.
    fn read_result(&mut self, raw: u64, releases: Vec<Release>) -> (r: Action)
        requires
            old(self).phase is Failed,
            0 < releases@.len() <= 4,
            old(self).args@.len() <= 0xffff_ffff,
        ensures
            (final(self)@, r@) == (Calling {
                phase: Phase::Reading,
                releases: releases@,
                ..old(self)@
            }, ActionView::Read { ptr: spec_unpack(raw).1, len: spec_unpack(raw).0 }),
            final(self)@.well_formed(),
    {
        let (len, ptr) = unpack(raw);
        self.releases = releases;
        self.phase = Phase::Reading;
        Action::Read { ptr, len }
    }

    /// Takes an event, and says what the caller does next.
    pub fn step(&mut self, event: Event) -> (r: Action)
        ensures
            old(self)@.well_formed(),
            final(self)@.well_formed(),
            (final(self)@, r@) == old(self)@.step(event@),
    {
        proof {
            use_type_invariant(&*self);
        }
        let phase = self.phase;
        match (phase, event) {
            (Phase::Finished, _) => Action::Finish,
            (Phase::Failed(error), _) => Action::Fail(error),
            (Phase::Releasing { next }, answer) => {
                let failure = match self.failure {
                    Some(error) => Some(error),
                    None => match answer {
                        Event::Done => None,
                        Event::Trapped => Some(CallError::Trapped),
                        _ => Some(CallError::Protocol),
                    },
                };
                let total = self.releases.len();
                if next + 1 < total {
                    let following = self.releases[next + 1];
                    self.phase = Phase::Failed(CallError::Protocol);
                    self.failure = failure;
                    self.phase = Phase::Releasing { next: next + 1 };
                    Action::Release(following)
                } else {
                    match failure {
                        Some(error) => {
                            self.phase = Phase::Failed(error);
                            self.failure = failure;
                            Action::Fail(error)
                        },
                        None => {
                            self.phase = Phase::Finished;
                            Action::Finish
                        },
                    }
                }
            },
            (_, Event::Trapped) => self.give_up(CallError::Trapped),
            (Phase::Start, Event::Begin) => {
                if self.args.len() > 0xffff_ffff {
                    self.phase = Phase::Failed(CallError::TooLong);
                    Action::Fail(CallError::TooLong)
                } else {
                    self.phase = Phase::AllocatingArgs;
                    Action::Allocate { size: self.args.len() as u32, align: BUFFER_ALIGN }
                }
            },
            (Phase::AllocatingArgs, Event::Allocated(ptr)) => {
                self.phase = Phase::Failed(CallError::Protocol);
                self.args_ptr = ptr;
                self.phase = Phase::WritingArgs;
                Action::WriteArgs { ptr }
            },
            (Phase::WritingArgs, Event::Done) => {
                self.phase = Phase::Resolving { asynchronous: false };
                Action::Resolve { name: self.name.clone() }
            },
            (Phase::Resolving { asynchronous }, Event::Found) => {
                self.phase = Phase::Invoking { asynchronous };
                let name = if asynchronous {
                    async_export_name(self.name.as_str())
                } else {
                    self.name.clone()
                };
                Action::Invoke { name, len: self.args.len() as u32, ptr: self.args_ptr }
            },
            (Phase::Resolving { asynchronous: false }, Event::NotFound) => {
                self.phase = Phase::Resolving { asynchronous: true };
                Action::Resolve { name: async_export_name(self.name.as_str()) }
            },
            (Phase::Resolving { asynchronous: true }, Event::NotFound) => self.give_up(
                CallError::NotFound,
            ),
            (Phase::Invoking { asynchronous: false }, Event::Returned(raw)) => {
                let (len, ptr) = unpack(raw);
                let mut releases: Vec<Release> = Vec::new();
                releases.push(Release::Result { len, ptr });
                releases.push(
                    Release::Buffer { ptr: self.args_ptr, size: self.args.len() as u32, align: BUFFER_ALIGN },
                );
                assert(releases@ =~= seq![
                    Release::Result { len: spec_unpack(raw).0, ptr: spec_unpack(raw).1 },
                    old(self)@.args_buffer(),
                ]);
                self.phase = Phase::Failed(CallError::Protocol);
                self.read_result(raw, releases)
            },
            (Phase::Invoking { asynchronous: true }, Event::Returned(future)) => {
                self.phase = Phase::AllocatingSlot { future };
                Action::Allocate { size: WAKER_SLOT_SIZE, align: BUFFER_ALIGN }
            },
            (Phase::AllocatingSlot { future }, Event::Allocated(slot)) => {
                self.phase = Phase::Polling { future, slot };
                Action::Poll { future, slot }
            },
            (Phase::Polling { future, slot }, Event::Returned(raw)) => {
                if raw == PENDING {
                    self.phase = Phase::Waiting { future, slot };
                    Action::AwaitWake
                } else {
                    let (len, ptr) = unpack(raw);
                    let mut releases: Vec<Release> = Vec::new();
                    releases.push(Release::Result { len, ptr });
                    releases.push(Release::Future { handle: future });
                    releases.push(
                        Release::Buffer { ptr: slot, size: WAKER_SLOT_SIZE, align: BUFFER_ALIGN },
                    );
                    releases.push(
                        Release::Buffer {
                            ptr: self.args_ptr,
                            size: self.args.len() as u32,
                            align: BUFFER_ALIGN,
                        },
                    );
                    assert(releases@ =~= seq![
                        Release::Result { len: spec_unpack(raw).0, ptr: spec_unpack(raw).1 },
                        Release::Future { handle: future },
                        Calling::slot_buffer(slot),
                        old(self)@.args_buffer(),
                    ]);
                    self.phase = Phase::Failed(CallError::Protocol);
                    self.read_result(raw, releases)
                }
            },
            (Phase::Waiting { future, slot }, Event::Woken) => {
                self.phase = Phase::Polling { future, slot };
                Action::Poll { future, slot }
            },
            (Phase::Reading, Event::Bytes(bytes)) => {
                let first = self.releases[0];
                self.phase = Phase::Failed(CallError::Protocol);
                self.result = bytes;
                self.phase = Phase::Releasing { next: 0 };
                Action::Release(first)
            },
            _ => self.give_up(CallError::Protocol),
        }
    }

    /// The encoded result of a call that is done, or why there is none: the
    /// error of a call that failed, and `Protocol` for a call that is still
    /// under way.
    pub fn into_result(self) -> (r: Result<Vec<u8>, CallError>)
        ensures
            match r {
                Ok(bytes) => self@.phase is Finished && bytes@ == self@.result,
                Err(error) => match self@.phase {
                    Phase::Finished => false,
                    Phase::Failed(e) => error == e,
                    _ => error == CallError::Protocol,
                },
            },
    {
        match self.phase {
            Phase::Finished => Ok(self.result),
            Phase::Failed(error) => Err(error),
            _ => Err(CallError::Protocol),
        }
    }
}

/// While a future is pending nothing is read: a poll that says "pending" makes
/// the host wait, and any other poll makes it read the result.
pub proof fn lemma_pending_waits(state: Calling, raw: u64)
    requires
        state.phase is Polling,
    ensures
        raw == PENDING ==> state.step(EventView::Returned(raw)).1 is AwaitWake && state.step(
            EventView::Returned(raw),
        ).0.phase is Waiting,
        raw != PENDING ==> state.step(EventView::Returned(raw)).1 is Read && state.step(
            EventView::Returned(raw),
        ).0.phase is Reading,
{
}

/// A host that waits polls again when it is woken, and not before: the same
/// future, with the same waker slot.
pub proof fn lemma_wake_polls(state: Calling, event: EventView)
    requires
        state.phase is Waiting,
    ensures
        state.step(event).1 is Poll <==> event is Woken,
        event is Woken ==> state.step(event).1 == (ActionView::Poll {
            future: state.phase->Waiting_future,
            slot: state.phase->Waiting_slot,
        }),
{
}

/// Whether one of the texts is `wanted`.
pub open spec fn among(names: Seq<Seq<char>>, wanted: Seq<char>) -> bool {
    exists|i: int| 0 <= i < names.len() && #[trigger] names[i] == wanted
}

/// Whether one of the names is that of an asynchronous method.
pub open spec fn any_async(names: Seq<Seq<char>>) -> bool {
    exists|i: int| 0 <= i < names.len() && ends_with(#[trigger] names[i], async_name(Seq::empty()))
}

/// The export that allocates a buffer.
pub open spec fn alloc_export() -> Seq<char> {
    "__abi_alloc"@
}

/// The export that frees a buffer.
pub open spec fn free_export() -> Seq<char> {
    "__abi_free"@
}

/// The export that frees a result.
pub open spec fn free_result_export() -> Seq<char> {
    "__export_free"@
}

/// The export that polls a future.
pub open spec fn poll_export() -> Seq<char> {
    "__export_async_poll"@
}

/// The export that frees a future.
pub open spec fn free_future_export() -> Seq<char> {
    "__export_async_free"@
}

/// The export of these that a host needs first and a module with the exports
/// `names` lacks: a host needs the exports that allocate, free, and free a
/// result, and, of a module with an asynchronous method, those that poll and
/// free a future.
pub open spec fn missing_export(names: Seq<Seq<char>>) -> Option<Seq<char>> {
    if !among(names, free_export()) {
        Some(free_export())
    } else if !among(names, alloc_export()) {
        Some(alloc_export())
    } else if !among(names, free_result_export()) {
        Some(free_result_export())
    } else if any_async(names) && !among(names, poll_export()) {
        Some(poll_export())
    } else if any_async(names) && !among(names, free_future_export()) {
        Some(free_future_export())
    } else {
        None
    }
}

/// Whether one of the names is `wanted`.
fn is_among(names: &Vec<String>, wanted: &str) -> (r: bool)
    ensures
        r == among(crate::wire::texts(names@), wanted@),
{
    let wanted_name: String = wanted.to_owned();
    let mut i: usize = 0;
    while i < names.len()
        invariant
            i <= names@.len(),
            wanted_name@ == wanted@,
            forall|j: int| 0 <= j < i ==> crate::wire::texts(names@)[j] != wanted@,
        decreases names@.len() - i,
    {
        if names[i] == wanted_name {
            assert(crate::wire::texts(names@)[i as int] == wanted@);
            return true;
        }
        i += 1;
    }
    false
}

/// Whether one of the names is that of an asynchronous method.
fn has_async(names: &Vec<String>) -> (r: bool)
    ensures
        r == any_async(crate::wire::texts(names@)),
{
    proof {
        reveal_strlit("_async");
        assert("_async"@ =~= async_name(Seq::empty()));
    }
    let mut i: usize = 0;
    while i < names.len()
        invariant
            i <= names@.len(),
            "_async"@ == async_name(Seq::empty()),
            forall|j: int|
                0 <= j < i ==> !ends_with(
                    #[trigger] crate::wire::texts(names@)[j],
                    async_name(Seq::empty()),
                ),
        decreases names@.len() - i,
    {
        if has_ending(names[i].as_str(), "_async") {
            assert(ends_with(crate::wire::texts(names@)[i as int], async_name(Seq::empty())));
            return true;
        }
        i += 1;
    }
    false
}

/// Decides whether a module with these exports can be a host: `Ok`, or the
/// export that it lacks. There is no host with a part of the exports.
pub fn check_exports(names: &Vec<String>) -> (r: Result<(), String>)
    ensures
        match r {
            Ok(()) => missing_export(crate::wire::texts(names@)) is None,
            Err(name) => missing_export(crate::wire::texts(names@)) == Some(name@),
        },
{
    if !is_among(names, "__abi_free") {
        return Err("__abi_free".to_owned());
    }
    if !is_among(names, "__abi_alloc") {
        return Err("__abi_alloc".to_owned());
    }
    if !is_among(names, "__export_free") {
        return Err("__export_free".to_owned());
    }
    if has_async(names) {
        if !is_among(names, "__export_async_poll") {
            return Err("__export_async_poll".to_owned());
        }
        if !is_among(names, "__export_async_free") {
            return Err("__export_async_free".to_owned());
        }
    }
    Ok(())
}

/// A module as the host sees it: the names of its exports, among which are all
/// that a host needs.
pub struct Host {
    exports: Vec<String>,
}

impl Host {
    #[verifier::type_invariant]
    spec fn complete(self) -> bool {
        missing_export(crate::wire::texts(self.exports@)) is None
    }

    /// The names of the exports.
    pub closed spec fn exports(self) -> Seq<Seq<char>> {
        crate::wire::texts(self.exports@)
    }

    /// The host of a module with these exports, or the name of the export that
    /// the module lacks.
    pub fn new(exports: Vec<String>) -> (r: Result<Host, String>)
        ensures
            match r {
                Ok(host) => missing_export(crate::wire::texts(exports@)) is None && host.exports()
                    == crate::wire::texts(exports@),
                Err(name) => missing_export(crate::wire::texts(exports@)) == Some(name@),
            },
    {
        match check_exports(&exports) {
            Ok(()) => Ok(Host { exports }),
            Err(name) => Err(name),
        }
    }

    /// A call of a method with arguments that are encoded already.
    pub fn call(&self, name: &str, args: Vec<u8>) -> (r: Call)
        ensures
            r@ == Calling::initial(name@, args@),
    {
        Call::new(name.to_owned(), args)
    }

    /// A call of a method of a script plugin with these arguments, or `TooLong`
    /// where the arguments cannot be written.
    pub fn dispatch_method(&self, name: &str, args: &Vec<RawValue>) -> (r: Result<Call, WireError>)
        ensures
            r is Ok <==> args_encodable(views(args@)),
            r matches Ok(call) ==> call@ == Calling::initial(name@, args_encoding(views(args@))),
            r matches Err(error) ==> error == WireError::TooLong,
    {
        match encode_args(args) {
            Ok(bytes) => Ok(self.call(name, bytes)),
            Err(e) => Err(e),
        }
    }

    /// The call that asks a plugin for its capabilities. It has no arguments,
    /// which is written as `nil`.
    pub fn plugin_type(&self) -> (r: Call)
        ensures
            r@ == Calling::initial("plugin_type"@, seq![0xc0u8]),
    {
        let mut args: Vec<u8> = Vec::new();
        args.push(0xc0);
        assert(args@ =~= seq![0xc0u8]);
        self.call("plugin_type", args)
    }

    /// The call that asks a text plugin for its commands.
    pub fn text_commands(&self) -> (r: Call)
        ensures
            r@ == Calling::initial("text_commands"@, seq![0xc0u8]),
    {
        let mut args: Vec<u8> = Vec::new();
        args.push(0xc0);
        assert(args@ =~= seq![0xc0u8]);
        self.call("text_commands", args)
    }

    /// The call that hands an action to an action plugin. The context is
    /// encoded already; it is the one argument of the call.
    pub fn process_action(&self, context: &[u8]) -> (r: Call)
        ensures
            r@ == Calling::initial("process_action"@, seq![0x91u8] + context@),
    {
        let mut args: Vec<u8> = Vec::new();
        args.push(0x91);
        args.extend_from_slice(context);
        assert(args@ =~= seq![0x91u8] + context@);
        self.call("process_action", args)
    }

    /// The call of a command of a text plugin. The arguments of the call are
    /// the arguments of the command and the context, which is encoded already.
    pub fn dispatch_command(&self, name: &str, args: &Vec<String>, context: &[u8]) -> (r: Result<
        Call,
        WireError,
    >)
        ensures
            r is Ok <==> strings_encodable(crate::wire::texts(args@)),
            r matches Ok(call) ==> call@ == Calling::initial(
                name@,
                seq![0x92u8] + strings_encoding(crate::wire::texts(args@)) + context@,
            ),
            r matches Err(error) ==> error == WireError::TooLong,
    {
        let mut bytes: Vec<u8> = Vec::new();
        bytes.push(0x92);
        match encode_strings(args, &mut bytes) {
            Ok(()) => {
                bytes.extend_from_slice(context);
                assert(bytes@ =~= seq![0x92u8] + strings_encoding(crate::wire::texts(args@))
                    + context@);
                Ok(self.call(name, bytes))
            },
            Err(e) => Err(e),
        }
    }

    /// The call that hands the game to a game plugin. The context is encoded
    /// already; it is the one argument of the call.
    pub fn process_game(&self, context: &[u8]) -> (r: Call)
        ensures
            r@ == Calling::initial("process_game"@, seq![0x91u8] + context@),
    {
        let mut args: Vec<u8> = Vec::new();
        args.push(0x91);
        args.extend_from_slice(context);
        assert(args@ =~= seq![0x91u8] + context@);
        self.call("process_game", args)
    }
}

/// The reply that the evaluator takes for the end of a call of a method: the
/// value that the result decodes to, and a failure where the call failed or its
/// result is no value.
pub open spec fn reply_of(result: Result<Vec<u8>, CallError>) -> ReplyView {
    match result {
        Ok(bytes) => match value_at(bytes@, 0) {
            Ok((value, _)) => ReplyView::Returned(value),
            Err(_) => ReplyView::Failed,
        },
        Err(_) => ReplyView::Failed,
    }
}

/// The reply that the evaluator takes for the end of a call of a method.
pub fn method_reply(result: Result<Vec<u8>, CallError>) -> (r: Reply)
    ensures
        r@ == reply_of(result),
{
    match result {
        Ok(bytes) => match from_slice(bytes.as_slice()) {
            Ok(value) => Reply::Returned(value),
            Err(_) => Reply::Failed,
        },
        Err(_) => Reply::Failed,
    }
}

/// What the host comes to hold with an event: the buffer that was allocated,
/// the future that an asynchronous export returned, or the result that an
/// export or a poll returned.
pub open spec fn acquired(state: Calling, event: EventView) -> Option<Release> {
    match (state.phase, event) {
        (Phase::AllocatingArgs, EventView::Allocated(ptr)) => Some(
            Release::Buffer { ptr, size: state.args.len() as u32, align: BUFFER_ALIGN },
        ),
        (Phase::AllocatingSlot { .. }, EventView::Allocated(slot)) => Some(
            Calling::slot_buffer(slot),
        ),
        (Phase::Invoking { asynchronous: true }, EventView::Returned(future)) => Some(
            Release::Future { handle: future },
        ),
        (Phase::Invoking { asynchronous: false }, EventView::Returned(raw)) => Some(
            Release::Result { len: spec_unpack(raw).0, ptr: spec_unpack(raw).1 },
        ),
        (Phase::Polling { .. }, EventView::Returned(raw)) => if raw == PENDING {
            None
        } else {
            Some(Release::Result { len: spec_unpack(raw).0, ptr: spec_unpack(raw).1 })
        },
        _ => None,
    }
}

/// The host gives back all that it takes, each thing to the export that is
/// there for it, whether the call ends well or not. What a call holds grows by
/// what an event brings, shrinks by one with every answer to a `Release`, and
/// does not change otherwise; the action `Release` names what is given back
/// next; and a call ends, with `Finish` or with `Fail`, only where it holds
/// nothing, or with the answer to the release of the last thing that it held.
pub proof fn lemma_ledger(state: Calling, event: EventView)
    requires
        state.well_formed(),
    ensures
        ({
            let (next, action) = state.step(event);
            &&& next.well_formed()
            &&& action matches ActionView::Release(release) ==> next.owed().len() > 0
                && next.owed()[0] == release
            &&& (action is Finish || action is Fail) <==> (next.phase is Finished || next.phase
                is Failed)
            &&& action is Release <==> next.phase is Releasing
            &&& (action is Finish || action is Fail) && !(state.phase is Finished) && !(state.phase
                is Failed) ==> state.owed().len() == 0 || (state.phase is Releasing
                && state.owed().len() == 1)
            &&& match acquired(state, event) {
                Some(thing) => exists|at: int|
                    0 <= at <= state.owed().len() && next.owed() == #[trigger] state.owed().insert(
                        at,
                        thing,
                    ),
                None => if state.phase is Releasing {
                    next.owed() == state.owed().skip(1)
                } else {
                    next.owed() == state.owed()
                },
            }
        }),
{
    let (next, action) = state.step(event);
    let owed = state.owed();
    match (state.phase, event) {
        (Phase::Finished, _) => {},
        (Phase::Failed(_), _) => {},
        (Phase::Releasing { next: given }, _) => {
            if given + 1 < state.releases.len() {
                assert(state.releases.skip(given as int).skip(1) =~= state.releases.skip(
                    given + 1,
                ));
                assert(next.owed() =~= owed.skip(1));
            } else {
                assert(owed.skip(1) =~= Seq::<Release>::empty());
            }
        },
        (_, EventView::Trapped) => {
            assert(next.owed() =~= owed);
        },
        (Phase::AllocatingArgs, EventView::Allocated(ptr)) => {
            assert(next.owed() =~= owed.insert(0, acquired(state, event).unwrap()));
        },
        (Phase::AllocatingSlot { future }, EventView::Allocated(slot)) => {
            assert(next.owed() =~= owed.insert(1, acquired(state, event).unwrap()));
        },
        (Phase::Invoking { asynchronous }, EventView::Returned(raw)) => {
            assert(next.owed() =~= owed.insert(0, acquired(state, event).unwrap()));
        },
        (Phase::Polling { future, slot }, EventView::Returned(raw)) => {
            if raw != PENDING {
                assert(next.owed() =~= owed.insert(0, acquired(state, event).unwrap()));
            }
        },
        _ => {
            assert(next.owed() =~= owed);
        },
    }
}

/// An error of the engine does not end a call that holds something: the call
/// goes on to give back all that it holds, in order, and `Fail` comes only
/// with the answer to the last release.
pub proof fn lemma_trap_releases(state: Calling)
    requires
        state.well_formed(),
        state.owed().len() > 0,
    ensures
        ({
            let (next, action) = state.step(EventView::Trapped);
            &&& action is Release || (state.phase is Releasing && state.owed().len() == 1)
            &&& action is Release ==> next.phase is Releasing && (next.failure is Some)
            &&& !(state.phase is Releasing) ==> next.owed() == state.owed() && next.failure
                == Some(CallError::Trapped)
        }),
{
    let (next, action) = state.step(EventView::Trapped);
    if !(state.phase is Releasing) {
        assert(next.owed() =~= state.owed());
    }
}

/// The state of a call after a run of events.
pub open spec fn run(state: Calling, events: Seq<EventView>) -> Calling
    decreases events.len(),
{
    if events.len() == 0 {
        state
    } else {
        run(state, events.drop_last()).step(events.last()).0
    }
}

/// All that the host has taken from the module in a run of events, each thing
/// as often as it was taken.
pub open spec fn taken(state: Calling, events: Seq<EventView>) -> Multiset<Release>
    decreases events.len(),
{
    if events.len() == 0 {
        Multiset::empty()
    } else {
        let before = taken(state, events.drop_last());
        match acquired(run(state, events.drop_last()), events.last()) {
            Some(thing) => before.insert(thing),
            None => before,
        }
    }
}

/// All that the actions of a run of events have told the caller to give back,
/// each thing as often as an action named it.
pub open spec fn released(state: Calling, events: Seq<EventView>) -> Multiset<Release>
    decreases events.len(),
{
    if events.len() == 0 {
        Multiset::empty()
    } else {
        let before = released(state, events.drop_last());
        match run(state, events.drop_last()).step(events.last()).1 {
            ActionView::Release(thing) => before.insert(thing),
            _ => before,
        }
    }
}

/// What a call holds and has not yet told the caller to give back.
pub open spec fn unasked(state: Calling) -> Seq<Release> {
    if state.phase is Releasing {
        state.owed().skip(1)
    } else {
        state.owed()
    }
}

/// A sequence holds its first member and the rest.
proof fn lemma_first_and_rest(things: Seq<Release>)
    requires
        things.len() > 0,
    ensures
        things.to_multiset() == things.skip(1).to_multiset().insert(things[0]),
{
    broadcast use vstd::multiset::group_multiset_axioms;
    broadcast use vstd::seq_lib::group_to_multiset_ensures;

    assert(things.remove(0) =~= things.skip(1));
    vstd::seq_lib::to_multiset_remove(things, 0);
    assert(things.contains(things[0]));
    assert(things.to_multiset() =~= things.skip(1).to_multiset().insert(things[0]));
}

/// A sequence with one more member holds that member and what it held.
proof fn lemma_one_more(things: Seq<Release>, at: int, thing: Release)
    requires
        0 <= at <= things.len(),
    ensures
        things.insert(at, thing).to_multiset() == things.to_multiset().insert(thing),
{
    broadcast use vstd::multiset::group_multiset_axioms;
    broadcast use vstd::seq_lib::group_to_multiset_ensures;

    let longer = things.insert(at, thing);
    assert(longer.remove(at) =~= things);
    assert(longer[at] == thing);
    vstd::seq_lib::to_multiset_remove(longer, at);
    assert(longer.contains(thing));
    assert(longer.to_multiset() =~= things.to_multiset().insert(thing));
}

/// Along every run of events, what the actions have named for giving back,
/// with what the call still holds unasked, is what the call held unasked at
/// the start with all that it has taken since.
pub proof fn lemma_run_ledger(state: Calling, events: Seq<EventView>)
    requires
        state.well_formed(),
    ensures
        run(state, events).well_formed(),
        released(state, events).add(unasked(run(state, events)).to_multiset()) == taken(
            state,
            events,
        ).add(unasked(state).to_multiset()),
    decreases events.len(),
{
    broadcast use vstd::multiset::group_multiset_axioms;

    if events.len() == 0 {
        assert(released(state, events).add(unasked(state).to_multiset()) =~= taken(
            state,
            events,
        ).add(unasked(state).to_multiset()));
    } else {
        let earlier = events.drop_last();
        let before = run(state, earlier);
        lemma_run_ledger(state, earlier);
        lemma_ledger(before, events.last());
        let (next, action) = before.step(events.last());
        let named = released(state, earlier);
        let got = taken(state, earlier);
        let first = unasked(state).to_multiset();
        assert(named.add(unasked(before).to_multiset()) == got.add(first));
        match acquired(before, events.last()) {
            Some(thing) => {
                let at = choose|at: int|
                    0 <= at <= before.owed().len() && next.owed() == #[trigger] before.owed().insert(
                        at,
                        thing,
                    );
                lemma_one_more(before.owed(), at, thing);
                assert(!(before.phase is Releasing));
                assert(!(next.phase is Releasing));
                assert(released(state, events) == named);
                assert(taken(state, events) == got.insert(thing));
                assert(unasked(next).to_multiset() == unasked(before).to_multiset().insert(thing));
                assert(named.add(unasked(before).to_multiset().insert(thing)) =~= named.add(
                    unasked(before).to_multiset(),
                ).insert(thing));
                assert(got.insert(thing).add(first) =~= got.add(first).insert(thing));
            },
            None => {
                assert(taken(state, events) == got);
                match action {
                    ActionView::Release(thing) => {
                        lemma_first_and_rest(next.owed());
                        assert(released(state, events) == named.insert(thing));
                        assert(unasked(next) == next.owed().skip(1));
                        assert(next.owed() == unasked(before));
                        assert(named.insert(thing).add(next.owed().skip(1).to_multiset())
                            =~= named.add(next.owed().skip(1).to_multiset().insert(thing)));
                    },
                    _ => {
                        assert(released(state, events) == named);
                        assert(unasked(next) =~= unasked(before));
                    },
                }
            },
        }
    }
}

/// The host releases every buffer that it allocated, and hands every result
/// and every future back to the module, once each and nothing else: when a
/// call has ended, well or not, the actions have named for giving back exactly
/// what the call took, each thing as often as it was taken.
pub proof fn lemma_everything_is_given_back(
    name: Seq<char>,
    args: Seq<u8>,
    events: Seq<EventView>,
)
    requires
        run(Calling::initial(name, args), events).phase is Finished || run(
            Calling::initial(name, args),
            events,
        ).phase is Failed,
    ensures
        released(Calling::initial(name, args), events) == taken(
            Calling::initial(name, args),
            events,
        ),
{
    broadcast use vstd::multiset::group_multiset_axioms;
    broadcast use vstd::seq_lib::group_to_multiset_ensures;

    let start = Calling::initial(name, args);
    lemma_run_ledger(start, events);
    let nothing = Seq::<Release>::empty().to_multiset();
    assert(unasked(start) =~= Seq::<Release>::empty());
    assert(unasked(run(start, events)) =~= Seq::<Release>::empty());
    assert(nothing.len() == 0);
    assert(nothing =~= Multiset::<Release>::empty());
    assert(released(start, events).add(nothing) =~= released(start, events));
    assert(taken(start, events).add(nothing) =~= taken(start, events));
}

} // verus!
