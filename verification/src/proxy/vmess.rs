//! A VMess session over a message socket: what it waits for, and what it does next.

use crate::common::aead::{aead_opened, aead_sealed};
use crate::common::hash::{kdf_of, md5_of, sha256_of};
use crate::config::{Config, ConfigView};
use crate::error::TunlError;
use crate::proxy::header::{
    is_sealed_header, is_sealed_length, open_header, open_length, opened_header, opened_length,
    opened_response_header, opened_response_length, parse_request, request_of, response_header,
    response_length, seal_response_header, seal_response_length, sealed_response_header,
    sealed_response_length, Request, RequestView,
};
use crate::common::be16;
use bytes::{BufMut, BytesMut};
use vstd::prelude::*;
use vstd::slice::{slice_subrange, slice_to_vec};
use vstd::utf8::encode_utf8;

verus! {

/// The bytes of a request before its sealed header: identifier, sealed length and nonce.
pub const GREETING_LEN: usize = 42;

/// The largest datagram that is relayed.
pub const DATAGRAM_MAX: usize = 65535;

/// The growable buffer of the `bytes` crate.
#[verifier::external_type_specification]
#[verifier::external_body]
pub struct ExBytesMut(BytesMut);

/// The bytes that a buffer holds, in order.
pub uninterp spec fn held(buffer: BytesMut) -> Seq<u8>;

/// `BytesMut::new` makes an empty buffer.
#[verifier::external_body]
fn new_buffer() -> (buffer: BytesMut)
    ensures
        held(buffer) == Seq::<u8>::empty(),
{
    BytesMut::new()
}

/// `BytesMut::len` counts the bytes in the buffer.
#[verifier::external_body]
fn buffer_len(buffer: &BytesMut) -> (len: usize)
    ensures
        len == held(*buffer).len(),
{
    buffer.len()
}

/// `BufMut::put_slice` appends to the buffer.
#[verifier::external_body]
fn put_slice(buffer: &mut BytesMut, data: &[u8])
    ensures
        held(*final(buffer)) == held(*old(buffer)) + data@,
{
    buffer.put_slice(data)
}

/// `BytesMut::split_to` takes the first `at` bytes out of the buffer.
#[verifier::external_body]
fn split_to(buffer: &mut BytesMut, at: usize) -> (front: Vec<u8>)
    requires
        at <= held(*old(buffer)).len(),
    ensures
        front@ == held(*old(buffer)).take(at as int),
        held(*final(buffer)) == held(*old(buffer)).skip(at as int),
{
    buffer.split_to(at).to_vec()
}

/// How far a session has come.
pub enum Stage {
    /// Nothing has happened.
    Idle,
    /// The identifier, the sealed header length and the nonce are being read.
    Greeting,
    /// The sealed header is being read; `length` is its length.
    Command { auth_id: Vec<u8>, nonce: Vec<u8>, length: u16 },
    /// The sealed length of the response is being sent.
    Accepted { request: Request },
    /// The sealed response is being sent.
    Answered { request: Request },
    /// The requested target is being relayed to.
    Direct,
    /// The fallback proxy is being relayed to.
    Fallback,
    /// A datagram is being read.
    Datagram,
    /// The datagram is being resolved.
    Resolving { datagram: Vec<u8> },
    /// The datagram is being sent back.
    Replied,
    /// The session is over.
    Closed,
}

/// The contents of a [`Stage`].
pub ghost enum StageView {
    Idle,
    Greeting,
    Command { auth_id: Seq<u8>, nonce: Seq<u8>, length: u16 },
    Accepted { request: RequestView },
    Answered { request: RequestView },
    Direct,
    Fallback,
    Datagram,
    Resolving { datagram: Seq<u8> },
    Replied,
    Closed,
}

impl View for Stage {
    type V = StageView;

    open spec fn view(&self) -> StageView {
        match self {
            Stage::Idle => StageView::Idle,
            Stage::Greeting => StageView::Greeting,
            Stage::Command { auth_id, nonce, length } => StageView::Command {
                auth_id: auth_id@,
                nonce: nonce@,
                length: *length,
            },
            Stage::Accepted { request } => StageView::Accepted { request: request@ },
            Stage::Answered { request } => StageView::Answered { request: request@ },
            Stage::Direct => StageView::Direct,
            Stage::Fallback => StageView::Fallback,
            Stage::Datagram => StageView::Datagram,
            Stage::Resolving { datagram } => StageView::Resolving { datagram: datagram@ },
            Stage::Replied => StageView::Replied,
            Stage::Closed => StageView::Closed,
        }
    }
}

/// What a session is told.
pub enum Event {
    /// The session starts.
    Begin,
    /// The bytes that were asked for.
    Received(Vec<u8>),
    /// The bytes that were handed out have been sent.
    Sent,
    /// The relay has ended well, or the datagram was resolved.
    Succeeded,
    /// The relay could not be set up or broke, or the datagram was not resolved.
    Failed,
}

/// The contents of an [`Event`].
pub ghost enum EventView {
    Begin,
    Received(Seq<u8>),
    Sent,
    Succeeded,
    Failed,
}

impl View for Event {
    type V = EventView;

    open spec fn view(&self) -> EventView {
        match self {
            Event::Begin => EventView::Begin,
            Event::Received(bytes) => EventView::Received(bytes@),
            Event::Sent => EventView::Sent,
            Event::Succeeded => EventView::Succeeded,
            Event::Failed => EventView::Failed,
        }
    }
}

/// What a session asks for.
pub enum Action {
    /// Read exactly so many bytes from the socket.
    Read(usize),
    /// Send these bytes over the socket.
    Send(Vec<u8>),
    /// Connect to a target and relay in both directions until the end.
    Relay { addr: String, port: u16 },
    /// Read what the socket has, at most so many bytes.
    ReadDatagram(usize),
    /// Ask the resolver about a datagram.
    Resolve(Vec<u8>),
    /// Nothing more.
    Finish,
}

/// The contents of an [`Action`].
pub ghost enum ActionView {
    Read(usize),
    Send(Seq<u8>),
    Relay { addr: Seq<char>, port: u16 },
    ReadDatagram(usize),
    Resolve(Seq<u8>),
    Finish,
}

impl View for Action {
    type V = ActionView;

    open spec fn view(&self) -> ActionView {
        match self {
            Action::Read(count) => ActionView::Read(*count),
            Action::Send(bytes) => ActionView::Send(bytes@),
            Action::Relay { addr, port } => ActionView::Relay { addr: addr@, port: *port },
            Action::ReadDatagram(count) => ActionView::ReadDatagram(*count),
            Action::Resolve(bytes) => ActionView::Resolve(bytes@),
            Action::Finish => ActionView::Finish,
        }
    }
}

/// The contents of the outcome of one step.
pub open spec fn outcome_view(outcome: Result<Action, TunlError>) -> Result<ActionView, TunlError> {
    match outcome {
        Ok(action) => Ok(action@),
        Err(error) => Err(error),
    }
}

/// What a session does that knows the length of the header: it goes on to read the header and the
/// tag behind it.
pub open spec fn announced(auth_id: Seq<u8>, nonce: Seq<u8>, length: u16) -> (
    StageView,
    Result<ActionView, TunlError>,
) {
    if length + 16 <= u16::MAX {
        (
            StageView::Command { auth_id, nonce, length: (length + 16) as u16 },
            Ok(ActionView::Read((length + 16) as usize)),
        )
    } else {
        (StageView::Closed, Err(TunlError::HeaderLengthOverflow))
    }
}

/// What a session does with a header: it answers a request that can be read.
pub open spec fn requested(header: Seq<u8>) -> (StageView, Result<ActionView, TunlError>) {
    match request_of(header) {
        Ok(request) => (
            StageView::Accepted { request },
            Ok(ActionView::Send(sealed_response_length(request))),
        ),
        Err(error) => (StageView::Closed, Err(error)),
    }
}

/// What a session at the end of its greeting does: it opens the length of the header.
pub open spec fn greeted(uuid: Seq<u8>, greeting: Seq<u8>) -> (
    StageView,
    Result<ActionView, TunlError>,
) {
    let auth_id = greeting.take(16);
    let nonce = greeting.skip(34);
    match opened_length(uuid, auth_id, greeting.subrange(16, 34), nonce) {
        Some(bytes) => announced(auth_id, nonce, be16(bytes[0], bytes[1])),
        None => (StageView::Closed, Err(TunlError::Cipher)),
    }
}

/// What a session does with a sealed header: it opens it.
pub open spec fn commanded(
    uuid: Seq<u8>,
    auth_id: Seq<u8>,
    nonce: Seq<u8>,
    sealed: Seq<u8>,
) -> (StageView, Result<ActionView, TunlError>) {
    match opened_header(uuid, auth_id, nonce, sealed) {
        Some(header) => requested(header),
        None => (StageView::Closed, Err(TunlError::Cipher)),
    }
}

/// The next stage of a session and what it asks for.
pub open spec fn step(config: ConfigView, stage: StageView, event: EventView) -> (
    StageView,
    Result<ActionView, TunlError>,
) {
    match (stage, event) {
        (StageView::Idle, EventView::Begin) => (
            StageView::Greeting,
            Ok(ActionView::Read(GREETING_LEN)),
        ),
        (StageView::Greeting, EventView::Received(bytes)) if bytes.len() == GREETING_LEN => greeted(
            config.uuid,
            bytes,
        ),
        (
            StageView::Command { auth_id, nonce, length },
            EventView::Received(bytes),
        ) if bytes.len() == length => commanded(config.uuid, auth_id, nonce, bytes),
        (StageView::Accepted { request }, EventView::Sent) => (
            StageView::Answered { request },
            Ok(ActionView::Send(sealed_response_header(request))),
        ),
        (StageView::Answered { request }, EventView::Sent) => if request.is_tcp {
            (
                StageView::Direct,
                Ok(ActionView::Relay { addr: request.addr, port: request.port }),
            )
        } else {
            (StageView::Datagram, Ok(ActionView::ReadDatagram(DATAGRAM_MAX)))
        },
        (StageView::Direct, EventView::Succeeded) => (StageView::Closed, Ok(ActionView::Finish)),
        (StageView::Direct, EventView::Failed) => (
            StageView::Fallback,
            Ok(ActionView::Relay { addr: config.proxy_addr, port: config.proxy_port }),
        ),
        (StageView::Fallback, EventView::Succeeded) => (StageView::Closed, Ok(ActionView::Finish)),
        (StageView::Fallback, EventView::Failed) => (
            StageView::Closed,
            Err(TunlError::NoUpstream),
        ),
        (StageView::Datagram, EventView::Received(bytes)) if bytes.len() <= DATAGRAM_MAX => (
            StageView::Resolving { datagram: bytes },
            Ok(ActionView::Resolve(bytes)),
        ),
        (StageView::Resolving { datagram }, EventView::Succeeded) => (
            StageView::Replied,
            Ok(ActionView::Send(datagram)),
        ),
        (StageView::Resolving { datagram }, EventView::Failed) => (
            StageView::Closed,
            Ok(ActionView::Finish),
        ),
        (StageView::Replied, EventView::Sent) => (StageView::Closed, Ok(ActionView::Finish)),
        _ => (stage, Err(TunlError::OutOfTurn)),
    }
}

/// Whether what is sent in answer to a request opens under the key and initial vector of that
/// request: first to the length of the response header, and then to that header, each with the tag
/// behind it.
pub open spec fn answer_opens(stage: StageView, outcome: Result<ActionView, TunlError>) -> bool {
    match (stage, outcome) {
        (
            StageView::Accepted { request },
            Ok(ActionView::Send(bytes)),
        ) => bytes.len() == 18 && opened_response_length(request, bytes) == Some(response_length()),
        (
            StageView::Answered { request },
            Ok(ActionView::Send(bytes)),
        ) => bytes.len() == 20 && opened_response_header(request, bytes) == Some(
            response_header(request),
        ),
        _ => true,
    }
}

/// Whether what a session opens is what it has read without the tag: two bytes of header length in the
/// greeting, and a header that is shorter than the sealed one by the tag.
pub open spec fn opened_without_tag(config: ConfigView, stage: StageView, event: EventView) -> bool {
    match (stage, event) {
        (StageView::Greeting, EventView::Received(bytes)) => bytes.len() == GREETING_LEN ==> (
        opened_length(
            config.uuid,
            bytes.take(16),
            bytes.subrange(16, 34),
            bytes.skip(34),
        ) matches Some(length) ==> length.len() == 2),
        (
            StageView::Command { auth_id, nonce, length },
            EventView::Received(bytes),
        ) => bytes.len() == length ==> (opened_header(
            config.uuid,
            auth_id,
            nonce,
            bytes,
        ) matches Some(header) ==> header.len() + 16 == bytes.len()),
        _ => true,
    }
}

/// Whether a session that was told a greeting goes by the header length that a client of the
/// configured user has sealed in it.
pub open spec fn length_is_read_back(
    config: ConfigView,
    greeting: Seq<u8>,
    next: (StageView, Result<ActionView, TunlError>),
) -> bool {
    forall|length: u16|
        #[trigger] is_sealed_length(
            config.uuid,
            greeting.take(16),
            greeting.skip(34),
            length,
            greeting.subrange(16, 34),
        ) ==> next == announced(greeting.take(16), greeting.skip(34), length)
}

/// Whether a session that was told a sealed header goes by the header that a client of the configured
/// user has sealed.
pub open spec fn header_is_read_back(
    config: ConfigView,
    auth_id: Seq<u8>,
    nonce: Seq<u8>,
    sealed: Seq<u8>,
    next: (StageView, Result<ActionView, TunlError>),
) -> bool {
    forall|header: Seq<u8>|
        #[trigger] is_sealed_header(config.uuid, auth_id, nonce, header, sealed) ==> next
            == requested(header)
}

/// Whether a session acts on what a client of the configured user has sealed: on the header length in
/// the greeting, and then on the header itself.
pub open spec fn sealed_is_read_back(
    config: ConfigView,
    stage: StageView,
    event: EventView,
    next: (StageView, Result<ActionView, TunlError>),
) -> bool {
    match (stage, event) {
        (StageView::Greeting, EventView::Received(bytes)) => bytes.len() == GREETING_LEN
            ==> length_is_read_back(config, bytes, next),
        (
            StageView::Command { auth_id, nonce, length },
            EventView::Received(bytes),
        ) => bytes.len() == length ==> header_is_read_back(config, auth_id, nonce, bytes, next),
        _ => true,
    }
}

/// What polling the socket brings.
pub enum SocketEvent {
    /// Nothing has been polled yet.
    Start,
    /// A message; a text message has no bytes.
    Message(Option<Vec<u8>>),
    /// No message yet.
    Pending,
    /// The socket is closed or broken.
    Closed,
}

/// The contents of a [`SocketEvent`].
pub ghost enum SocketEventView {
    Start,
    Message(Option<Seq<u8>>),
    Pending,
    Closed,
}

impl View for SocketEvent {
    type V = SocketEventView;

    open spec fn view(&self) -> SocketEventView {
        match self {
            SocketEvent::Start => SocketEventView::Start,
            SocketEvent::Message(Some(data)) => SocketEventView::Message(Some(data@)),
            SocketEvent::Message(None) => SocketEventView::Message(None),
            SocketEvent::Pending => SocketEventView::Pending,
            SocketEvent::Closed => SocketEventView::Closed,
        }
    }
}

/// What a reader is to do next.
pub enum ReadStep {
    /// Hand these bytes over; the read is done.
    Deliver(Vec<u8>),
    /// Poll the socket.
    Poll,
    /// Wait until the socket has a message.
    Pending,
    /// There is nothing more to read.
    End,
}

/// The contents of a [`ReadStep`].
pub ghost enum ReadStepView {
    Deliver(Seq<u8>),
    Poll,
    Pending,
    End,
}

impl View for ReadStep {
    type V = ReadStepView;

    open spec fn view(&self) -> ReadStepView {
        match self {
            ReadStep::Deliver(data) => ReadStepView::Deliver(data@),
            ReadStep::Poll => ReadStepView::Poll,
            ReadStep::Pending => ReadStepView::Pending,
            ReadStep::End => ReadStepView::End,
        }
    }
}

/// The bytes that polling the socket brings.
pub open spec fn arrived(event: SocketEventView) -> Seq<u8> {
    match event {
        SocketEventView::Message(Some(data)) => data,
        _ => Seq::empty(),
    }
}

/// The bytes that a step hands over.
pub open spec fn delivered(step: ReadStepView) -> Seq<u8> {
    match step {
        ReadStepView::Deliver(data) => data,
        _ => Seq::empty(),
    }
}

/// What is held after polling the socket, and how a reader with room for `room` bytes goes on: it
/// gets as much of what has arrived as it has room for, and polls where that is nothing.
pub open spec fn read_step(held: Seq<u8>, room: nat, event: SocketEventView) -> (
    Seq<u8>,
    ReadStepView,
) {
    match event {
        SocketEventView::Pending => (held, ReadStepView::Pending),
        SocketEventView::Closed => (held, ReadStepView::End),
        _ => {
            let all = held + arrived(event);
            let size = if all.len() <= room {
                all.len() as int
            } else {
                room as int
            };
            if size > 0 {
                (all.skip(size), ReadStepView::Deliver(all.take(size)))
            } else {
                (all, ReadStepView::Poll)
            }
        },
    }
}

/// One end of a tunnel: its configuration, the bytes that have arrived and were not read yet, and
/// how far the session has come.
pub struct VmessStream {
    pub config: Config,
    pub buffer: BytesMut,
    pub stage: Stage,
}

impl VmessStream {
    /// A session at its start, with nothing received.
    pub fn new(config: Config) -> (stream: Self)
        ensures
            stream.config == config,
            held(stream.buffer) == Seq::<u8>::empty(),
            stream.stage@ == StageView::Idle,
    {
        VmessStream { config, buffer: new_buffer(), stage: Stage::Idle }
    }

    /// Opens the length that a greeting announces.
    fn greet(&self, greeting: &[u8]) -> (next: (Stage, Result<Action, TunlError>))
        requires
            greeting@.len() == GREETING_LEN,
        ensures
            (next.0@, outcome_view(next.1)) == greeted(self.config@.uuid, greeting@),
            length_is_read_back(self.config@, greeting@, (next.0@, outcome_view(next.1))),
            opened_without_tag(
                self.config@,
                StageView::Greeting,
                EventView::Received(greeting@),
            ),
    {
        let auth_id = slice_subrange(greeting, 0, 16);
        let sealed = slice_subrange(greeting, 16, 34);
        let nonce = slice_subrange(greeting, 34, 42);
        assert(nonce@ == greeting@.skip(34));
        match open_length(self.config.uuid.as_slice(), auth_id, sealed, nonce) {
            Ok(length) => match length.checked_add(16) {
                Some(length) => {
                    let auth_id = slice_to_vec(auth_id);
                    let nonce = slice_to_vec(nonce);
                    (Stage::Command { auth_id, nonce, length }, Ok(Action::Read(length as usize)))
                },
                None => (Stage::Closed, Err(TunlError::HeaderLengthOverflow)),
            },
            Err(error) => (Stage::Closed, Err(error)),
        }
    }

    /// Opens and reads a header.
    fn command(&self, auth_id: &[u8], nonce: &[u8], sealed: &[u8]) -> (next: (
        Stage,
        Result<Action, TunlError>,
    ))
        ensures
            (next.0@, outcome_view(next.1)) == commanded(
                self.config@.uuid,
                auth_id@,
                nonce@,
                sealed@,
            ),
            answer_opens(next.0@, outcome_view(next.1)),
            header_is_read_back(
                self.config@,
                auth_id@,
                nonce@,
                sealed@,
                (next.0@, outcome_view(next.1)),
            ),
            opened_header(self.config@.uuid, auth_id@, nonce@, sealed@) matches Some(header)
                ==> header.len() + 16 == sealed@.len(),
    {
        match open_header(self.config.uuid.as_slice(), auth_id, nonce, sealed) {
            Ok(header) => match parse_request(header.as_slice()) {
                Ok(request) => match seal_response_length(&request) {
                    Ok(length) => (Stage::Accepted { request }, Ok(Action::Send(length))),
                    Err(error) => (Stage::Closed, Err(error)),
                },
                Err(error) => (Stage::Closed, Err(error)),
            },
            Err(error) => (Stage::Closed, Err(error)),
        }
    }

    /// Tells the session what has happened, and gets what it asks for next. What a client of the
    /// configured user has sealed is what it goes by, and what it answers opens for that client.
    pub fn process(&mut self, event: Event) -> (outcome: Result<Action, TunlError>)
        ensures
            (final(self).stage@, outcome_view(outcome)) == step(
                old(self).config@,
                old(self).stage@,
                event@,
            ),
            answer_opens(final(self).stage@, outcome_view(outcome)),
            sealed_is_read_back(
                old(self).config@,
                old(self).stage@,
                event@,
                (final(self).stage@, outcome_view(outcome)),
            ),
            opened_without_tag(old(self).config@, old(self).stage@, event@),
            final(self).config == old(self).config,
            final(self).buffer == old(self).buffer,
    {
        let mut stage = Stage::Closed;
        core::mem::swap(&mut self.stage, &mut stage);
        let (next, outcome) = match (stage, event) {
            (Stage::Idle, Event::Begin) => (Stage::Greeting, Ok(Action::Read(GREETING_LEN))),
            (Stage::Greeting, Event::Received(bytes)) => if bytes.len() == GREETING_LEN {
                self.greet(bytes.as_slice())
            } else {
                (Stage::Greeting, Err(TunlError::OutOfTurn))
            },
            (Stage::Command { auth_id, nonce, length }, Event::Received(bytes)) => if bytes.len()
                == length as usize {
                self.command(auth_id.as_slice(), nonce.as_slice(), bytes.as_slice())
            } else {
                (Stage::Command { auth_id, nonce, length }, Err(TunlError::OutOfTurn))
            },
            (Stage::Accepted { request }, Event::Sent) => match seal_response_header(&request) {
                Ok(header) => (Stage::Answered { request }, Ok(Action::Send(header))),
                Err(error) => (Stage::Closed, Err(error)),
            },
            (Stage::Answered { request }, Event::Sent) => if request.is_tcp {
                (Stage::Direct, Ok(Action::Relay { addr: request.addr, port: request.port }))
            } else {
                (Stage::Datagram, Ok(Action::ReadDatagram(DATAGRAM_MAX)))
            },
            (Stage::Direct, Event::Succeeded) => (Stage::Closed, Ok(Action::Finish)),
            (Stage::Direct, Event::Failed) => (
                Stage::Fallback,
                Ok(
                    Action::Relay {
                        addr: self.config.proxy_addr.clone(),
                        port: self.config.proxy_port,
                    },
                ),
            ),
            (Stage::Fallback, Event::Succeeded) => (Stage::Closed, Ok(Action::Finish)),
            (Stage::Fallback, Event::Failed) => (Stage::Closed, Err(TunlError::NoUpstream)),
            (Stage::Datagram, Event::Received(bytes)) => if bytes.len() <= DATAGRAM_MAX {
                let query = slice_to_vec(bytes.as_slice());
                (Stage::Resolving { datagram: bytes }, Ok(Action::Resolve(query)))
            } else {
                (Stage::Datagram, Err(TunlError::OutOfTurn))
            },
            (Stage::Resolving { datagram }, Event::Succeeded) => (
                Stage::Replied,
                Ok(Action::Send(datagram)),
            ),
            (Stage::Resolving { datagram: _ }, Event::Failed) => (
                Stage::Closed,
                Ok(Action::Finish),
            ),
            (Stage::Replied, Event::Sent) => (Stage::Closed, Ok(Action::Finish)),
            (stage, _) => (stage, Err(TunlError::OutOfTurn)),
        };
        self.stage = next;
        outcome
    }

    /// Takes in what polling the socket brought, and says how a reader with room for `room` bytes
    /// goes on: with what has arrived, or by polling again.
    pub fn poll_read(&mut self, room: usize, event: SocketEvent) -> (step: ReadStep)
        ensures
            (held(final(self).buffer), step@) == read_step(
                held(old(self).buffer),
                room as nat,
                event@,
            ),
            final(self).config == old(self).config,
            final(self).stage == old(self).stage,
    {
        let ghost before = held(self.buffer);
        match event {
            SocketEvent::Pending => {
                return ReadStep::Pending;
            },
            SocketEvent::Closed => {
                return ReadStep::End;
            },
            SocketEvent::Message(Some(data)) => {
                put_slice(&mut self.buffer, data.as_slice());
            },
            _ => {
                assert(before + Seq::<u8>::empty() == before);
            },
        }
        let len = buffer_len(&self.buffer);
        let size = if len <= room {
            len
        } else {
            room
        };
        if size > 0 {
            ReadStep::Deliver(split_to(&mut self.buffer, size))
        } else {
            ReadStep::Poll
        }
    }
}

/// A session that is over asks for nothing more.
pub proof fn closed_session_stays_closed(config: ConfigView, event: EventView)
    ensures
        step(config, StageView::Closed, event) == (
            StageView::Closed,
            Err::<ActionView, TunlError>(TunlError::OutOfTurn),
        ),
{
}

/// A failure other than an event out of turn ends the session; an event out of turn leaves it as it
/// was.
pub proof fn failure_ends_session(config: ConfigView, stage: StageView, event: EventView)
    requires
        step(config, stage, event).1 is Err,
    ensures
        step(config, stage, event).1 == Err::<ActionView, TunlError>(TunlError::OutOfTurn) ==> step(
            config,
            stage,
            event,
        ).0 == stage,
        step(config, stage, event).1 != Err::<ActionView, TunlError>(TunlError::OutOfTurn) ==> step(
            config,
            stage,
            event,
        ).0 == StageView::Closed,
{
}

/// Nothing is sent to a client, and nobody is connected to on its behalf, before a header has been
/// opened under the keys of the configured user and a request was read from it.
pub proof fn only_users_are_answered(config: ConfigView, stage: StageView, event: EventView)
    requires
        stage is Idle || stage is Greeting || stage is Command,
    ensures
        match step(config, stage, event) {
            (next, Ok(ActionView::Send(_))) => {
                &&& stage is Command
                &&& event is Received
                &&& opened_header(
                    config.uuid,
                    stage->Command_auth_id,
                    stage->Command_nonce,
                    event->Received_0,
                ) is Some
                &&& next == (StageView::Accepted {
                    request: request_of(
                        opened_header(
                            config.uuid,
                            stage->Command_auth_id,
                            stage->Command_nonce,
                            event->Received_0,
                        )->0,
                    )->Ok_0,
                })
            },
            (next, outcome) => {
                &&& next is Idle || next is Greeting || next is Command || next is Closed
                &&& outcome matches Ok(action) ==> action is Read
            },
        },
{
}

/// The stage of a session that was told `events` from its start on.
pub open spec fn stage_after(config: ConfigView, events: Seq<EventView>) -> StageView
    decreases events.len(),
{
    if events.len() == 0 {
        StageView::Idle
    } else {
        step(config, stage_after(config, events.drop_last()), events.last()).0
    }
}

/// Whether an event brought a header of the configured user.
pub open spec fn is_user_header(
    config: ConfigView,
    event: EventView,
    auth_id: Seq<u8>,
    nonce: Seq<u8>,
) -> bool {
    &&& event is Received
    &&& opened_header(config.uuid, auth_id, nonce, event->Received_0) is Some
    &&& request_of(opened_header(config.uuid, auth_id, nonce, event->Received_0)->0) is Ok
}

/// However a session came to answer, connect or resolve, one of the events brought a header that
/// opened under the keys of the configured user.
pub proof fn sessions_past_the_header_had_a_user_header(
    config: ConfigView,
    events: Seq<EventView>,
)
    requires
        ({
            let stage = stage_after(config, events);
            !(stage is Idle || stage is Greeting || stage is Command || stage is Closed)
        }),
    ensures
        exists|i: int, auth_id: Seq<u8>, nonce: Seq<u8>|
            0 <= i < events.len() && #[trigger] is_user_header(config, events[i], auth_id, nonce),
    decreases events.len(),
{
    let earlier = events.drop_last();
    let stage = stage_after(config, earlier);
    if stage is Idle || stage is Greeting || stage is Command || stage is Closed {
        assert(stage is Command);
        assert(is_user_header(
            config,
            events[events.len() - 1],
            stage->Command_auth_id,
            stage->Command_nonce,
        ));
    } else {
        sessions_past_the_header_had_a_user_header(config, earlier);
        let (i, auth_id, nonce) = choose|i: int, auth_id: Seq<u8>, nonce: Seq<u8>|
            0 <= i < earlier.len() && #[trigger] is_user_header(
                config,
                earlier[i],
                auth_id,
                nonce,
            );
        assert(is_user_header(config, events[i], auth_id, nonce));
    }
}

/// What a client of the configured user sends is what the session acts on: a greeting whose sealed
/// length opens to the length of a header, followed by that header sealed, is answered with the
/// response to the request in the header.
pub proof fn sealed_request_is_answered(
    config: ConfigView,
    auth_id: Seq<u8>,
    sealed_length: Seq<u8>,
    nonce: Seq<u8>,
    sealed_header: Seq<u8>,
    header: Seq<u8>,
)
    requires
        auth_id.len() == 16,
        sealed_length.len() == 18,
        nonce.len() == 8,
        header.len() + 16 <= u16::MAX,
        sealed_header.len() == header.len() + 16,
        opened_length(config.uuid, auth_id, sealed_length, nonce) == Some(
            seq![(header.len() / 256) as u8, (header.len() % 256) as u8],
        ),
        opened_header(config.uuid, auth_id, nonce, sealed_header) == Some(header),
    ensures
        ({
            let started = step(config, StageView::Idle, EventView::Begin);
            let greeted = step(
                config,
                started.0,
                EventView::Received(auth_id + sealed_length + nonce),
            );
            let commanded = step(config, greeted.0, EventView::Received(sealed_header));
            &&& started.1 == Ok::<ActionView, TunlError>(ActionView::Read(GREETING_LEN))
            &&& greeted.1 == Ok::<ActionView, TunlError>(
                ActionView::Read(sealed_header.len() as usize),
            )
            &&& match request_of(header) {
                Ok(request) => {
                    let answered = step(config, commanded.0, EventView::Sent);
                    &&& commanded.1 == Ok::<ActionView, TunlError>(
                        ActionView::Send(sealed_response_length(request)),
                    )
                    &&& answered.0 == StageView::Answered { request }
                    &&& answered.1 == Ok::<ActionView, TunlError>(
                        ActionView::Send(sealed_response_header(request)),
                    )
                },
                Err(error) => commanded == (
                    StageView::Closed,
                    Err::<ActionView, TunlError>(error),
                ),
            }
        }),
{
    let greeting = auth_id + sealed_length + nonce;
    assert(greeting.take(16) == auth_id);
    assert(greeting.subrange(16, 34) == sealed_length);
    assert(greeting.skip(34) == nonce);
}

/// What a client of the configured user seals is what the session goes by, whatever the header holds
/// and even where it is empty: `greeted` and `commanded`, the outcomes of telling it the greeting and
/// the sealed header, are the ones for the length and the header that were sealed. Of both it asks
/// only what [`VmessStream::process`] says of every outcome.
pub proof fn sealed_header_is_read_back(
    config: ConfigView,
    auth_id: Seq<u8>,
    sealed_length: Seq<u8>,
    nonce: Seq<u8>,
    sealed_header: Seq<u8>,
    header: Seq<u8>,
    greeted: (StageView, Result<ActionView, TunlError>),
    commanded: (StageView, Result<ActionView, TunlError>),
)
    requires
        auth_id.len() == 16,
        sealed_length.len() == 18,
        nonce.len() == 8,
        header.len() + 16 <= u16::MAX,
        sealed_header.len() == header.len() + 16,
        is_sealed_length(config.uuid, auth_id, nonce, header.len() as u16, sealed_length),
        is_sealed_header(config.uuid, auth_id, nonce, header, sealed_header),
        sealed_is_read_back(
            config,
            StageView::Greeting,
            EventView::Received(auth_id + sealed_length + nonce),
            greeted,
        ),
        sealed_is_read_back(config, greeted.0, EventView::Received(sealed_header), commanded),
    ensures
        greeted == announced(auth_id, nonce, header.len() as u16),
        greeted.1 == Ok::<ActionView, TunlError>(ActionView::Read(sealed_header.len() as usize)),
        commanded == requested(header),
{
    let greeting = auth_id + sealed_length + nonce;
    assert(greeting.take(16) == auth_id);
    assert(greeting.subrange(16, 34) == sealed_length);
    assert(greeting.skip(34) == nonce);
    assert(length_is_read_back(config, greeting, greeted));
    assert(is_sealed_length(
        config.uuid,
        greeting.take(16),
        greeting.skip(34),
        header.len() as u16,
        greeting.subrange(16, 34),
    ));
    assert(header_is_read_back(config, auth_id, nonce, sealed_header, commanded));
}

/// A TCP request is tried at its own target first and, only where that fails, at the configured
/// proxy; after both have failed the session ends for want of an upstream.
pub proof fn upstreams_are_tried_in_order(config: ConfigView, request: RequestView)
    requires
        request.is_tcp,
    ensures
        ({
            let first = step(config, StageView::Answered { request }, EventView::Sent);
            let second = step(config, first.0, EventView::Failed);
            let last = step(config, second.0, EventView::Failed);
            &&& first.1 == Ok::<ActionView, TunlError>(
                ActionView::Relay { addr: request.addr, port: request.port },
            )
            &&& second.1 == Ok::<ActionView, TunlError>(
                ActionView::Relay { addr: config.proxy_addr, port: config.proxy_port },
            )
            &&& last == (StageView::Closed, Err::<ActionView, TunlError>(TunlError::NoUpstream))
            &&& step(config, first.0, EventView::Succeeded) == (
                StageView::Closed,
                Ok::<ActionView, TunlError>(ActionView::Finish),
            )
            &&& step(config, second.0, EventView::Succeeded) == (
                StageView::Closed,
                Ok::<ActionView, TunlError>(ActionView::Finish),
            )
        }),
{
}

/// A datagram goes back to the client unchanged where the resolver has answered, and not at all
/// where it has not.
pub proof fn datagram_is_returned_once_resolved(
    config: ConfigView,
    request: RequestView,
    datagram: Seq<u8>,
)
    requires
        !request.is_tcp,
        datagram.len() <= DATAGRAM_MAX,
    ensures
        ({
            let asked = step(config, StageView::Answered { request }, EventView::Sent);
            let read = step(config, asked.0, EventView::Received(datagram));
            let resolved = step(config, read.0, EventView::Succeeded);
            &&& asked.1 == Ok::<ActionView, TunlError>(ActionView::ReadDatagram(DATAGRAM_MAX))
            &&& read.1 == Ok::<ActionView, TunlError>(ActionView::Resolve(datagram))
            &&& resolved.1 == Ok::<ActionView, TunlError>(ActionView::Send(datagram))
            &&& step(config, resolved.0, EventView::Sent) == (
                StageView::Closed,
                Ok::<ActionView, TunlError>(ActionView::Finish),
            )
            &&& step(config, read.0, EventView::Failed) == (
                StageView::Closed,
                Ok::<ActionView, TunlError>(ActionView::Finish),
            )
        }),
{
}

/// Everything that a series of polls brings.
pub open spec fn all_arrived(polls: Seq<(nat, SocketEventView)>) -> Seq<u8>
    decreases polls.len(),
{
    if polls.len() == 0 {
        Seq::empty()
    } else {
        all_arrived(polls.drop_last()) + arrived(polls.last().1)
    }
}

/// What is held after a series of polls, and everything that was handed over on the way.
pub open spec fn read_steps(held: Seq<u8>, polls: Seq<(nat, SocketEventView)>) -> (Seq<u8>, Seq<u8>)
    decreases polls.len(),
{
    if polls.len() == 0 {
        (held, Seq::empty())
    } else {
        let (before, earlier) = read_steps(held, polls.drop_last());
        let (after, step) = read_step(before, polls.last().0, polls.last().1);
        (after, earlier + delivered(step))
    }
}

/// A reader gets the bytes in the order in which they arrived, each once: what was handed over,
/// followed by what is still held, is all that was held before and has arrived since.
pub proof fn reading_keeps_every_byte(held: Seq<u8>, polls: Seq<(nat, SocketEventView)>)
    ensures
        read_steps(held, polls).1 + read_steps(held, polls).0 == held + all_arrived(polls),
    decreases polls.len(),
{
    if polls.len() > 0 {
        reading_keeps_every_byte(held, polls.drop_last());
        let (before, earlier) = read_steps(held, polls.drop_last());
        let (room, event) = polls.last();
        let (after, step) = read_step(before, room, event);
        assert(delivered(step) + after == before + arrived(event));
        assert((earlier + delivered(step)) + after == earlier + (delivered(step) + after));
        assert(earlier + (before + arrived(event)) == (earlier + before) + arrived(event));
        assert((held + all_arrived(polls.drop_last())) + arrived(event) == held + (all_arrived(
            polls.drop_last(),
        ) + arrived(event)));
    }
}

/// A reader never gets more than it has room for.
pub proof fn reading_respects_room(held: Seq<u8>, room: nat, event: SocketEventView)
    ensures
        delivered(read_step(held, room, event).1).len() <= room,
{
}

/// A session starts by reading 42 bytes: an identifier of 16, a sealed length of 18 and a nonce of 8. It
/// opens the length under the keys of the configured user and goes on to read that many bytes and a tag
/// of 16, if both together are told in 16 bits.
pub proof fn greeting_tells_the_header_length(
    config: ConfigView,
    auth_id: Seq<u8>,
    sealed: Seq<u8>,
    nonce: Seq<u8>,
)
    requires
        auth_id.len() == 16,
        sealed.len() == 18,
        nonce.len() == 8,
    ensures
        step(config, StageView::Idle, EventView::Begin) == (
            StageView::Greeting,
            Ok::<ActionView, TunlError>(ActionView::Read(42)),
        ),
        ({
            let told = step(
                config,
                StageView::Greeting,
                EventView::Received(auth_id + sealed + nonce),
            );
            match aead_opened(
                kdf_of(
                    md5_of(config.uuid + encode_utf8("c48619fe-8f02-49e0-b9e9-edf763e17e21"@)),
                    seq![encode_utf8("VMess Header AEAD Key_Length"@), auth_id, nonce],
                ).take(16),
                kdf_of(
                    md5_of(config.uuid + encode_utf8("c48619fe-8f02-49e0-b9e9-edf763e17e21"@)),
                    seq![encode_utf8("VMess Header AEAD Nonce_Length"@), auth_id, nonce],
                ).take(12),
                auth_id,
                sealed,
            ) {
                Some(bytes) => {
                    let length = 256 * bytes[0] + bytes[1] + 16;
                    if length < 65536 {
                        told == (
                            StageView::Command { auth_id, nonce, length: length as u16 },
                            Ok::<ActionView, TunlError>(ActionView::Read(length as usize)),
                        )
                    } else {
                        told == (
                            StageView::Closed,
                            Err::<ActionView, TunlError>(TunlError::HeaderLengthOverflow),
                        )
                    }
                },
                None => told == (
                    StageView::Closed,
                    Err::<ActionView, TunlError>(TunlError::Cipher),
                ),
            }
        }),
{
    let greeting = auth_id + sealed + nonce;
    assert(greeting.take(16) == auth_id);
    assert(greeting.subrange(16, 34) == sealed);
    assert(greeting.skip(34) == nonce);
}

/// The header is opened under the keys of the configured user for the identifier and the nonce of the
/// greeting. A request in it is answered with the length 4 sealed under what the request brought along;
/// then comes the byte to repeat, with three zeros, sealed likewise.
pub proof fn header_is_answered(
    config: ConfigView,
    auth_id: Seq<u8>,
    nonce: Seq<u8>,
    sealed: Seq<u8>,
    length: u16,
)
    requires
        sealed.len() == length,
    ensures
        ({
            let told = step(
                config,
                StageView::Command { auth_id, nonce, length },
                EventView::Received(sealed),
            );
            match aead_opened(
                kdf_of(
                    md5_of(config.uuid + encode_utf8("c48619fe-8f02-49e0-b9e9-edf763e17e21"@)),
                    seq![encode_utf8("VMess Header AEAD Key"@), auth_id, nonce],
                ).take(16),
                kdf_of(
                    md5_of(config.uuid + encode_utf8("c48619fe-8f02-49e0-b9e9-edf763e17e21"@)),
                    seq![encode_utf8("VMess Header AEAD Nonce"@), auth_id, nonce],
                ).take(12),
                auth_id,
                sealed,
            ) {
                Some(header) => match request_of(header) {
                    Ok(request) => {
                        &&& told == (
                            StageView::Accepted { request },
                            Ok::<ActionView, TunlError>(
                                ActionView::Send(
                                    aead_sealed(
                                        kdf_of(sha256_of(request.key).take(16), seq![encode_utf8("AEAD Resp Header Len Key"@)]).take(16),
                                        kdf_of(sha256_of(request.iv).take(16), seq![encode_utf8("AEAD Resp Header Len IV"@)]).take(12),
                                        Seq::empty(),
                                        seq![0u8, 4u8],
                                    ),
                                ),
                            ),
                        )
                        &&& step(config, told.0, EventView::Sent) == (
                            StageView::Answered { request },
                            Ok::<ActionView, TunlError>(
                                ActionView::Send(
                                    aead_sealed(
                                        kdf_of(sha256_of(request.key).take(16), seq![encode_utf8("AEAD Resp Header Key"@)]).take(16),
                                        kdf_of(sha256_of(request.iv).take(16), seq![encode_utf8("AEAD Resp Header IV"@)]).take(12),
                                        Seq::empty(),
                                        seq![request.response_auth, 0u8, 0u8, 0u8],
                                    ),
                                ),
                            ),
                        )
                    },
                    Err(error) => told == (StageView::Closed, Err::<ActionView, TunlError>(error)),
                },
                None => told == (
                    StageView::Closed,
                    Err::<ActionView, TunlError>(TunlError::Cipher),
                ),
            }
        }),
{
}

/// What a session says to open for the client is sealed under what the request brought along: first
/// the length 4, then the byte to repeat with three zeros.
pub proof fn answer_opens_under_request_keys(request: RequestView, bytes: Seq<u8>)
    ensures
        answer_opens(
            StageView::Accepted { request },
            Ok(ActionView::Send(bytes)),
        ) ==> bytes.len() == 18 && aead_opened(
            kdf_of(sha256_of(request.key).take(16), seq![encode_utf8("AEAD Resp Header Len Key"@)]).take(16),
            kdf_of(sha256_of(request.iv).take(16), seq![encode_utf8("AEAD Resp Header Len IV"@)]).take(12),
            Seq::empty(),
            bytes,
        ) == Some(seq![0u8, 4u8]),
        answer_opens(
            StageView::Answered { request },
            Ok(ActionView::Send(bytes)),
        ) ==> bytes.len() == 20 && aead_opened(
            kdf_of(sha256_of(request.key).take(16), seq![encode_utf8("AEAD Resp Header Key"@)]).take(16),
            kdf_of(sha256_of(request.iv).take(16), seq![encode_utf8("AEAD Resp Header IV"@)]).take(12),
            Seq::empty(),
            bytes,
        ) == Some(seq![request.response_auth, 0u8, 0u8, 0u8]),
{
}

/// After its answer, a session for TCP relays to the requested target and, where that fails, to the
/// proxy of the configuration; any other reads a datagram of up to 65535 bytes, has it resolved, and
/// sends it back where it was.
pub proof fn session_serves_the_request(
    config: ConfigView,
    request: RequestView,
    datagram: Seq<u8>,
)
    requires
        datagram.len() <= 65535,
    ensures
        ({
            let served = step(config, StageView::Answered { request }, EventView::Sent);
            if request.is_tcp {
                &&& served.1 == Ok::<ActionView, TunlError>(
                    ActionView::Relay { addr: request.addr, port: request.port },
                )
                &&& step(config, served.0, EventView::Succeeded) == (
                    StageView::Closed,
                    Ok::<ActionView, TunlError>(ActionView::Finish),
                )
                &&& step(config, served.0, EventView::Failed) == (
                    StageView::Fallback,
                    Ok::<ActionView, TunlError>(
                        ActionView::Relay { addr: config.proxy_addr, port: config.proxy_port },
                    ),
                )
                &&& step(config, StageView::Fallback, EventView::Succeeded) == (
                    StageView::Closed,
                    Ok::<ActionView, TunlError>(ActionView::Finish),
                )
                &&& step(config, StageView::Fallback, EventView::Failed) == (
                    StageView::Closed,
                    Err::<ActionView, TunlError>(TunlError::NoUpstream),
                )
            } else {
                let read = step(config, served.0, EventView::Received(datagram));
                let resolved = step(config, read.0, EventView::Succeeded);
                &&& served.1 == Ok::<ActionView, TunlError>(ActionView::ReadDatagram(65535))
                &&& read.1 == Ok::<ActionView, TunlError>(ActionView::Resolve(datagram))
                &&& resolved.1 == Ok::<ActionView, TunlError>(ActionView::Send(datagram))
                &&& step(config, resolved.0, EventView::Sent) == (
                    StageView::Closed,
                    Ok::<ActionView, TunlError>(ActionView::Finish),
                )
                &&& step(config, read.0, EventView::Failed) == (
                    StageView::Closed,
                    Ok::<ActionView, TunlError>(ActionView::Finish),
                )
            }
        }),
{
}

/// The stages of a served request, and what a session waits for in each of them. Any other event is out
/// of turn, and the session stays where it was.
pub proof fn other_events_are_out_of_turn(config: ConfigView, stage: StageView, event: EventView)
    requires
        match stage {
            StageView::Idle => !(event is Begin),
            StageView::Greeting => !(event matches EventView::Received(bytes) && bytes.len() == 42),
            StageView::Command { auth_id, nonce, length } => !(event matches EventView::Received(
                bytes,
            ) && bytes.len() == length),
            StageView::Accepted { request } => !(event is Sent),
            StageView::Answered { request } => !(event is Sent),
            StageView::Direct => !(event is Succeeded) && !(event is Failed),
            StageView::Fallback => !(event is Succeeded) && !(event is Failed),
            StageView::Datagram => !(event matches EventView::Received(bytes) && bytes.len()
                <= 65535),
            StageView::Resolving { datagram } => !(event is Succeeded) && !(event is Failed),
            StageView::Replied => !(event is Sent),
            StageView::Closed => true,
        },
    ensures
        step(config, stage, event) == (stage, Err::<ActionView, TunlError>(TunlError::OutOfTurn)),
{
}

/// The stage after the answer is the one of the kind of request, and a datagram is kept until it was
/// resolved.
pub proof fn stages_follow_the_request(config: ConfigView, request: RequestView, datagram: Seq<u8>)
    requires
        datagram.len() <= 65535,
    ensures
        step(config, StageView::Answered { request }, EventView::Sent).0 == if request.is_tcp {
            StageView::Direct
        } else {
            StageView::Datagram
        },
        step(config, StageView::Datagram, EventView::Received(datagram)).0
            == (StageView::Resolving { datagram }),
        step(config, StageView::Resolving { datagram }, EventView::Succeeded).0
            == StageView::Replied,
{
}

/// A reader makes progress: where it has room and there is a byte, held or just arrived, it gets at once
/// as many of them as it has room for, from the front, and the rest stays held. It polls only where it
/// has no room or there is no byte, and a text message brings none.
pub proof fn reading_makes_progress(held: Seq<u8>, room: nat, data: Seq<u8>)
    ensures
        ({
            let all = held + data;
            let (left, step) = read_step(held, room, SocketEventView::Message(Some(data)));
            &&& room > 0 && all.len() > 0 ==> step is Deliver
            &&& room == 0 || all.len() == 0 ==> step == ReadStepView::Poll && left == all
            &&& step matches ReadStepView::Deliver(bytes) ==> {
                &&& bytes + left == all
                &&& bytes.len() <= room
                &&& left.len() > 0 ==> bytes.len() == room
            }
        }),
        ({
            let (left, step) = read_step(held, room, SocketEventView::Start);
            &&& room > 0 && held.len() > 0 ==> step is Deliver
            &&& room == 0 || held.len() == 0 ==> step == ReadStepView::Poll && left == held
            &&& step matches ReadStepView::Deliver(bytes) ==> {
                &&& bytes + left == held
                &&& bytes.len() <= room
                &&& left.len() > 0 ==> bytes.len() == room
            }
        }),
        read_step(held, room, SocketEventView::Message(None)) == read_step(
            held,
            room,
            SocketEventView::Start,
        ),
        read_step(held, room, SocketEventView::Pending) == (held, ReadStepView::Pending),
        read_step(held, room, SocketEventView::Closed) == (held, ReadStepView::End),
{
    let all = held + data;
    assert(held + Seq::<u8>::empty() == held);
    assert(all.take(all.len() as int) + all.skip(all.len() as int) == all);
    assert(held.take(held.len() as int) + held.skip(held.len() as int) == held);
    if room <= all.len() {
        assert(all.take(room as int) + all.skip(room as int) == all);
    }
    if room <= held.len() {
        assert(held.take(room as int) + held.skip(room as int) == held);
    }
}

/// A reader with room for all that is held and has just arrived gets it at once, however much room is
/// left over, and the next poll starts with the next message.
pub proof fn messages_are_not_held_back(held: Seq<u8>, room: nat, one: Seq<u8>, other: Seq<u8>)
    requires
        room > 0,
        held.len() + one.len() > 0,
        held.len() + one.len() <= room,
        other.len() > 0,
    ensures
        ({
            let (left, first) = read_step(held, room, SocketEventView::Message(Some(one)));
            let (_, second) = read_step(left, room, SocketEventView::Message(Some(other)));
            &&& first == ReadStepView::Deliver(held + one)
            &&& left.len() == 0
            &&& second == ReadStepView::Deliver(
                other.take(
                    if other.len() <= room {
                        other.len() as int
                    } else {
                        room as int
                    },
                ),
            )
        }),
{
    let all = held + one;
    assert(all.take(all.len() as int) == all);
    assert(all.skip(all.len() as int) == Seq::<u8>::empty());
    assert(Seq::<u8>::empty() + other == other);
}

/// What stages, events, actions, polls and steps hold is what their parts hold.
pub proof fn session_views_are_their_parts(
    stage: Stage,
    event: Event,
    outcome: Result<Action, TunlError>,
    poll: SocketEvent,
    step: ReadStep,
)
    ensures
        match stage {
            Stage::Idle => stage@ == StageView::Idle,
            Stage::Greeting => stage@ == StageView::Greeting,
            Stage::Command { auth_id, nonce, length } => stage@ == (StageView::Command {
                auth_id: auth_id@,
                nonce: nonce@,
                length,
            }),
            Stage::Accepted { request } => stage@ == (StageView::Accepted { request: request@ }),
            Stage::Answered { request } => stage@ == (StageView::Answered { request: request@ }),
            Stage::Direct => stage@ == StageView::Direct,
            Stage::Fallback => stage@ == StageView::Fallback,
            Stage::Datagram => stage@ == StageView::Datagram,
            Stage::Resolving { datagram } => stage@ == (StageView::Resolving {
                datagram: datagram@,
            }),
            Stage::Replied => stage@ == StageView::Replied,
            Stage::Closed => stage@ == StageView::Closed,
        },
        match event {
            Event::Begin => event@ == EventView::Begin,
            Event::Received(bytes) => event@ == EventView::Received(bytes@),
            Event::Sent => event@ == EventView::Sent,
            Event::Succeeded => event@ == EventView::Succeeded,
            Event::Failed => event@ == EventView::Failed,
        },
        match outcome {
            Ok(Action::Read(count)) => outcome_view(outcome) == Ok::<ActionView, TunlError>(
                ActionView::Read(count),
            ),
            Ok(Action::Send(bytes)) => outcome_view(outcome) == Ok::<ActionView, TunlError>(
                ActionView::Send(bytes@),
            ),
            Ok(Action::Relay { addr, port }) => outcome_view(outcome) == Ok::<ActionView, TunlError>(
                ActionView::Relay { addr: addr@, port },
            ),
            Ok(Action::ReadDatagram(count)) => outcome_view(outcome) == Ok::<ActionView, TunlError>(
                ActionView::ReadDatagram(count),
            ),
            Ok(Action::Resolve(bytes)) => outcome_view(outcome) == Ok::<ActionView, TunlError>(
                ActionView::Resolve(bytes@),
            ),
            Ok(Action::Finish) => outcome_view(outcome) == Ok::<ActionView, TunlError>(
                ActionView::Finish,
            ),
            Err(error) => outcome_view(outcome) == Err::<ActionView, TunlError>(error),
        },
        match poll {
            SocketEvent::Start => poll@ == SocketEventView::Start,
            SocketEvent::Message(Some(data)) => poll@ == SocketEventView::Message(Some(data@)),
            SocketEvent::Message(None) => poll@ == SocketEventView::Message(None),
            SocketEvent::Pending => poll@ == SocketEventView::Pending,
            SocketEvent::Closed => poll@ == SocketEventView::Closed,
        },
        match step {
            ReadStep::Deliver(data) => step@ == ReadStepView::Deliver(data@),
            ReadStep::Poll => step@ == ReadStepView::Poll,
            ReadStep::Pending => step@ == ReadStepView::Pending,
            ReadStep::End => step@ == ReadStepView::End,
        },
{
}

} // verus!
