//! Byte streams over WebSocket messages.

pub mod acceptor;
pub mod connector;

use crate::buffer::{self, Chunk};
use crate::wire;
use vstd::prelude::*;
use vstd::slice::*;
use vstd::string::*;

verus! {

pub const DEFAULT_HANDSHAKE_TIMEOUT_SECS: u64 = 10;

pub const DEFAULT_MAX_HANDSHAKE_SIZE: usize = 8192;

pub const DEFAULT_BUFFER_SIZE: usize = 16384;

pub const DEFAULT_MAX_MESSAGE_SIZE: usize = 1048576;

pub const DEFAULT_MAX_WRITE_BUFFER_SIZE: usize = 2097152;

pub const DEFAULT_MAX_EARLY_DATA: usize = 8192;

pub const DEFAULT_KEEPALIVE_INTERVAL_SECS: u64 = 30;

/// Why a WebSocket configuration, handshake or message is refused.
#[derive(Clone, Copy, Debug)]
pub enum WebSocketError {
    PathStart,
    PathQuery,
    HandshakeLimits,
    EarlyDataLimit,
    HeaderName,
    ResourceLimits,
    HandshakeTimeout,
    HandshakeTimedOut,
    UpgradeRequired,
    HeadersTooLarge,
    EarlyDataTooLarge,
    EarlyDataEncoding,
    NotBinary,
}

impl WebSocketError {
    /// The words of the error.
    pub open spec fn text(self) -> Seq<char> {
        match self {
            WebSocketError::PathStart => "websocket: websocket path must start with '/'"@,
            WebSocketError::PathQuery => {
                "websocket: websocket path must not contain a query or fragment"@
            },
            WebSocketError::HandshakeLimits => "websocket: invalid websocket handshake limits"@,
            WebSocketError::EarlyDataLimit => "websocket: websocket early data limit is too large"@,
            WebSocketError::HeaderName => "websocket: invalid websocket early data header name"@,
            WebSocketError::ResourceLimits => "websocket: invalid websocket resource limits"@,
            WebSocketError::HandshakeTimeout => "websocket: invalid websocket handshake timeout"@,
            WebSocketError::HandshakeTimedOut => "websocket: websocket handshake timed out"@,
            WebSocketError::UpgradeRequired => "websocket: websocket upgrade required"@,
            WebSocketError::HeadersTooLarge => {
                "websocket: websocket handshake headers are too large"@
            },
            WebSocketError::EarlyDataTooLarge => "websocket: websocket early data exceeds limit"@,
            WebSocketError::EarlyDataEncoding => {
                "websocket: invalid websocket early data encoding"@
            },
            WebSocketError::NotBinary => {
                "websocket: websocket transport only supports binary messages"@
            },
        }
    }

    /// The words of the error.
    pub fn message(&self) -> (r: String)
        ensures
            r@ == self.text(),
    {
        match self {
            WebSocketError::PathStart => {
                "websocket: websocket path must start with '/'".to_string()
            },
            WebSocketError::PathQuery => {
                "websocket: websocket path must not contain a query or fragment".to_string()
            },
            WebSocketError::HandshakeLimits => {
                "websocket: invalid websocket handshake limits".to_string()
            },
            WebSocketError::EarlyDataLimit => {
                "websocket: websocket early data limit is too large".to_string()
            },
            WebSocketError::HeaderName => {
                "websocket: invalid websocket early data header name".to_string()
            },
            WebSocketError::ResourceLimits => {
                "websocket: invalid websocket resource limits".to_string()
            },
            WebSocketError::HandshakeTimeout => {
                "websocket: invalid websocket handshake timeout".to_string()
            },
            WebSocketError::HandshakeTimedOut => {
                "websocket: websocket handshake timed out".to_string()
            },
            WebSocketError::UpgradeRequired => {
                "websocket: websocket upgrade required".to_string()
            },
            WebSocketError::HeadersTooLarge => {
                "websocket: websocket handshake headers are too large".to_string()
            },
            WebSocketError::EarlyDataTooLarge => {
                "websocket: websocket early data exceeds limit".to_string()
            },
            WebSocketError::EarlyDataEncoding => {
                "websocket: invalid websocket early data encoding".to_string()
            },
            WebSocketError::NotBinary => {
                "websocket: websocket transport only supports binary messages".to_string()
            },
        }
    }
}

/// Sizes and intervals of a WebSocket.
#[derive(Clone, Copy, Debug)]
pub struct WebSocketOptions {
    pub read_buffer_size: usize,
    pub write_buffer_size: usize,
    pub max_message_size: usize,
    pub max_frame_size: usize,
    pub max_write_buffer_size: usize,
    pub max_write_frame_size: usize,
    pub keepalive_interval_secs: u64,
}

impl Default for WebSocketOptions {
    fn default() -> (r: Self)
        ensures
            r == (WebSocketOptions {
                read_buffer_size: DEFAULT_BUFFER_SIZE,
                write_buffer_size: DEFAULT_BUFFER_SIZE,
                max_message_size: DEFAULT_MAX_MESSAGE_SIZE,
                max_frame_size: DEFAULT_MAX_MESSAGE_SIZE,
                max_write_buffer_size: DEFAULT_MAX_WRITE_BUFFER_SIZE,
                max_write_frame_size: 0,
                keepalive_interval_secs: DEFAULT_KEEPALIVE_INTERVAL_SECS,
            }),
    {
        WebSocketOptions {
            read_buffer_size: DEFAULT_BUFFER_SIZE,
            write_buffer_size: DEFAULT_BUFFER_SIZE,
            max_message_size: DEFAULT_MAX_MESSAGE_SIZE,
            max_frame_size: DEFAULT_MAX_MESSAGE_SIZE,
            max_write_buffer_size: DEFAULT_MAX_WRITE_BUFFER_SIZE,
            max_write_frame_size: 0,
            keepalive_interval_secs: DEFAULT_KEEPALIVE_INTERVAL_SECS,
        }
    }
}

/// The limits that the WebSocket implementation is set up with.
pub struct WebSocketLimits {
    pub read_buffer_size: usize,
    pub write_buffer_size: usize,
    pub max_write_buffer_size: usize,
    pub max_message_size: Option<usize>,
    pub max_frame_size: Option<usize>,
}

impl WebSocketOptions {
    /// Whether the sizes fit together: buffers and messages are not empty, a frame fits into a
    /// message, and there is room behind the write buffer.
    pub open spec fn valid(&self) -> bool {
        &&& self.read_buffer_size != 0
        &&& self.max_message_size != 0
        &&& self.max_frame_size != 0
        &&& self.max_frame_size <= self.max_message_size
        &&& self.max_write_buffer_size > self.write_buffer_size
        &&& self.max_write_frame_size <= self.max_message_size
    }

    /// Whether the sizes fit together.
    pub fn validate(&self) -> (r: Result<(), WebSocketError>)
        ensures
            match r {
                Ok(()) => self.valid(),
                Err(error) => !self.valid() && error == WebSocketError::ResourceLimits,
            },
    {
        if self.read_buffer_size == 0 || self.max_message_size == 0 || self.max_frame_size == 0
            || self.max_frame_size > self.max_message_size || self.max_write_buffer_size
            <= self.write_buffer_size || self.max_write_frame_size > self.max_message_size {
            return Err(WebSocketError::ResourceLimits);
        }
        Ok(())
    }

    /// What the WebSocket implementation is set up with.
    pub fn tungstenite_config(&self) -> (r: WebSocketLimits)
        ensures
            r == (WebSocketLimits {
                read_buffer_size: self.read_buffer_size,
                write_buffer_size: self.write_buffer_size,
                max_write_buffer_size: self.max_write_buffer_size,
                max_message_size: Some(self.max_message_size),
                max_frame_size: Some(self.max_frame_size),
            }),
    {
        WebSocketLimits {
            read_buffer_size: self.read_buffer_size,
            write_buffer_size: self.write_buffer_size,
            max_write_buffer_size: self.max_write_buffer_size,
            max_message_size: Some(self.max_message_size),
            max_frame_size: Some(self.max_frame_size),
        }
    }
}

/// A message that came in, or its absence.
pub enum WsMessage {
    /// The peer is gone.
    End,
    Binary(Chunk),
    Close,
    /// Ping or pong.
    Control,
    /// Anything else.
    Other,
}

/// How flushing the answer to a close went.
pub enum FlushOutcome {
    /// It was sent, or the connection is closed already.
    Done,
    /// It failed for another reason.
    Failed,
}

/// What a read does next.
pub enum WsReadStep {
    /// The read is done with these bytes.
    Data(Vec<u8>),
    /// The read is done; there will be no more bytes.
    Eof,
    /// Flush what is left to send, then report how it went.
    Flush,
    /// Wait for the next message.
    Wait,
    /// Start over.
    Again,
    /// The read failed.
    Fail(WebSocketError),
    /// The read failed with the error of the flush.
    FlushError,
}

/// The reading side of a byte stream over binary messages.
pub struct WsReader {
    read_buffer: Option<Chunk>,
    read_closed: bool,
    close_flushed: bool,
}

/// The mathematical content of a `WsReader`: bytes that came in and were not read, whether the
/// peer has closed, and whether the close was answered.
pub struct WsReaderView {
    pub pending: Option<Seq<u8>>,
    pub closed: bool,
    pub flushed: bool,
}

impl View for WsReader {
    type V = WsReaderView;

    closed spec fn view(&self) -> WsReaderView {
        WsReaderView {
            pending: match self.read_buffer {
                Some(chunk) => Some(chunk@),
                None => None,
            },
            closed: self.read_closed,
            flushed: self.close_flushed,
        }
    }
}

impl WsReaderView {
    /// The bytes that came in and were not read.
    pub open spec fn unread(self) -> Seq<u8> {
        match self.pending {
            Some(bytes) => bytes,
            None => Seq::empty(),
        }
    }
}

/// A reader at its start, with early data.
pub open spec fn fresh_reader(early_data: Seq<u8>) -> WsReaderView {
    WsReaderView {
        pending: if early_data.len() > 0 {
            Some(early_data)
        } else {
            None
        },
        closed: false,
        flushed: false,
    }
}

/// What the next step of a read into `room` bytes is, and the reader behind it.
pub open spec fn is_read_step(
    old_view: WsReaderView,
    new_view: WsReaderView,
    room: int,
    step: WsReadStep,
) -> bool {
    if old_view.closed {
        &&& new_view == old_view
        &&& if old_view.flushed {
            step is Eof
        } else {
            step is Flush
        }
    } else {
        match old_view.pending {
            None => new_view == old_view && step is Wait,
            Some(bytes) => {
                &&& step matches WsReadStep::Data(out) && out@ == bytes.subrange(
                    0,
                    buffer::least(bytes.len() as int, room),
                )
                &&& new_view == (WsReaderView {
                    pending: if bytes.len() <= room {
                        None
                    } else {
                        Some(bytes.subrange(room, bytes.len() as int))
                    },
                    ..old_view
                })
            },
        }
    }
}

/// What a message does to a read into `room` bytes while nothing is pending, and the reader
/// behind it.
pub open spec fn is_message_step(
    old_view: WsReaderView,
    new_view: WsReaderView,
    message: WsMessage,
    room: int,
    step: WsReadStep,
) -> bool {
    match message {
        WsMessage::End => step is Again && new_view == (WsReaderView {
            closed: true,
            flushed: true,
            ..old_view
        }),
        WsMessage::Close => step is Again && new_view == (WsReaderView { closed: true, ..old_view }),
        WsMessage::Control => step is Again && new_view == old_view,
        WsMessage::Other => step == WsReadStep::Fail(WebSocketError::NotBinary) && new_view
            == old_view,
        WsMessage::Binary(chunk) => if chunk@.len() == 0 {
            step is Again && new_view == old_view
        } else if chunk@.len() <= room {
            (step matches WsReadStep::Data(out) && out@ == chunk@) && new_view == old_view
        } else {
            step is Again && new_view == (WsReaderView { pending: Some(chunk@), ..old_view })
        },
    }
}

impl WsReader {
    /// A reader that hands out early data first.
    pub fn new(early_data: Chunk) -> (r: WsReader)
        ensures
            r@ == fresh_reader(early_data@),
    {
        let read_buffer = if early_data.is_empty() {
            None
        } else {
            Some(early_data)
        };
        WsReader { read_buffer, read_closed: false, close_flushed: false }
    }

    /// The next step of a read into `room` bytes.
    pub fn next(&mut self, room: usize) -> (r: WsReadStep)
        ensures
            is_read_step(old(self)@, final(self)@, room as int, r),
    {
        if self.read_closed {
            if self.close_flushed {
                return WsReadStep::Eof;
            }
            return WsReadStep::Flush;
        }
        match self.read_buffer.take() {
            Some(mut chunk) => {
                let whole: bool = chunk.len() <= room;
                let out = chunk.take(room);
                if !whole {
                    self.read_buffer = Some(chunk);
                }
                WsReadStep::Data(out)
            },
            None => WsReadStep::Wait,
        }
    }

    /// What follows the flush that a read asked for. Whatever came of it, it is not tried again.
    pub fn flushed(&mut self, outcome: FlushOutcome) -> (r: WsReadStep)
        ensures
            final(self)@ == (WsReaderView { flushed: true, ..old(self)@ }),
            match outcome {
                FlushOutcome::Done => r is Eof,
                FlushOutcome::Failed => r is FlushError,
            },
    {
        self.close_flushed = true;
        match outcome {
            FlushOutcome::Done => WsReadStep::Eof,
            FlushOutcome::Failed => WsReadStep::FlushError,
        }
    }

    /// What follows a message that a read waited for.
    pub fn message(&mut self, message: WsMessage, room: usize) -> (r: WsReadStep)
        requires
            old(self)@.pending is None,
        ensures
            is_message_step(old(self)@, final(self)@, message, room as int, r),
    {
        match message {
            WsMessage::End => {
                self.read_closed = true;
                self.close_flushed = true;
                WsReadStep::Again
            },
            WsMessage::Binary(chunk) => {
                if chunk.is_empty() {
                    return WsReadStep::Again;
                }
                if chunk.len() <= room {
                    return WsReadStep::Data(chunk.to_vec());
                }
                self.read_buffer = Some(chunk);
                WsReadStep::Again
            },
            WsMessage::Close => {
                self.read_closed = true;
                WsReadStep::Again
            },
            WsMessage::Control => WsReadStep::Again,
            WsMessage::Other => WsReadStep::Fail(WebSocketError::NotBinary),
        }
    }
}

/// The bytes that a step hands to the reader.
pub open spec fn handed_out(step: WsReadStep) -> Seq<u8> {
    match step {
        WsReadStep::Data(out) => out@,
        _ => Seq::empty(),
    }
}

/// The bytes that a message brings.
pub open spec fn brought(message: WsMessage) -> Seq<u8> {
    match message {
        WsMessage::Binary(chunk) => chunk@,
        _ => Seq::empty(),
    }
}

/// While the peer has not closed, no byte is lost, added or moved: what is handed out and what
/// stays unread make up what was unread before.
pub proof fn lemma_read_keeps_bytes(
    old_view: WsReaderView,
    new_view: WsReaderView,
    room: int,
    step: WsReadStep,
)
    requires
        0 <= room,
        !old_view.closed,
        is_read_step(old_view, new_view, room, step),
    ensures
        handed_out(step) + new_view.unread() == old_view.unread(),
{
    assert(handed_out(step) + new_view.unread() =~= old_view.unread());
}

/// The same of a message: what it brings is handed out or stays unread.
pub proof fn lemma_message_keeps_bytes(
    old_view: WsReaderView,
    new_view: WsReaderView,
    message: WsMessage,
    room: int,
    step: WsReadStep,
)
    requires
        old_view.pending is None,
        is_message_step(old_view, new_view, message, room, step),
    ensures
        handed_out(step) + new_view.unread() == brought(message),
{
    assert(handed_out(step) + new_view.unread() =~= brought(message));
}

/// After a close there are no more bytes: a read ends, or first flushes the answer.
pub proof fn lemma_closed_reads_are_empty(
    old_view: WsReaderView,
    new_view: WsReaderView,
    room: int,
    step: WsReadStep,
)
    requires
        old_view.closed,
        is_read_step(old_view, new_view, room, step),
    ensures
        step is Eof || step is Flush,
        new_view == old_view,
{
}

/// How many of `len` bytes go into one message.
pub open spec fn frame_size(len: int, max: int) -> int {
    if max == 0 || len <= max {
        len
    } else {
        max
    }
}

/// The message that a write of `buf` sends: as many of its first bytes as a frame may hold. The
/// write is done with that many bytes.
pub fn write_frame(buf: &[u8], max_write_frame_size: usize) -> (r: Chunk)
    ensures
        r@ == buf@.subrange(0, frame_size(buf@.len() as int, max_write_frame_size as int)),
        buf@.len() > 0 ==> r@.len() > 0,
{
    let length: usize = if max_write_frame_size == 0 || buf.len() <= max_write_frame_size {
        buf.len()
    } else {
        max_write_frame_size
    };
    Chunk::copy_from_slice(slice_subrange(buf, 0, length))
}

/// The messages that writing all of `data` sends, one write after the other.
pub open spec fn frames(data: Seq<u8>, max: int) -> Seq<Seq<u8>>
    decreases data.len(),
{
    if data.len() == 0 || max < 0 {
        Seq::empty()
    } else {
        let n = frame_size(data.len() as int, max);
        seq![data.subrange(0, n)] + frames(wire::after(data, n), max)
    }
}

/// Messages put together.
pub open spec fn put_together(list: Seq<Seq<u8>>) -> Seq<u8>
    decreases list.len(),
{
    if list.len() == 0 {
        Seq::empty()
    } else {
        list[0] + put_together(list.subrange(1, list.len() as int))
    }
}

/// Writing all of some data sends exactly this data, in messages that are not empty and, where a
/// frame size is set, not larger.
pub proof fn lemma_frames_carry_the_data(data: Seq<u8>, max: int)
    requires
        0 <= max,
    ensures
        put_together(frames(data, max)) == data,
        forall|k: int|
            0 <= k < frames(data, max).len() ==> 0 < (#[trigger] frames(data, max)[k]).len() && (max
                > 0 ==> frames(data, max)[k].len() <= max),
    decreases data.len(),
{
    if data.len() > 0 {
        let n = frame_size(data.len() as int, max);
        let rest = wire::after(data, n);
        let list = frames(data, max);
        lemma_frames_carry_the_data(rest, max);
        assert(list.subrange(1, list.len() as int) =~= frames(rest, max));
        assert(list[0] + rest =~= data);
        assert forall|k: int| 0 <= k < list.len() implies 0 < (#[trigger] list[k]).len() && (max
            > 0 ==> list[k].len() <= max) by {
            if k > 0 {
                assert(list[k] == frames(rest, max)[k - 1]);
            }
        }
    }
}

/// Where a keepalive ping is.
#[derive(Clone, Copy, Debug)]
pub enum KeepaliveState {
    Idle,
    ReadyToSend,
    Flushing,
}

/// What keeping a connection alive does next.
#[derive(Clone, Copy, Debug)]
pub enum KeepaliveStep {
    /// Nothing; reads and writes go on.
    Ready,
    /// Look whether the interval is over.
    PollTick,
    /// Send a ping once the connection takes a message.
    SendPing,
    /// Flush the ping.
    Flush,
}

/// What comes in: how a step went that is done.
#[derive(Clone, Copy, Debug)]
pub enum KeepaliveEvent {
    /// A read or write starts.
    Start,
    /// The interval is over, or not.
    Tick(bool),
    Sent,
    Flushed,
}

/// Sends a ping whenever an interval is over.
pub struct Keepalive {
    pub enabled: bool,
    pub state: KeepaliveState,
}

/// The step that a state is at.
pub open spec fn step_of(state: KeepaliveState) -> KeepaliveStep {
    match state {
        KeepaliveState::Idle => KeepaliveStep::PollTick,
        KeepaliveState::ReadyToSend => KeepaliveStep::SendPing,
        KeepaliveState::Flushing => KeepaliveStep::Flush,
    }
}

/// What an event does to the pings, and the step that follows.
pub open spec fn is_keepalive_step(
    before: Keepalive,
    after: Keepalive,
    event: KeepaliveEvent,
    step: KeepaliveStep,
) -> bool {
    &&& after.enabled == before.enabled
    &&& if !before.enabled {
        step == KeepaliveStep::Ready && after.state == before.state
    } else {
        match event {
            KeepaliveEvent::Start => step == step_of(before.state) && after.state == before.state,
            KeepaliveEvent::Tick(false) => step == KeepaliveStep::Ready && after.state
                == before.state,
            KeepaliveEvent::Tick(true) => step == KeepaliveStep::SendPing && after.state
                == KeepaliveState::ReadyToSend,
            KeepaliveEvent::Sent => step == KeepaliveStep::Flush && after.state
                == KeepaliveState::Flushing,
            KeepaliveEvent::Flushed => step == KeepaliveStep::Ready && after.state
                == KeepaliveState::Idle,
        }
    }
}

impl Keepalive {
    /// Pings every `interval_secs` seconds; never for 0.
    pub fn new(interval_secs: u64) -> (r: Keepalive)
        ensures
            r.enabled == (interval_secs != 0),
            r.state == KeepaliveState::Idle,
    {
        Keepalive { enabled: interval_secs != 0, state: KeepaliveState::Idle }
    }

    /// The next step. A ping that cannot be sent or flushed yet stays where it is and is taken up
    /// at the next start.
    pub fn next(&mut self, event: KeepaliveEvent) -> (r: KeepaliveStep)
        ensures
            is_keepalive_step(*old(self), *final(self), event, r),
    {
        if !self.enabled {
            return KeepaliveStep::Ready;
        }
        match event {
            KeepaliveEvent::Start => match self.state {
                KeepaliveState::Idle => KeepaliveStep::PollTick,
                KeepaliveState::ReadyToSend => KeepaliveStep::SendPing,
                KeepaliveState::Flushing => KeepaliveStep::Flush,
            },
            KeepaliveEvent::Tick(over) => {
                if over {
                    self.state = KeepaliveState::ReadyToSend;
                    KeepaliveStep::SendPing
                } else {
                    KeepaliveStep::Ready
                }
            },
            KeepaliveEvent::Sent => {
                self.state = KeepaliveState::Flushing;
                KeepaliveStep::Flush
            },
            KeepaliveEvent::Flushed => {
                self.state = KeepaliveState::Idle;
                KeepaliveStep::Ready
            },
        }
    }
}

/// Early data is what a reader hands out first: all of it stays to be read and nothing else, and
/// without it a read waits for a message.
pub proof fn lemma_early_data_is_read_first(
    early_data: Seq<u8>,
    new_view: WsReaderView,
    room: int,
    step: WsReadStep,
)
    requires
        0 <= room,
        is_read_step(fresh_reader(early_data), new_view, room, step),
    ensures
        handed_out(step) + new_view.unread() == early_data,
        early_data.len() == 0 <==> step is Wait,
        early_data.len() > 0 ==> step is Data && handed_out(step).len() == (if early_data.len()
            <= room {
            early_data.len() as int
        } else {
            room
        }),
        !new_view.closed,
{
    assert(fresh_reader(early_data).unread() =~= early_data);
    lemma_read_keeps_bytes(fresh_reader(early_data), new_view, room, step);
}

/// A read with pending bytes hands out as many as there is room for, at once; one without any waits
/// for a message.
pub proof fn lemma_pending_bytes_are_read(
    old_view: WsReaderView,
    new_view: WsReaderView,
    room: int,
    step: WsReadStep,
)
    requires
        0 <= room,
        !old_view.closed,
        is_read_step(old_view, new_view, room, step),
    ensures
        old_view.pending is None <==> step is Wait,
        old_view.pending is Some <==> step is Data,
        handed_out(step).len() <= room,
        handed_out(step).len() == room || new_view.pending is None,
        new_view.closed == old_view.closed,
        new_view.flushed == old_view.flushed,
{
}

/// A message that is not binary brings the stream no bytes: the end of the peer ends it at once, a
/// close ends it once the answer is flushed, a ping or pong changes nothing, and anything else is
/// an error. A binary message never ends the stream.
pub proof fn lemma_only_binary_messages_carry_bytes(
    old_view: WsReaderView,
    new_view: WsReaderView,
    message: WsMessage,
    room: int,
    step: WsReadStep,
    next_view: WsReaderView,
    next_step: WsReadStep,
)
    requires
        0 <= room,
        !old_view.closed,
        !old_view.flushed,
        old_view.pending is None,
        is_message_step(old_view, new_view, message, room, step),
        is_read_step(new_view, next_view, room, next_step),
    ensures
        message is End ==> step is Again && next_step is Eof,
        message is Close ==> step is Again && next_step is Flush,
        message is Control ==> step is Again && next_step is Wait,
        message is Other ==> step == WsReadStep::Fail(WebSocketError::NotBinary),
        message matches WsMessage::Binary(chunk) ==> {
            &&& !new_view.closed
            &&& chunk@.len() == 0 ==> step is Again && next_step is Wait
            &&& 0 < chunk@.len() <= room ==> step is Data && handed_out(step) == chunk@
            &&& chunk@.len() > room ==> step is Again && next_step is Data && handed_out(next_step)
                == chunk@.subrange(0, room)
        },
{
}

/// A write takes all of its bytes where no frame size is set or they fit, else a full frame; never
/// nothing of something.
pub proof fn lemma_frame_sizes(len: int, max: int)
    requires
        0 <= len,
        0 <= max,
    ensures
        frame_size(len, 0) == len,
        max > 0 ==> frame_size(len, max) <= max,
        frame_size(len, max) <= len,
        frame_size(len, max) == len || (max > 0 && frame_size(len, max) == max),
{
}

/// The sizes that fit together, and how far each may go.
pub proof fn lemma_sizes_that_fit(o: WebSocketOptions)
    ensures
        o.valid() <==> 1 <= o.read_buffer_size && 1 <= o.max_frame_size <= o.max_message_size
            && o.max_write_frame_size <= o.max_message_size && o.write_buffer_size
            < o.max_write_buffer_size,
        o.valid() ==> (WebSocketOptions { max_message_size: usize::MAX, ..o }).valid(),
        o.valid() ==> (WebSocketOptions { max_write_frame_size: 0, ..o }).valid(),
        o.valid() ==> (WebSocketOptions { write_buffer_size: 0, ..o }).valid(),
{
}

/// Without an interval nothing is ever sent. With one, a ping is sent once the interval is over and
/// then flushed, after which the connection is idle again; a ping that could not be sent or flushed
/// is taken up where it was at the next start.
pub proof fn lemma_pings_follow_the_interval(
    k0: Keepalive,
    k1: Keepalive,
    k2: Keepalive,
    k3: Keepalive,
    event: KeepaliveEvent,
    step1: KeepaliveStep,
    step2: KeepaliveStep,
    step3: KeepaliveStep,
)
    ensures
        !k0.enabled && is_keepalive_step(k0, k1, event, step1) ==> step1 is Ready && k1 == k0,
        k0.enabled && is_keepalive_step(k0, k1, KeepaliveEvent::Tick(false), step1) ==> step1
            is Ready && k1 == k0,
        k0.enabled && is_keepalive_step(k0, k1, KeepaliveEvent::Tick(true), step1)
            && is_keepalive_step(k1, k2, KeepaliveEvent::Start, step2) ==> step1 is SendPing
            && step2 is SendPing && k2 == k1,
        k0.enabled && is_keepalive_step(k0, k1, KeepaliveEvent::Sent, step1) && is_keepalive_step(
            k1,
            k2,
            KeepaliveEvent::Start,
            step2,
        ) ==> step1 is Flush && step2 is Flush && k2 == k1,
        k0.enabled && is_keepalive_step(k0, k1, KeepaliveEvent::Flushed, step1)
            && is_keepalive_step(k1, k2, KeepaliveEvent::Start, step2) ==> step1 is Ready && step2
            is PollTick && k2 == k1,
        k0.enabled && is_keepalive_step(k0, k1, KeepaliveEvent::Tick(true), step1)
            && is_keepalive_step(k1, k2, KeepaliveEvent::Sent, step2) && is_keepalive_step(
            k2,
            k3,
            KeepaliveEvent::Flushed,
            step3,
        ) ==> k3.enabled && k3.state is Idle,
{
}

} // verus!
