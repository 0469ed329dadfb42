//! Deterministic MIDI byte-stream parsing and bounded external-clock tracking.
//!
//! Nothing here owns a port or reads a clock: callers feed bytes and
//! monotonic time stamps (nanoseconds) and act on what comes back.

use vstd::prelude::*;

use crate::tempo::{Bpm, MAX_BPM_HUNDREDTHS, MIN_BPM_HUNDREDTHS};

verus! {

pub const MIDI_TIMING_CLOCK: u8 = 0xf8;

pub const MIDI_START: u8 = 0xfa;

pub const MIDI_CONTINUE: u8 = 0xfb;

pub const MIDI_STOP: u8 = 0xfc;

/// Clock intervals needed before a tempo is offered.
pub const ACQUISITION_INTERVALS: usize = 6;

/// Silence after which the external clock counts as lost (500 ms).
pub const CLOCK_LOSS_TIMEOUT_NANOS: u64 = 500_000_000;

/// Intervals the tempo filter keeps.
pub const FILTER_INTERVALS: usize = 24;

/// Consecutive malformed clocks that fault the follower.
pub const MAX_CONSECUTIVE_MALFORMED: u8 = 6;

/// Clocks closer than this (2 ms) are one coalesced USB delivery.
pub const BURST_WINDOW_NANOS: u64 = 2_000_000;

/// Shortest accepted clock interval (6 ms, above 300 BPM with delivery jitter).
pub const MIN_INTERVAL_NANOS: u64 = 6_000_000;

/// Longest accepted clock interval (150 ms, below 20 BPM with delivery jitter).
pub const MAX_INTERVAL_NANOS: u64 = 150_000_000;

/// A MIDI System Real-Time message.
#[derive(Clone, Copy, Debug, PartialEq, Eq, Structural)]
pub enum RealtimeMessage {
    TimingClock,
    Start,
    Continue,
    Stop,
    ActiveSensing,
    Reset,
    Undefined(u8),
}

/// The Real-Time message a byte encodes; all other bytes give `None`.
pub open spec fn spec_realtime(byte: u8) -> Option<RealtimeMessage> {
    if byte == 0xf8 {
        Some(RealtimeMessage::TimingClock)
    } else if byte == 0xf9 || byte == 0xfd {
        Some(RealtimeMessage::Undefined(byte))
    } else if byte == 0xfa {
        Some(RealtimeMessage::Start)
    } else if byte == 0xfb {
        Some(RealtimeMessage::Continue)
    } else if byte == 0xfc {
        Some(RealtimeMessage::Stop)
    } else if byte == 0xfe {
        Some(RealtimeMessage::ActiveSensing)
    } else if byte == 0xff {
        Some(RealtimeMessage::Reset)
    } else {
        None
    }
}

impl RealtimeMessage {
    pub fn from_byte(byte: u8) -> (message: Option<RealtimeMessage>)
        ensures
            message == spec_realtime(byte),
    {
        if byte == MIDI_TIMING_CLOCK {
            Some(RealtimeMessage::TimingClock)
        } else if byte == 0xf9 || byte == 0xfd {
            Some(RealtimeMessage::Undefined(byte))
        } else if byte == MIDI_START {
            Some(RealtimeMessage::Start)
        } else if byte == MIDI_CONTINUE {
            Some(RealtimeMessage::Continue)
        } else if byte == MIDI_STOP {
            Some(RealtimeMessage::Stop)
        } else if byte == 0xfe {
            Some(RealtimeMessage::ActiveSensing)
        } else if byte == 0xff {
            Some(RealtimeMessage::Reset)
        } else {
            None
        }
    }
}

/// One item the byte stream yields.
#[derive(Clone, Debug, PartialEq, Eq)]
pub enum StreamItem {
    Message(Vec<u8>),
    Realtime(RealtimeMessage),
    Malformed,
}

/// The spec reading of a stream item.
pub enum ItemView {
    Message(Seq<u8>),
    Realtime(RealtimeMessage),
    Malformed,
}

impl View for StreamItem {
    type V = ItemView;

    open spec fn view(&self) -> ItemView {
        match self {
            StreamItem::Message(bytes) => ItemView::Message(bytes@),
            StreamItem::Realtime(message) => ItemView::Realtime(*message),
            StreamItem::Malformed => ItemView::Malformed,
        }
    }
}

pub open spec fn items_view(items: Seq<StreamItem>) -> Seq<ItemView> {
    items.map_values(|item: StreamItem| item@)
}

/// Bytes in a complete message that begins with `status`.
pub open spec fn spec_message_len(status: u8) -> usize {
    if (0x80 <= status <= 0xbf) || (0xe0 <= status <= 0xef) || status == 0xf2 {
        3
    } else if (0xc0 <= status <= 0xdf) || status == 0xf1 || status == 0xf3 {
        2
    } else {
        1
    }
}

fn message_len(status: u8) -> (len: usize)
    ensures
        len == spec_message_len(status),
{
    if (0x80 <= status && status <= 0xbf) || (0xe0 <= status && status <= 0xef) || status == 0xf2 {
        3
    } else if (0xc0 <= status && status <= 0xdf) || status == 0xf1 || status == 0xf3 {
        2
    } else {
        1
    }
}

/// The parser's state: running status, the channel or common message being
/// collected, and the SysEx being collected.
pub struct ParserState {
    pub running_status: Option<u8>,
    pub pending: Seq<u8>,
    pub pending_len: usize,
    pub sysex: Option<Seq<u8>>,
}

/// A state and the items one step yields.
pub struct ParserStep {
    pub state: ParserState,
    pub items: Seq<ItemView>,
}

/// Emit the pending message once it holds all its bytes.
pub open spec fn finish_pending_spec(state: ParserState) -> ParserStep {
    if state.pending_len != 0 && state.pending.len() == state.pending_len {
        ParserStep {
            state: ParserState { pending: Seq::empty(), pending_len: 0, ..state },
            items: seq![ItemView::Message(state.pending)],
        }
    } else {
        ParserStep { state, items: Seq::empty() }
    }
}

/// Begin a message at status byte `status` (not a Real-Time byte).
pub open spec fn begin_status_spec(state: ParserState, status: u8) -> ParserStep {
    if status == 0xf0 {
        ParserStep { state: ParserState { running_status: None, sysex: Some(seq![0xf0u8]), ..state }, items: Seq::empty() }
    } else if status == 0xf7 {
        ParserStep { state: ParserState { running_status: None, ..state }, items: seq![ItemView::Malformed] }
    } else {
        finish_pending_spec(
            ParserState {
                running_status: if 0x80 <= status <= 0xef { Some(status) } else { None },
                pending: state.pending.push(status),
                pending_len: spec_message_len(status),
                ..state
            },
        )
    }
}

pub open spec fn prefixed(items: Seq<ItemView>, step: ParserStep) -> ParserStep {
    ParserStep { items: items + step.items, ..step }
}

/// One byte of MIDI 1.0 input. Real-Time bytes pass through and change nothing;
/// SysEx collects until 0xF7; data bytes complete the pending or running-status message.
pub open spec fn parse_byte(state: ParserState, byte: u8) -> ParserStep {
    match spec_realtime(byte) {
        Some(message) => ParserStep { state, items: seq![ItemView::Realtime(message)] },
        None => match state.sysex {
            Some(collected) => if byte == 0xf7 {
                ParserStep {
                    state: ParserState { sysex: None, ..state },
                    items: seq![ItemView::Message(collected.push(byte))],
                }
            } else if byte >= 0x80 {
                prefixed(
                    seq![ItemView::Malformed],
                    begin_status_spec(ParserState { sysex: None, running_status: None, ..state }, byte),
                )
            } else {
                ParserStep { state: ParserState { sysex: Some(collected.push(byte)), ..state }, items: Seq::empty() }
            },
            None => if byte >= 0x80 {
                if state.pending.len() > 0 {
                    prefixed(
                        seq![ItemView::Malformed],
                        begin_status_spec(ParserState { pending: Seq::empty(), pending_len: 0, ..state }, byte),
                    )
                } else {
                    begin_status_spec(state, byte)
                }
            } else if state.pending.len() == 0 {
                match state.running_status {
                    None => ParserStep { state, items: seq![ItemView::Malformed] },
                    Some(status) => finish_pending_spec(
                        ParserState { pending: seq![status, byte], pending_len: spec_message_len(status), ..state },
                    ),
                }
            } else {
                finish_pending_spec(ParserState { pending: state.pending.push(byte), ..state })
            },
        },
    }
}

/// The state and items after a whole byte sequence.
pub open spec fn parse_bytes(state: ParserState, bytes: Seq<u8>) -> ParserStep
    decreases bytes.len(),
{
    if bytes.len() == 0 {
        ParserStep { state, items: Seq::empty() }
    } else {
        let before = parse_bytes(state, bytes.drop_last());
        prefixed(before.items, parse_byte(before.state, bytes.last()))
    }
}

/// Stateful MIDI 1.0 byte-stream parser. System Real-Time bytes are emitted
/// immediately without disturbing running status, pending channel messages,
/// or SysEx collection.
#[derive(Clone, Debug)]
pub struct MidiByteStream {
    running_status: Option<u8>,
    pending: Vec<u8>,
    pending_len: usize,
    sysex: Option<Vec<u8>>,
}

impl View for MidiByteStream {
    type V = ParserState;

    closed spec fn view(&self) -> ParserState {
        ParserState {
            running_status: self.running_status,
            pending: self.pending@,
            pending_len: self.pending_len,
            sysex: match self.sysex {
                Some(bytes) => Some(bytes@),
                None => None,
            },
        }
    }
}

/// A fresh parser: no running status and nothing collected.
pub open spec fn idle_parser() -> ParserState {
    ParserState { running_status: None, pending: Seq::empty(), pending_len: 0, sysex: None }
}

impl MidiByteStream {
    pub fn new() -> (stream: MidiByteStream)
        ensures
            stream@ == idle_parser(),
            stream.inv(),
    {
        MidiByteStream { running_status: None, pending: Vec::new(), pending_len: 0, sysex: None }
    }

    pub closed spec fn inv(&self) -> bool {
        &&& self.pending@.len() <= 3
        &&& self.pending_len <= 3
        &&& (self.pending@.len() > 0 ==> self.pending@.len() < self.pending_len)
        &&& (self.sysex is Some ==> self.pending@.len() == 0)
        &&& (self.running_status matches Some(status) ==> 0x80 <= status <= 0xef)
    }

    fn emit_pending(&mut self, items: &mut Vec<StreamItem>)
        requires
            1 <= old(self).pending_len <= 3,
            old(self).pending@.len() <= old(self).pending_len,
        ensures
            final(self)@ == finish_pending_spec(old(self)@).state,
            final(self).pending@.len() <= 3 && final(self).pending_len <= 3,
            final(self).pending@.len() > 0 ==> final(self).pending@.len() < final(self).pending_len,
            final(self).running_status == old(self).running_status,
            final(self).sysex == old(self).sysex,
            items_view(final(items)@) == items_view(old(items)@) + finish_pending_spec(old(self)@).items,
    {
        if self.pending_len != 0 && self.pending.len() == self.pending_len {
            let mut message: Vec<u8> = Vec::new();
            std::mem::swap(&mut message, &mut self.pending);
            items.push(StreamItem::Message(message));
            self.pending_len = 0;
            proof {
                assert(items_view(items@) =~= items_view(old(items)@) + finish_pending_spec(old(self)@).items);
            }
        } else {
            assert(items_view(items@) =~= items_view(old(items)@) + finish_pending_spec(old(self)@).items);
        }
    }

    fn begin_status(&mut self, status: u8, items: &mut Vec<StreamItem>)
        requires
            old(self).pending@.len() == 0,
            old(self).pending_len <= 3,
            old(self).sysex is None,
            status >= 0x80,
            spec_realtime(status) is None,
        ensures
            final(self)@ == begin_status_spec(old(self)@, status).state,
            items_view(final(items)@) == items_view(old(items)@) + begin_status_spec(old(self)@, status).items,
            final(self).pending@.len() <= 3 && final(self).pending_len <= 3,
            final(self).pending@.len() > 0 ==> final(self).pending@.len() < final(self).pending_len,
            final(self).sysex is Some ==> final(self).pending@.len() == 0,
            old(self).sysex is None ==> final(self).sysex is None || status == 0xf0,
            final(self).running_status matches Some(s) ==> 0x80 <= s <= 0xef,
    {
        if status == 0xf0 {
            self.running_status = None;
            let mut collected = Vec::new();
            collected.push(status);
            self.sysex = Some(collected);
            proof {
                assert(self@ == begin_status_spec(old(self)@, status).state);
                assert(items_view(items@) =~= items_view(old(items)@) + begin_status_spec(old(self)@, status).items);
            }
        } else if status == 0xf7 {
            self.running_status = None;
            items.push(StreamItem::Malformed);
            proof {
                assert(items_view(items@) =~= items_view(old(items)@) + begin_status_spec(old(self)@, status).items);
            }
        } else {
            self.running_status = if status <= 0xef { Some(status) } else { None };
            self.pending.push(status);
            self.pending_len = message_len(status);
            self.emit_pending(items);
        }
    }

    /// Feed bytes; returns the messages they complete, in order.
    pub fn push(&mut self, bytes: &[u8]) -> (items: Vec<StreamItem>)
        requires
            old(self).inv(),
        ensures
            final(self).inv(),
            final(self)@ == parse_bytes(old(self)@, bytes@).state,
            items_view(items@) == parse_bytes(old(self)@, bytes@).items,
    {
        let mut items: Vec<StreamItem> = Vec::new();
        let ghost start = self@;
        let mut index: usize = 0;
        while index < bytes.len()
            invariant
                index <= bytes@.len(),
                self.inv(),
                self@ == parse_bytes(start, bytes@.take(index as int)).state,
                items_view(items@) == parse_bytes(start, bytes@.take(index as int)).items,
            decreases bytes@.len() - index,
        {
            let byte = bytes[index];
            proof {
                assert(bytes@.take(index + 1).drop_last() =~= bytes@.take(index as int));
                assert(bytes@.take(index + 1).last() == byte);
            }
            let ghost before_items = items_view(items@);
            let ghost before_state = self@;
            self.step(byte, &mut items);
            proof {
                assert(items_view(items@) =~= before_items + parse_byte(before_state, byte).items);
            }
            index += 1;
        }
        assert(bytes@.take(bytes@.len() as int) =~= bytes@);
        items
    }

    fn step(&mut self, byte: u8, items: &mut Vec<StreamItem>)
        requires
            old(self).inv(),
        ensures
            final(self).inv(),
            final(self)@ == parse_byte(old(self)@, byte).state,
            items_view(final(items)@) == items_view(old(items)@) + parse_byte(old(self)@, byte).items,
    {
        match RealtimeMessage::from_byte(byte) {
            Some(message) => {
                items.push(StreamItem::Realtime(message));
                assert(items_view(items@) =~= items_view(old(items)@) + parse_byte(old(self)@, byte).items);
                return;
            },
            None => {},
        }
        let collecting = match &self.sysex {
            Some(_) => true,
            None => false,
        };
        if collecting {
            if byte == 0xf7 {
                let mut collected = match self.sysex.take() {
                    Some(bytes) => bytes,
                    None => Vec::new(),
                };
                collected.push(byte);
                items.push(StreamItem::Message(collected));
                assert(items_view(items@) =~= items_view(old(items)@) + parse_byte(old(self)@, byte).items);
            } else if byte >= 0x80 {
                self.sysex = None;
                self.running_status = None;
                items.push(StreamItem::Malformed);
                let ghost marked = items_view(items@);
                self.begin_status(byte, items);
                assert(items_view(items@) =~= items_view(old(items)@) + parse_byte(old(self)@, byte).items);
            } else {
                let mut collected = match self.sysex.take() {
                    Some(bytes) => bytes,
                    None => Vec::new(),
                };
                collected.push(byte);
                self.sysex = Some(collected);
                assert(items_view(items@) =~= items_view(old(items)@) + parse_byte(old(self)@, byte).items);
            }
            return;
        }
        if byte >= 0x80 {
            if self.pending.len() > 0 {
                self.pending = Vec::new();
                self.pending_len = 0;
                items.push(StreamItem::Malformed);
            }
            self.begin_status(byte, items);
            assert(items_view(items@) =~= items_view(old(items)@) + parse_byte(old(self)@, byte).items);
            return;
        }
        if self.pending.len() == 0 {
            match self.running_status {
                None => {
                    items.push(StreamItem::Malformed);
                    assert(items_view(items@) =~= items_view(old(items)@) + parse_byte(old(self)@, byte).items);
                    return;
                },
                Some(status) => {
                    self.pending.push(status);
                    self.pending.push(byte);
                    self.pending_len = message_len(status);
                    assert(self@.pending =~= seq![status, byte]);
                    assert(self@ == ParserState {
                        pending: seq![status, byte],
                        pending_len: spec_message_len(status),
                        ..old(self)@
                    });
                    self.emit_pending(items);
                    return;
                },
            }
        }
        self.pending.push(byte);
        assert(self@ == ParserState { pending: old(self)@.pending.push(byte), ..old(self)@ });
        self.emit_pending(items);
    }
}


/// Splitting a byte sequence splits the parse: the second part starts from
/// the state the first part ends in.
pub proof fn lemma_parse_concat(state: ParserState, first: Seq<u8>, second: Seq<u8>)
    ensures
        parse_bytes(state, first + second).state == parse_bytes(parse_bytes(state, first).state, second).state,
        parse_bytes(state, first + second).items == parse_bytes(state, first).items + parse_bytes(
            parse_bytes(state, first).state,
            second,
        ).items,
    decreases second.len(),
{
    let middle = parse_bytes(state, first).state;
    if second.len() == 0 {
        assert(first + second =~= first);
        assert(parse_bytes(state, first).items + Seq::<ItemView>::empty() =~= parse_bytes(state, first).items);
    } else {
        lemma_parse_concat(state, first, second.drop_last());
        assert((first + second).drop_last() =~= first + second.drop_last());
        assert((first + second).last() == second.last());
        let before = parse_bytes(middle, second.drop_last());
        let step = parse_byte(before.state, second.last());
        assert(parse_bytes(state, first + second).items =~= parse_bytes(state, first).items + (before.items
            + step.items));
    }
}

/// A System Real-Time byte may arrive anywhere in the stream: it is reported
/// on the spot and the messages around it parse exactly as if it were absent.
pub proof fn lemma_realtime_bytes_are_transparent(state: ParserState, before: Seq<u8>, realtime: u8, after: Seq<u8>)
    requires
        spec_realtime(realtime) is Some,
    ensures
        parse_bytes(state, before + seq![realtime] + after).state == parse_bytes(state, before + after).state,
        parse_bytes(state, before + seq![realtime] + after).items == parse_bytes(state, before).items + seq![
            ItemView::Realtime(spec_realtime(realtime)->Some_0),
        ] + parse_bytes(parse_bytes(state, before).state, after).items,
        parse_bytes(state, before + after).items == parse_bytes(state, before).items + parse_bytes(
            parse_bytes(state, before).state,
            after,
        ).items,
{
    let middle = parse_bytes(state, before).state;
    lemma_parse_concat(state, before + seq![realtime], after);
    lemma_parse_concat(state, before, seq![realtime]);
    lemma_parse_concat(state, before, after);
    assert(seq![realtime].drop_last() =~= Seq::<u8>::empty());
    assert(seq![realtime].last() == realtime);
    let empty = parse_bytes(middle, Seq::<u8>::empty());
    assert(empty.state == middle && empty.items == Seq::<ItemView>::empty());
    let step = parse_byte(middle, realtime);
    assert(step.state == middle);
    assert(step.items == seq![ItemView::Realtime(spec_realtime(realtime)->Some_0)]);
    assert(parse_bytes(middle, seq![realtime]) == prefixed(empty.items, step));
    assert(parse_bytes(middle, seq![realtime]).state == middle);
    assert(parse_bytes(middle, seq![realtime]).items =~= seq![ItemView::Realtime(spec_realtime(realtime)->Some_0)]);
}

/// The bytes of `bytes` that are not System Real-Time, in order.
pub open spec fn without_realtime(bytes: Seq<u8>) -> Seq<u8>
    decreases bytes.len(),
{
    if bytes.len() == 0 {
        Seq::empty()
    } else if spec_realtime(bytes.last()) is Some {
        without_realtime(bytes.drop_last())
    } else {
        without_realtime(bytes.drop_last()).push(bytes.last())
    }
}

/// The Real-Time messages of the System Real-Time bytes of `bytes`, in order.
pub open spec fn realtime_reports(bytes: Seq<u8>) -> Seq<ItemView>
    decreases bytes.len(),
{
    if bytes.len() == 0 {
        Seq::empty()
    } else {
        match spec_realtime(bytes.last()) {
            Some(message) => realtime_reports(bytes.drop_last()).push(ItemView::Realtime(message)),
            None => realtime_reports(bytes.drop_last()),
        }
    }
}

/// The items of `items` other than Real-Time reports, in order.
pub open spec fn other_items(items: Seq<ItemView>) -> Seq<ItemView>
    decreases items.len(),
{
    if items.len() == 0 {
        Seq::empty()
    } else if items.last() is Realtime {
        other_items(items.drop_last())
    } else {
        other_items(items.drop_last()).push(items.last())
    }
}

/// The Real-Time reports among `items`, in order.
pub open spec fn realtime_items(items: Seq<ItemView>) -> Seq<ItemView>
    decreases items.len(),
{
    if items.len() == 0 {
        Seq::empty()
    } else if items.last() is Realtime {
        realtime_items(items.drop_last()).push(items.last())
    } else {
        realtime_items(items.drop_last())
    }
}

proof fn lemma_items_concat(first: Seq<ItemView>, second: Seq<ItemView>)
    ensures
        other_items(first + second) == other_items(first) + other_items(second),
        realtime_items(first + second) == realtime_items(first) + realtime_items(second),
    decreases second.len(),
{
    if second.len() == 0 {
        assert(first + second =~= first);
        assert(other_items(first) + Seq::<ItemView>::empty() =~= other_items(first));
        assert(realtime_items(first) + Seq::<ItemView>::empty() =~= realtime_items(first));
    } else {
        lemma_items_concat(first, second.drop_last());
        assert((first + second).drop_last() =~= first + second.drop_last());
        assert((first + second).last() == second.last());
        assert(other_items(first) + other_items(second.drop_last()).push(second.last()) =~= (other_items(first)
            + other_items(second.drop_last())).push(second.last()));
        assert(realtime_items(first) + realtime_items(second.drop_last()).push(second.last()) =~= (realtime_items(
            first,
        ) + realtime_items(second.drop_last())).push(second.last()));
    }
}

proof fn lemma_no_realtime_items(items: Seq<ItemView>)
    requires
        forall|i: int| 0 <= i < items.len() ==> !(#[trigger] items[i] is Realtime),
    ensures
        other_items(items) == items,
        realtime_items(items) == Seq::<ItemView>::empty(),
    decreases items.len(),
{
    if items.len() > 0 {
        assert(forall|i: int| 0 <= i < items.drop_last().len() ==> items.drop_last()[i] == items[i]);
        lemma_no_realtime_items(items.drop_last());
        assert(!(items[items.len() - 1] is Realtime));
        assert(items.drop_last().push(items.last()) =~= items);
    }
}

proof fn lemma_step_reports_no_realtime(state: ParserState, byte: u8)
    requires
        spec_realtime(byte) is None,
    ensures
        other_items(parse_byte(state, byte).items) == parse_byte(state, byte).items,
        realtime_items(parse_byte(state, byte).items) == Seq::<ItemView>::empty(),
{
    let items = parse_byte(state, byte).items;
    assert forall|i: int| 0 <= i < items.len() implies !(#[trigger] items[i] is Realtime) by {
        match state.sysex {
            Some(collected) => if byte != 0xf7 && byte >= 0x80 {
                let rest = begin_status_spec(ParserState { sysex: None, running_status: None, ..state }, byte);
                assert(items == seq![ItemView::Malformed] + rest.items);
                if i > 0 {
                    assert(items[i] == rest.items[i - 1]);
                }
            },
            None => if byte >= 0x80 && state.pending.len() > 0 {
                let rest = begin_status_spec(ParserState { pending: Seq::empty(), pending_len: 0, ..state }, byte);
                assert(items == seq![ItemView::Malformed] + rest.items);
                if i > 0 {
                    assert(items[i] == rest.items[i - 1]);
                }
            },
        }
    }
    lemma_no_realtime_items(items);
}

/// System Real-Time bytes are transparent across a whole stream: parsing a
/// stream reports the Real-Time message of each such byte, in order, and
/// otherwise yields the same items and ends in the same state as parsing the
/// stream with every Real-Time byte removed, so running status, a pending
/// message and a SysEx being collected are never disturbed.
pub proof fn lemma_realtime_stream_is_transparent(state: ParserState, bytes: Seq<u8>)
    ensures
        parse_bytes(state, bytes).state == parse_bytes(state, without_realtime(bytes)).state,
        other_items(parse_bytes(state, bytes).items) == parse_bytes(state, without_realtime(bytes)).items,
        realtime_items(parse_bytes(state, bytes).items) == realtime_reports(bytes),
    decreases bytes.len(),
{
    if bytes.len() == 0 {
        assert(without_realtime(bytes) =~= Seq::<u8>::empty());
    } else {
        let earlier = bytes.drop_last();
        let byte = bytes.last();
        lemma_realtime_stream_is_transparent(state, earlier);
        let before = parse_bytes(state, earlier);
        let step = parse_byte(before.state, byte);
        lemma_items_concat(before.items, step.items);
        match spec_realtime(byte) {
            Some(message) => {
                assert(step.items == seq![ItemView::Realtime(message)]);
                let one = seq![ItemView::Realtime(message)];
                assert(one.drop_last() =~= Seq::<ItemView>::empty());
                assert(one.last() is Realtime);
                assert(other_items(one.drop_last()) == Seq::<ItemView>::empty());
                assert(realtime_items(one.drop_last()) == Seq::<ItemView>::empty());
                assert(Seq::<ItemView>::empty().push(one.last()) =~= one);
                assert(other_items(step.items) =~= Seq::<ItemView>::empty());
                assert(realtime_items(step.items) =~= seq![ItemView::Realtime(message)]);
                assert(other_items(before.items) + Seq::<ItemView>::empty() =~= other_items(before.items));
                assert(realtime_items(before.items) + seq![ItemView::Realtime(message)] =~= realtime_items(
                    before.items,
                ).push(ItemView::Realtime(message)));
            },
            None => {
                lemma_step_reports_no_realtime(before.state, byte);
                let kept = without_realtime(earlier);
                assert(without_realtime(bytes) == kept.push(byte));
                assert(kept.push(byte).drop_last() =~= kept);
                assert(kept.push(byte).last() == byte);
                assert(realtime_items(before.items) + Seq::<ItemView>::empty() =~= realtime_items(before.items));
            },
        }
    }
}

/// Channel-voice messages have their MIDI 1.0 lengths: from an idle parser, a
/// note off or on, poly pressure, control change or pitch bend status
/// followed by two data bytes is one three-byte message, and a program
/// change or channel pressure status followed by one data byte is one
/// two-byte message. A further pair (or single) of data bytes repeats the
/// message under running status.
pub proof fn lemma_channel_messages_have_their_lengths(status: u8, first: u8, second: u8, third: u8, fourth: u8)
    requires
        first < 0x80,
        second < 0x80,
        third < 0x80,
        fourth < 0x80,
    ensures
        (0x80 <= status <= 0xbf || 0xe0 <= status <= 0xef) ==> parse_bytes(idle_parser(), seq![status, first, second]).items
            == seq![ItemView::Message(seq![status, first, second])],
        (0x80 <= status <= 0xbf || 0xe0 <= status <= 0xef) ==> parse_bytes(
            idle_parser(),
            seq![status, first, second, third, fourth],
        ).items == seq![ItemView::Message(seq![status, first, second]), ItemView::Message(seq![status, third, fourth])],
        0xc0 <= status <= 0xdf ==> parse_bytes(idle_parser(), seq![status, first]).items == seq![
            ItemView::Message(seq![status, first]),
        ],
        0xc0 <= status <= 0xdf ==> parse_bytes(idle_parser(), seq![status, first, second]).items == seq![
            ItemView::Message(seq![status, first]),
            ItemView::Message(seq![status, second]),
        ],
{
    let idle = idle_parser();
    let one = seq![status];
    assert(one.drop_last() =~= Seq::<u8>::empty());
    let after_status = parse_bytes(idle, one);
    assert(parse_bytes(idle, Seq::<u8>::empty()).items =~= Seq::<ItemView>::empty());
    if (0x80 <= status <= 0xbf || 0xe0 <= status <= 0xef) {
        assert(after_status.state.pending =~= seq![status]);
        assert(after_status.state.pending_len == 3);
        assert(after_status.state.running_status == Some(status));
        assert(after_status.items =~= Seq::<ItemView>::empty());
        let two = seq![status, first];
        assert(two.drop_last() =~= one);
        let after_first = parse_bytes(idle, two);
        assert(after_first.state.pending =~= seq![status, first]);
        assert(after_first.items =~= Seq::<ItemView>::empty());
        let three = seq![status, first, second];
        assert(three.drop_last() =~= two);
        let after_second = parse_bytes(idle, three);
        assert(seq![status, first].push(second) =~= seq![status, first, second]);
        assert(after_second.items =~= seq![ItemView::Message(seq![status, first, second])]);
        assert(after_second.state.pending =~= Seq::<u8>::empty());
        assert(after_second.state.running_status == Some(status));
        let four = seq![status, first, second, third];
        assert(four.drop_last() =~= three);
        let after_third = parse_bytes(idle, four);
        assert(after_third.state.pending =~= seq![status, third]);
        assert(after_third.items =~= seq![ItemView::Message(seq![status, first, second])]);
        let five = seq![status, first, second, third, fourth];
        assert(five.drop_last() =~= four);
        assert(seq![status, third].push(fourth) =~= seq![status, third, fourth]);
        assert(parse_bytes(idle, five).items =~= seq![
            ItemView::Message(seq![status, first, second]),
            ItemView::Message(seq![status, third, fourth]),
        ]);
    }
    if 0xc0 <= status <= 0xdf {
        assert(after_status.state.pending =~= seq![status]);
        assert(after_status.state.pending_len == 2);
        assert(after_status.state.running_status == Some(status));
        assert(after_status.items =~= Seq::<ItemView>::empty());
        let two = seq![status, first];
        assert(two.drop_last() =~= one);
        assert(seq![status].push(first) =~= seq![status, first]);
        let after_first = parse_bytes(idle, two);
        assert(after_first.items =~= seq![ItemView::Message(seq![status, first])]);
        assert(after_first.state.pending =~= Seq::<u8>::empty());
        let three = seq![status, first, second];
        assert(three.drop_last() =~= two);
        assert(parse_bytes(idle, three).items =~= seq![
            ItemView::Message(seq![status, first]),
            ItemView::Message(seq![status, second]),
        ]);
    }
}

impl Default for MidiByteStream {
    fn default() -> (stream: MidiByteStream)
        ensures
            stream@ == idle_parser(),
            stream.inv(),
    {
        MidiByteStream::new()
    }
}

} // verus!

verus! {

/// Where the follower is in acquiring and following an external clock.
#[derive(Clone, Copy, Debug, PartialEq, Eq, Structural)]
pub enum FollowerState {
    Waiting,
    Acquiring { intervals: usize },
    Ready,
    Running,
    Stopped,
    Lost,
    Fault,
}

/// What a running clock pulse tells the transport.
#[derive(Clone, Copy, Debug, PartialEq, Eq, Structural)]
pub struct PulseUpdate {
    pub tempo: Bpm,
    /// Signed correction to the transport origin, bounded to one eighth of
    /// the filtered pulse interval for each received clock.
    pub phase_correction_nanos: i64,
}

/// What the transport must do after one input.
#[derive(Clone, Copy, Debug, PartialEq, Eq, Structural)]
pub enum FollowerAction {
    Nothing,
    Ready(Bpm),
    Start(Bpm),
    Restart(Bpm),
    Stop,
    Pulse(PulseUpdate),
    StartRefused,
    ContinueRefused,
    Lost,
    Fault,
}

/// The follower's complete state.
pub struct FollowerModel {
    pub state: FollowerState,
    pub intervals: Seq<u64>,
    pub last_received: Option<u64>,
    pub filtered_interval: Option<u64>,
    pub predicted_phase: Option<u64>,
    pub malformed: u8,
}

/// A state and the action one input produced.
pub struct FollowerStep {
    pub model: FollowerModel,
    pub action: FollowerAction,
}

pub open spec fn fresh_follower() -> FollowerModel {
    FollowerModel {
        state: FollowerState::Waiting,
        intervals: Seq::empty(),
        last_received: None,
        filtered_interval: None,
        predicted_phase: None,
        malformed: 0,
    }
}

pub open spec fn saturating_sub(a: u64, b: u64) -> u64 {
    if a >= b { (a - b) as u64 } else { 0 }
}

pub open spec fn saturating_add(a: u64, b: u64) -> u64 {
    if a + b > u64::MAX { u64::MAX } else { (a + b) as u64 }
}

/// How many of the first `n` intervals are below (or at most) `value`.
pub open spec fn count_below(intervals: Seq<u64>, value: u64, n: int, inclusive: bool) -> nat
    decreases n,
{
    if n <= 0 {
        0
    } else {
        count_below(intervals, value, n - 1, inclusive) + if intervals[n - 1] < value || (inclusive
            && intervals[n - 1] == value) {
            1nat
        } else {
            0nat
        }
    }
}

/// `value` sits in the middle of `intervals`: at most half are smaller and
/// more than half are smaller or equal.
pub open spec fn is_median(intervals: Seq<u64>, value: u64) -> bool {
    let half = intervals.len() / 2;
    &&& count_below(intervals, value, intervals.len() as int, false) <= half
    &&& half < count_below(intervals, value, intervals.len() as int, true)
}

/// The first interval, in arrival order from `from`, that is the median.
pub open spec fn median_from(intervals: Seq<u64>, from: int) -> u64
    decreases intervals.len() - from,
{
    if from < 0 || from >= intervals.len() {
        0
    } else if is_median(intervals, intervals[from]) {
        intervals[from]
    } else {
        median_from(intervals, from + 1)
    }
}

/// The median interval: the element at index `len / 2` of the sorted window.
pub open spec fn spec_median(intervals: Seq<u64>) -> u64 {
    median_from(intervals, 0)
}

/// The tempo a clock interval implies at 24 pulses per quarter note,
/// rounded to hundredths of a BPM, when it lies in 20..=300 BPM.
pub open spec fn spec_interval_tempo(interval: u64) -> Option<Bpm> {
    if interval == 0 {
        None
    } else {
        let hundredths = (6_000_000_000_000int + interval * 12) / (interval * 24);
        if MIN_BPM_HUNDREDTHS <= hundredths <= MAX_BPM_HUNDREDTHS {
            Some(Bpm { hundredths: hundredths as u16 })
        } else {
            None
        }
    }
}

/// The tempo read from a clock interval is the tempo, in hundredths of a
/// BPM, whose quarter note of 24 pulses lasts nearest to 24 such intervals:
/// it is off by at most half a hundredth, and it is known only inside
/// 20..=300 BPM.
pub proof fn lemma_interval_tempo_is_nearest(interval: u64)
    ensures
        spec_interval_tempo(interval) matches Some(tempo) ==> {
            let quarter = 24 * interval * tempo.hundredths;
            &&& interval > 0
            &&& MIN_BPM_HUNDREDTHS <= tempo.hundredths <= MAX_BPM_HUNDREDTHS
            &&& quarter - 6_000_000_000_000int <= 12 * interval
            &&& 6_000_000_000_000int - quarter <= 12 * interval
        },
{
    if interval > 0 {
        let numerator = 6_000_000_000_000int + interval * 12;
        let denominator = interval * 24;
        let h = numerator / denominator;
        vstd::arithmetic::div_mod::lemma_fundamental_div_mod(numerator, denominator);
        vstd::arithmetic::div_mod::lemma_mod_bound(numerator, denominator);
        assert(24 * interval * h == denominator * h) by (nonlinear_arith)
            requires
                denominator == interval * 24,
        ;
    }
}

/// One filter step: an eighth of the way toward the measured median, moving
/// at most 2% of the current interval, rounded to whole nanoseconds.
pub open spec fn spec_smooth_interval(current: u64, measured: u64) -> u64 {
    let target = 50 * (7 * current + measured);
    let low = 392 * current;
    let high = 408 * current;
    let bounded = if target < low { low } else if target > high { high } else { target };
    let rounded = (bounded + 200) / 400;
    if rounded < 1 { 1 } else { rounded as u64 }
}

pub open spec fn model_tempo(model: FollowerModel) -> Option<Bpm> {
    match model.filtered_interval {
        Some(interval) => spec_interval_tempo(interval),
        None => None,
    }
}

pub open spec fn tempo_or_default(model: FollowerModel) -> Bpm {
    match model_tempo(model) {
        Some(tempo) => tempo,
        None => Bpm { hundredths: 12000 },
    }
}

/// `actual - predicted` in nanoseconds, saturated to the `i64` range.
pub open spec fn spec_signed_duration(actual: u64, predicted: u64) -> i64 {
    if actual >= predicted {
        if actual - predicted > i64::MAX { i64::MAX } else { (actual - predicted) as i64 }
    } else {
        if predicted - actual > i64::MAX { -i64::MAX as i64 } else { -(predicted - actual) as i64 }
    }
}

/// A time stamp moved by a signed number of nanoseconds; moves before zero
/// leave it unchanged and moves past the end of time saturate.
pub open spec fn spec_shift_instant(value: u64, nanos: i64) -> u64 {
    if nanos >= 0 {
        saturating_add(value, nanos as u64)
    } else if value >= -nanos {
        (value + nanos) as u64
    } else {
        value
    }
}

pub open spec fn clamp_i64(value: i64, low: i64, high: i64) -> i64 {
    if value < low { low } else if value > high { high } else { value }
}

/// A clock while running: advance the predicted phase one filtered interval
/// and pull it toward the received clock by at most an eighth of an interval.
pub open spec fn spec_running_pulse(model: FollowerModel, received: u64) -> FollowerStep {
    if model.state != FollowerState::Running {
        FollowerStep { model, action: FollowerAction::Nothing }
    } else {
        match model.filtered_interval {
            None => FollowerStep { model, action: FollowerAction::Nothing },
            Some(interval) => {
                let predicted = match model.predicted_phase {
                    Some(phase) => saturating_add(phase, interval),
                    None => received,
                };
                let limit = (interval / 8) as i64;
                let correction = clamp_i64(spec_signed_duration(received, predicted), -limit as i64, limit);
                FollowerStep {
                    model: FollowerModel { predicted_phase: Some(spec_shift_instant(predicted, correction)), ..model },
                    action: FollowerAction::Pulse(
                        PulseUpdate { tempo: tempo_or_default(model), phase_correction_nanos: correction },
                    ),
                }
            },
        }
    }
}

/// A malformed clock: six in a row clear the tempo and fault the follower.
pub open spec fn spec_malformed(model: FollowerModel) -> FollowerStep {
    let count: u8 = if model.malformed == 255 { 255 } else { (model.malformed + 1) as u8 };
    if count < MAX_CONSECUTIVE_MALFORMED {
        FollowerStep { model: FollowerModel { malformed: count, ..model }, action: FollowerAction::Nothing }
    } else {
        FollowerStep {
            model: FollowerModel {
                malformed: count,
                intervals: Seq::empty(),
                filtered_interval: None,
                predicted_phase: None,
                state: FollowerState::Fault,
                ..model
            },
            action: if model.state == FollowerState::Running || count == MAX_CONSECUTIVE_MALFORMED {
                FollowerAction::Fault
            } else {
                FollowerAction::Nothing
            },
        }
    }
}

/// The filter window after one accepted interval: the oldest leaves once 24 are held.
pub open spec fn window_after(intervals: Seq<u64>, interval: u64) -> Seq<u64> {
    if intervals.len() == FILTER_INTERVALS {
        intervals.drop_first().push(interval)
    } else {
        intervals.push(interval)
    }
}

/// One timing clock.
pub open spec fn spec_clock(model: FollowerModel, received: u64) -> FollowerStep {
    let stamped = FollowerModel { last_received: Some(received), ..model };
    match model.last_received {
        None => FollowerStep {
            model: if model.state != FollowerState::Running {
                FollowerModel { state: FollowerState::Acquiring { intervals: 0 }, ..stamped }
            } else {
                stamped
            },
            action: FollowerAction::Nothing,
        },
        Some(previous) => {
            let interval = saturating_sub(received, previous);
            if interval <= BURST_WINDOW_NANOS {
                spec_running_pulse(FollowerModel { malformed: 0, ..stamped }, received)
            } else if interval < MIN_INTERVAL_NANOS || interval > MAX_INTERVAL_NANOS {
                spec_malformed(stamped)
            } else {
                let window = window_after(model.intervals, interval);
                let median = spec_median(window);
                let accepted = FollowerModel { malformed: 0, intervals: window, ..stamped };
                match spec_interval_tempo(median) {
                    None => spec_malformed(accepted),
                    Some(measured) => {
                        let filtered = FollowerModel {
                            filtered_interval: Some(
                                match model.filtered_interval {
                                    None => median,
                                    Some(current) => spec_smooth_interval(current, median),
                                },
                            ),
                            ..accepted
                        };
                        if window.len() < ACQUISITION_INTERVALS {
                            spec_running_pulse(
                                if filtered.state != FollowerState::Running {
                                    FollowerModel {
                                        state: FollowerState::Acquiring { intervals: window.len() as usize },
                                        ..filtered
                                    }
                                } else {
                                    filtered
                                },
                                received,
                            )
                        } else if filtered.state != FollowerState::Running {
                            let was_ready = filtered.state == FollowerState::Ready || filtered.state
                                == FollowerState::Stopped;
                            let ready = FollowerModel { state: FollowerState::Ready, ..filtered };
                            if !was_ready {
                                FollowerStep { model: ready, action: FollowerAction::Ready(measured) }
                            } else {
                                spec_running_pulse(ready, received)
                            }
                        } else {
                            spec_running_pulse(filtered, received)
                        }
                    },
                }
            }
        },
    }
}

/// A Start message: honoured only with a fresh clock and a known tempo.
pub open spec fn spec_start(model: FollowerModel, received: u64) -> FollowerStep {
    let stale = match model.last_received {
        None => true,
        Some(last) => saturating_sub(received, last) > CLOCK_LOSS_TIMEOUT_NANOS,
    };
    if stale || model.filtered_interval is None {
        FollowerStep {
            model: FollowerModel { state: FollowerState::Waiting, predicted_phase: None, ..model },
            action: FollowerAction::StartRefused,
        }
    } else {
        let running = FollowerModel {
            state: FollowerState::Running,
            predicted_phase: Some(received),
            malformed: 0,
            ..model
        };
        FollowerStep {
            model: running,
            action: if model.state == FollowerState::Running {
                FollowerAction::Restart(tempo_or_default(running))
            } else {
                FollowerAction::Start(tempo_or_default(running))
            },
        }
    }
}

/// One Real-Time message.
pub open spec fn spec_receive(model: FollowerModel, message: RealtimeMessage, received: u64) -> FollowerStep {
    match message {
        RealtimeMessage::TimingClock => spec_clock(model, received),
        RealtimeMessage::Start => spec_start(model, received),
        RealtimeMessage::Stop => FollowerStep {
            model: FollowerModel { state: FollowerState::Stopped, predicted_phase: None, ..model },
            action: if model.state == FollowerState::Running {
                FollowerAction::Stop
            } else {
                FollowerAction::Nothing
            },
        },
        RealtimeMessage::Continue => FollowerStep { model, action: FollowerAction::ContinueRefused },
        _ => FollowerStep { model, action: FollowerAction::Nothing },
    }
}

/// No clock for more than 500 ms clears the tempo; a running transport is lost.
pub open spec fn spec_check_timeout(model: FollowerModel, now: u64) -> FollowerStep {
    match model.last_received {
        None => FollowerStep { model, action: FollowerAction::Nothing },
        Some(last) => if saturating_sub(now, last) <= CLOCK_LOSS_TIMEOUT_NANOS {
            FollowerStep { model, action: FollowerAction::Nothing }
        } else {
            FollowerStep {
                model: FollowerModel {
                    last_received: None,
                    intervals: Seq::empty(),
                    filtered_interval: None,
                    predicted_phase: None,
                    state: if model.state == FollowerState::Running {
                        FollowerState::Lost
                    } else if model.state == FollowerState::Stopped {
                        FollowerState::Stopped
                    } else {
                        FollowerState::Waiting
                    },
                    ..model
                },
                action: if model.state == FollowerState::Running {
                    FollowerAction::Lost
                } else {
                    FollowerAction::Nothing
                },
            }
        },
    }
}

/// Follows an external MIDI clock: acquires its tempo from a median-filtered
/// window of intervals and keeps a bounded phase prediction while running.
#[derive(Clone, Debug)]
pub struct ExternalClockFollower {
    state: FollowerState,
    intervals: Vec<u64>,
    last_received: Option<u64>,
    filtered_interval: Option<u64>,
    predicted_phase: Option<u64>,
    malformed: u8,
}

impl View for ExternalClockFollower {
    type V = FollowerModel;

    closed spec fn view(&self) -> FollowerModel {
        FollowerModel {
            state: self.state,
            intervals: self.intervals@,
            last_received: self.last_received,
            filtered_interval: self.filtered_interval,
            predicted_phase: self.predicted_phase,
            malformed: self.malformed,
        }
    }
}

/// The window holds at most 24 accepted intervals and the filtered interval
/// stays inside the accepted range.
pub open spec fn follower_bounded(model: FollowerModel) -> bool {
    &&& model.intervals.len() <= FILTER_INTERVALS
    &&& forall|i: int|
        0 <= i < model.intervals.len() ==> MIN_INTERVAL_NANOS <= #[trigger] model.intervals[i] <= MAX_INTERVAL_NANOS
    &&& model.filtered_interval matches Some(f) ==> 1 <= f <= MAX_INTERVAL_NANOS
}

fn interval_tempo(interval: u64) -> (tempo: Option<Bpm>)
    requires
        interval <= MAX_INTERVAL_NANOS,
    ensures
        tempo == spec_interval_tempo(interval),
{
    if interval == 0 {
        return None;
    }
    let hundredths = (6_000_000_000_000u64 + interval * 12) / (interval * 24);
    if MIN_BPM_HUNDREDTHS as u64 <= hundredths && hundredths <= MAX_BPM_HUNDREDTHS as u64 {
        Some(Bpm { hundredths: hundredths as u16 })
    } else {
        None
    }
}

fn smooth_interval(current: u64, measured: u64) -> (smoothed: u64)
    requires
        1 <= current <= MAX_INTERVAL_NANOS,
        MIN_INTERVAL_NANOS <= measured <= MAX_INTERVAL_NANOS,
    ensures
        smoothed == spec_smooth_interval(current, measured),
        1 <= smoothed <= MAX_INTERVAL_NANOS,
{
    let target = 50 * (7 * current + measured);
    let low = 392 * current;
    let high = 408 * current;
    let bounded = if target < low { low } else if target > high { high } else { target };
    let rounded = (bounded + 200) / 400;
    proof {
        let top: int = if current > measured { current as int } else { measured as int };
        assert(bounded <= 400 * top);
        assert((bounded + 200) / 400 <= top);
    }
    if rounded < 1 { 1 } else { rounded }
}

fn signed_duration_nanos(actual: u64, predicted: u64) -> (difference: i64)
    ensures
        difference == spec_signed_duration(actual, predicted),
{
    if actual >= predicted {
        let d = actual - predicted;
        if d > i64::MAX as u64 { i64::MAX } else { d as i64 }
    } else {
        let d = predicted - actual;
        if d > i64::MAX as u64 { -i64::MAX } else { -(d as i64) }
    }
}

/// A time stamp moved by a signed number of nanoseconds.
pub fn shift_instant(value: u64, nanos: i64) -> (shifted: u64)
    ensures
        shifted == spec_shift_instant(value, nanos),
{
    if nanos >= 0 {
        value.saturating_add(nanos as u64)
    } else {
        let back = (-(nanos as i128)) as u64;
        if value >= back { value - back } else { value }
    }
}

fn count_smaller(intervals: &Vec<u64>, value: u64, inclusive: bool) -> (count: usize)
    requires
        intervals@.len() <= FILTER_INTERVALS,
    ensures
        count == count_below(intervals@, value, intervals@.len() as int, inclusive),
        count <= intervals@.len(),
{
    let mut count: usize = 0;
    let mut i: usize = 0;
    while i < intervals.len()
        invariant
            i <= intervals@.len() <= FILTER_INTERVALS,
            count <= i,
            count == count_below(intervals@, value, i as int, inclusive),
        decreases intervals@.len() - i,
    {
        if intervals[i] < value || (inclusive && intervals[i] == value) {
            count += 1;
        }
        i += 1;
    }
    count
}

fn median_interval(intervals: &Vec<u64>) -> (median: u64)
    requires
        intervals@.len() <= FILTER_INTERVALS,
    ensures
        median == spec_median(intervals@),
{
    let half = intervals.len() / 2;
    let mut i: usize = 0;
    while i < intervals.len()
        invariant
            i <= intervals@.len() <= FILTER_INTERVALS,
            half == intervals@.len() / 2,
            spec_median(intervals@) == median_from(intervals@, i as int),
        decreases intervals@.len() - i,
    {
        let value = intervals[i];
        let below = count_smaller(intervals, value, false);
        let at_most = count_smaller(intervals, value, true);
        if below <= half && half < at_most {
            return value;
        }
        i += 1;
    }
    0
}

impl ExternalClockFollower {
    pub closed spec fn inv(&self) -> bool {
        follower_bounded(self@)
    }

    pub fn new() -> (follower: ExternalClockFollower)
        ensures
            follower@ == fresh_follower(),
            follower.inv(),
    {
        ExternalClockFollower {
            state: FollowerState::Waiting,
            intervals: Vec::new(),
            last_received: None,
            filtered_interval: None,
            predicted_phase: None,
            malformed: 0,
        }
    }

    pub fn state(&self) -> (state: FollowerState)
        ensures
            state == self@.state,
    {
        self.state
    }

    /// The filtered interval in nanoseconds, once one is known.
    pub fn filtered_interval(&self) -> (interval: Option<u64>)
        ensures
            interval == self@.filtered_interval,
    {
        self.filtered_interval
    }

    /// The time stamp the next clock is expected at, while running.
    pub fn predicted_phase(&self) -> (phase: Option<u64>)
        ensures
            phase == self@.predicted_phase,
    {
        self.predicted_phase
    }

    pub fn tempo(&self) -> (tempo: Option<Bpm>)
        requires
            self.inv(),
        ensures
            tempo == model_tempo(self@),
    {
        match self.filtered_interval {
            Some(interval) => interval_tempo(interval),
            None => None,
        }
    }

    fn tempo_or_default(&self) -> (tempo: Bpm)
        requires
            self.inv(),
        ensures
            tempo == tempo_or_default(self@),
    {
        match self.tempo() {
            Some(tempo) => tempo,
            None => Bpm::default_tempo(),
        }
    }

    /// Forget everything about the source.
    pub fn reset_source(&mut self)
        ensures
            final(self)@ == fresh_follower(),
            final(self).inv(),
    {
        *self = ExternalClockFollower::new();
    }

    /// The local transport stopped: no phase is predicted until a new Start.
    pub fn local_stop(&mut self)
        requires
            old(self).inv(),
        ensures
            final(self)@ == (FollowerModel { state: FollowerState::Stopped, predicted_phase: None, ..old(self)@ }),
            final(self).inv(),
    {
        self.state = FollowerState::Stopped;
        self.predicted_phase = None;
    }

    pub fn receive(&mut self, message: RealtimeMessage, received: u64) -> (action: FollowerAction)
        requires
            old(self).inv(),
        ensures
            final(self).inv(),
            (FollowerStep { model: final(self)@, action }) == spec_receive(old(self)@, message, received),
    {
        match message {
            RealtimeMessage::TimingClock => self.clock(received),
            RealtimeMessage::Start => self.start(received),
            RealtimeMessage::Stop => {
                let was_running = self.state == FollowerState::Running;
                self.state = FollowerState::Stopped;
                self.predicted_phase = None;
                if was_running {
                    FollowerAction::Stop
                } else {
                    FollowerAction::Nothing
                }
            },
            RealtimeMessage::Continue => FollowerAction::ContinueRefused,
            _ => FollowerAction::Nothing,
        }
    }

    pub fn malformed(&mut self) -> (action: FollowerAction)
        requires
            old(self).inv(),
        ensures
            final(self).inv(),
            (FollowerStep { model: final(self)@, action }) == spec_malformed(old(self)@),
    {
        self.malformed = self.malformed.saturating_add(1);
        if self.malformed < MAX_CONSECUTIVE_MALFORMED {
            return FollowerAction::Nothing;
        }
        let was_running = self.state == FollowerState::Running;
        self.intervals = Vec::new();
        self.filtered_interval = None;
        self.predicted_phase = None;
        self.state = FollowerState::Fault;
        if was_running || self.malformed == MAX_CONSECUTIVE_MALFORMED {
            FollowerAction::Fault
        } else {
            FollowerAction::Nothing
        }
    }

    pub fn check_timeout(&mut self, now: u64) -> (action: FollowerAction)
        requires
            old(self).inv(),
        ensures
            final(self).inv(),
            (FollowerStep { model: final(self)@, action }) == spec_check_timeout(old(self)@, now),
    {
        let last = match self.last_received {
            Some(last) => last,
            None => {
                return FollowerAction::Nothing;
            },
        };
        if now.saturating_sub(last) <= CLOCK_LOSS_TIMEOUT_NANOS {
            return FollowerAction::Nothing;
        }
        self.last_received = None;
        self.intervals = Vec::new();
        self.filtered_interval = None;
        self.predicted_phase = None;
        let was_running = self.state == FollowerState::Running;
        let was_stopped = self.state == FollowerState::Stopped;
        self.state = if was_running {
            FollowerState::Lost
        } else if was_stopped {
            FollowerState::Stopped
        } else {
            FollowerState::Waiting
        };
        if was_running {
            FollowerAction::Lost
        } else {
            FollowerAction::Nothing
        }
    }

    fn start(&mut self, received: u64) -> (action: FollowerAction)
        requires
            old(self).inv(),
        ensures
            final(self).inv(),
            (FollowerStep { model: final(self)@, action }) == spec_start(old(self)@, received),
    {
        let stale = match self.last_received {
            None => true,
            Some(last) => received.saturating_sub(last) > CLOCK_LOSS_TIMEOUT_NANOS,
        };
        let unknown = match self.filtered_interval {
            None => true,
            Some(_) => false,
        };
        if stale || unknown {
            self.state = FollowerState::Waiting;
            self.predicted_phase = None;
            return FollowerAction::StartRefused;
        }
        let restart = self.state == FollowerState::Running;
        self.state = FollowerState::Running;
        self.predicted_phase = Some(received);
        self.malformed = 0;
        let tempo = self.tempo_or_default();
        if restart {
            FollowerAction::Restart(tempo)
        } else {
            FollowerAction::Start(tempo)
        }
    }

    fn running_pulse(&mut self, received: u64) -> (action: FollowerAction)
        requires
            old(self).inv(),
        ensures
            final(self).inv(),
            (FollowerStep { model: final(self)@, action }) == spec_running_pulse(old(self)@, received),
    {
        if self.state != FollowerState::Running {
            return FollowerAction::Nothing;
        }
        let interval = match self.filtered_interval {
            Some(interval) => interval,
            None => {
                return FollowerAction::Nothing;
            },
        };
        let predicted = match self.predicted_phase {
            Some(phase) => phase.saturating_add(interval),
            None => received,
        };
        let error = signed_duration_nanos(received, predicted);
        let limit = (interval / 8) as i64;
        let correction = if error < -limit { -limit } else if error > limit { limit } else { error };
        let tempo = self.tempo_or_default();
        self.predicted_phase = Some(shift_instant(predicted, correction));
        FollowerAction::Pulse(PulseUpdate { tempo, phase_correction_nanos: correction })
    }

    fn clock(&mut self, received: u64) -> (action: FollowerAction)
        requires
            old(self).inv(),
        ensures
            final(self).inv(),
            (FollowerStep { model: final(self)@, action }) == spec_clock(old(self)@, received),
    {
        let previous = self.last_received;
        self.last_received = Some(received);
        let previous = match previous {
            Some(previous) => previous,
            None => {
                if self.state != FollowerState::Running {
                    self.state = FollowerState::Acquiring { intervals: 0 };
                }
                return FollowerAction::Nothing;
            },
        };
        let interval = received.saturating_sub(previous);
        if interval <= BURST_WINDOW_NANOS {
            self.malformed = 0;
            return self.running_pulse(received);
        }
        if interval < MIN_INTERVAL_NANOS || interval > MAX_INTERVAL_NANOS {
            return self.malformed();
        }
        self.malformed = 0;
        let ghost window = window_after(old(self)@.intervals, interval);
        if self.intervals.len() == FILTER_INTERVALS {
            self.intervals.remove(0);
        }
        self.intervals.push(interval);
        assert(self.intervals@ =~= window);
        let median = median_interval(&self.intervals);
        proof {
            lemma_median_in_window(self.intervals@);
        }
        let measured = match interval_tempo(median) {
            Some(tempo) => tempo,
            None => {
                return self.malformed();
            },
        };
        self.filtered_interval = Some(
            match self.filtered_interval {
                None => median,
                Some(current) => smooth_interval(current, median),
            },
        );
        if self.intervals.len() < ACQUISITION_INTERVALS {
            if self.state != FollowerState::Running {
                self.state = FollowerState::Acquiring { intervals: self.intervals.len() };
            }
            return self.running_pulse(received);
        }
        if self.state != FollowerState::Running {
            let was_ready = self.state == FollowerState::Ready || self.state == FollowerState::Stopped;
            self.state = FollowerState::Ready;
            if !was_ready {
                return FollowerAction::Ready(measured);
            }
        }
        self.running_pulse(received)
    }
}

/// The median of a non-empty window is one of its intervals (or 0 when empty).
proof fn lemma_median_from_member(intervals: Seq<u64>, from: int)
    requires
        0 <= from,
    ensures
        median_from(intervals, from) == 0 || exists|i: int| 0 <= i < intervals.len() && intervals[i] == median_from(intervals, from),
    decreases intervals.len() - from,
{
    if from < intervals.len() && !is_median(intervals, intervals[from]) {
        lemma_median_from_member(intervals, from + 1);
    }
}

proof fn lemma_median_in_window(intervals: Seq<u64>)
    requires
        forall|i: int| 0 <= i < intervals.len() ==> MIN_INTERVAL_NANOS <= #[trigger] intervals[i] <= MAX_INTERVAL_NANOS,
    ensures
        spec_median(intervals) <= MAX_INTERVAL_NANOS,
        spec_median(intervals) == 0 || spec_median(intervals) >= MIN_INTERVAL_NANOS,
{
    lemma_median_from_member(intervals, 0);
}

impl Default for ExternalClockFollower {
    fn default() -> (follower: ExternalClockFollower)
        ensures
            follower@ == fresh_follower(),
            follower.inv(),
    {
        ExternalClockFollower::new()
    }
}

/// The interval filter never overshoots: one step moves the filtered
/// interval toward the measured one without passing it, and a steady clock
/// is a fixed point, so a constant clock cannot make the estimate drift.
pub proof fn lemma_filter_moves_toward_the_measurement(current: u64, measured: u64)
    requires
        1 <= current,
        1 <= measured,
    ensures
        spec_smooth_interval(measured, measured) == measured,
        current <= measured ==> current <= spec_smooth_interval(current, measured) <= measured,
        measured <= current ==> measured <= spec_smooth_interval(current, measured) <= current,
{
    let target = 50 * (7 * current + measured);
    let low = 392 * current;
    let high = 408 * current;
    let bounded = if target < low { low } else if target > high { high } else { target };
    assert((400 * measured + 200) / 400 == measured) by (nonlinear_arith)
        requires
            measured >= 1,
    ;
    if current <= measured {
        assert(400 * current <= bounded <= 400 * measured);
        assert(current <= (bounded + 200) / 400 <= measured) by (nonlinear_arith)
            requires
                400 * current <= bounded <= 400 * measured,
        ;
    }
    if measured <= current {
        assert(400 * measured <= bounded <= 400 * current);
        assert(measured <= (bounded + 200) / 400 <= current) by (nonlinear_arith)
            requires
                400 * measured <= bounded <= 400 * current,
        ;
    }
}

/// Every running pulse pulls the transport by at most an eighth of the
/// filtered clock interval, whatever clock arrives.
pub proof fn lemma_phase_correction_is_bounded(model: FollowerModel, message: RealtimeMessage, received: u64)
    requires
        model.filtered_interval matches Some(f) ==> f <= MAX_INTERVAL_NANOS,
    ensures
        spec_receive(model, message, received).action matches FollowerAction::Pulse(update) ==> (
        spec_receive(model, message, received).model.filtered_interval matches Some(f) && -(f / 8) <= update.phase_correction_nanos <= f / 8),
{
    lemma_running_pulse_is_bounded(model, received);
    lemma_running_pulse_is_bounded(FollowerModel { last_received: Some(received), malformed: 0, ..model }, received);
    if let Some(previous) = model.last_received {
        let interval = saturating_sub(received, previous);
        let window = window_after(model.intervals, interval);
        let median = spec_median(window);
        let stamped = FollowerModel { last_received: Some(received), ..model };
        let accepted = FollowerModel { malformed: 0, intervals: window, ..stamped };
        let smoothed = match model.filtered_interval {
            None => median,
            Some(current) => spec_smooth_interval(current, median),
        };
        let filtered = FollowerModel { filtered_interval: Some(smoothed), ..accepted };
        lemma_running_pulse_is_bounded(filtered, received);
        lemma_running_pulse_is_bounded(
            FollowerModel { state: FollowerState::Acquiring { intervals: window.len() as usize }, ..filtered },
            received,
        );
        lemma_running_pulse_is_bounded(FollowerModel { state: FollowerState::Ready, ..filtered }, received);
    }
}

proof fn lemma_running_pulse_is_bounded(model: FollowerModel, received: u64)
    ensures
        spec_running_pulse(model, received).action matches FollowerAction::Pulse(update) ==> (
        spec_running_pulse(model, received).model.filtered_interval matches Some(f) && (model.filtered_interval
            matches Some(g) && g <= MAX_INTERVAL_NANOS ==> -(f / 8) <= update.phase_correction_nanos <= f / 8)),
{
}

/// What a running pulse does to a transport whose phase is `phase`: with
/// `predicted` one filtered interval later, the correction has the sign of
/// `received - predicted`, its size is that error's capped at an eighth of
/// the interval, and the new predicted phase is `predicted` moved by it.
pub open spec fn pulse_follows_the_clock(
    phase: u64,
    interval: u64,
    received: u64,
    correction: i64,
    new_phase: Option<u64>,
) -> bool {
    let predicted = phase + interval;
    let error = received - predicted;

    let magnitude = if error >= 0 { error } else { -error };
    let size = if correction >= 0 { correction as int } else { -correction };
    let cap = (interval / 8) as int;
    &&& correction > 0 ==> error > 0
    &&& correction < 0 ==> error < 0
    &&& size == (if magnitude < cap { magnitude } else { cap })
    &&& new_phase == Some((predicted + correction) as u64)
}

proof fn lemma_running_pulse_follows(model: FollowerModel, received: u64)
    requires
        model.predicted_phase is Some,
    ensures
        spec_running_pulse(model, received).model.filtered_interval == model.filtered_interval,
        spec_running_pulse(model, received).action matches FollowerAction::Pulse(update) ==> model.filtered_interval is Some
            && (model.predicted_phase->Some_0 + model.filtered_interval->Some_0 <= u64::MAX ==> pulse_follows_the_clock(
            model.predicted_phase->Some_0,
            model.filtered_interval->Some_0,
            received,
            update.phase_correction_nanos,
            spec_running_pulse(model, received).model.predicted_phase,
        )),
{
}

/// A running pulse pulls the transport toward the clock, never away: the
/// published correction has the sign of the clock's lateness against the
/// predicted phase (one filtered interval after the last one), it is that
/// lateness capped at an eighth of the interval, and the new predicted
/// phase is the old prediction moved by exactly the published correction.
pub proof fn lemma_pulse_follows_the_clock(model: FollowerModel, message: RealtimeMessage, received: u64)
    requires
        model.predicted_phase is Some,
    ensures
        spec_receive(model, message, received).action matches FollowerAction::Pulse(update) ==> (spec_receive(
            model,
            message,
            received,
        ).model.filtered_interval matches Some(f) && (model.predicted_phase->Some_0 + f <= u64::MAX ==> pulse_follows_the_clock(
            model.predicted_phase->Some_0,
            f,
            received,
            update.phase_correction_nanos,
            spec_receive(model, message, received).model.predicted_phase,
        ))),
{
    lemma_running_pulse_follows(model, received);
    if model.filtered_interval is Some {
        lemma_running_pulse_follows(FollowerModel { last_received: Some(received), malformed: 0, ..model }, received);
    }
    if let Some(previous) = model.last_received {
        let interval = saturating_sub(received, previous);
        if MIN_INTERVAL_NANOS <= interval <= MAX_INTERVAL_NANOS {
            let window = window_after(model.intervals, interval);
            let median = spec_median(window);
            let stamped = FollowerModel { last_received: Some(received), ..model };
            let accepted = FollowerModel { malformed: 0, intervals: window, ..stamped };
            let smoothed = match model.filtered_interval {
                None => median,
                Some(current) => spec_smooth_interval(current, median),
            };
            if spec_interval_tempo(median) is Some {
                let filtered = FollowerModel { filtered_interval: Some(smoothed), ..accepted };
                lemma_running_pulse_follows(filtered, received);
                lemma_running_pulse_follows(
                    FollowerModel { state: FollowerState::Acquiring { intervals: window.len() as usize }, ..filtered },
                    received,
                );
                lemma_running_pulse_follows(FollowerModel { state: FollowerState::Ready, ..filtered }, received);
            }
        }
    }
}

/// Whether a tempo is known from a clock heard within the loss timeout.
pub open spec fn live_tempo(model: FollowerModel, received: u64) -> bool {
    &&& model.filtered_interval is Some
    &&& model.last_received matches Some(last) && saturating_sub(received, last) <= CLOCK_LOSS_TIMEOUT_NANOS
}

/// Whether the transport is told to start (or restart).
pub open spec fn starts_transport(action: FollowerAction) -> bool {
    action matches FollowerAction::Start(_) || action matches FollowerAction::Restart(_)
}

/// A Start is answered only while a tempo is known from a clock heard within
/// the loss timeout; otherwise it is refused and the follower waits.
pub proof fn lemma_start_needs_a_live_tempo(model: FollowerModel, received: u64)
    ensures
        starts_transport(spec_start(model, received).action) <==> live_tempo(model, received),
        spec_start(model, received).action == FollowerAction::StartRefused ==> spec_start(model, received).model.state
            == FollowerState::Waiting,
{
}

/// After the clock is lost, every Start is refused until clocks arrive again.
pub proof fn lemma_loss_requires_a_fresh_start(model: FollowerModel, now: u64, later: u64)
    requires
        model.last_received matches Some(last) && saturating_sub(now, last) > CLOCK_LOSS_TIMEOUT_NANOS,
    ensures
        model.state == FollowerState::Running ==> spec_check_timeout(model, now).action == FollowerAction::Lost,
        spec_start(spec_check_timeout(model, now).model, later).action == FollowerAction::StartRefused,
{
}

/// Continue is never followed: the follower refuses it and keeps its state.
pub proof fn lemma_continue_is_refused(model: FollowerModel, received: u64)
    ensures
        spec_receive(model, RealtimeMessage::Continue, received) == (FollowerStep {
            model,
            action: FollowerAction::ContinueRefused,
        }),
{
}

/// The follower after `n` malformed clocks in a row, and the last answer.
pub open spec fn malformed_run(model: FollowerModel, n: nat) -> FollowerStep
    decreases n,
{
    if n == 0 {
        FollowerStep { model, action: FollowerAction::Nothing }
    } else {
        spec_malformed(malformed_run(model, (n - 1) as nat).model)
    }
}

/// Six malformed clocks in a row, and no fewer, fault the follower: the
/// sixth is reported and the tempo is cleared.
pub proof fn lemma_six_malformed_clocks_fault(model: FollowerModel)
    requires
        model.malformed == 0,
    ensures
        forall|n: nat|
            1 <= n < MAX_CONSECUTIVE_MALFORMED ==> #[trigger] malformed_run(model, n).action == FollowerAction::Nothing
                && malformed_run(model, n).model.state == model.state,
        malformed_run(model, 6).action == FollowerAction::Fault,
        malformed_run(model, 6).model.state == FollowerState::Fault,
        malformed_run(model, 6).model.filtered_interval is None,
        malformed_run(model, 6).model.intervals.len() == 0,
{
    reveal_with_fuel(malformed_run, 7);
    assert(malformed_run(model, 1).model.malformed == 1);
    assert(malformed_run(model, 2).model.malformed == 2);
    assert(malformed_run(model, 3).model.malformed == 3);
    assert(malformed_run(model, 4).model.malformed == 4);
    assert(malformed_run(model, 5).model.malformed == 5);
    assert forall|n: nat|
        1 <= n < MAX_CONSECUTIVE_MALFORMED implies #[trigger] malformed_run(model, n).action == FollowerAction::Nothing
            && malformed_run(model, n).model.state == model.state by {
        if n == 1 {
        } else if n == 2 {
        } else if n == 3 {
        } else if n == 4 {
        } else {
            assert(n == 5);
        }
    }
}

} // verus!
