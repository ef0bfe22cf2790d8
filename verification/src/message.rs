//! The message router.
//!
//! The router owns the read half of the connection (through its unverified
//! driver), decodes each inbound frame, and says what must happen to it:
//! spawn a request handler under a concurrency permit, fulfil a pending
//! call, hand an event or a media chunk to its handler, drop a malformed
//! frame, or end the loop.  The permit counter is the concurrency ceiling:
//! no operation can push the number of in-flight request handlers above it.
use vstd::prelude::*;

use crate::data::{dec_message, dec_stream, enc_message, enc_stream_fields, lemma_codec_round_trip,
    lemma_enc_message_wf, lemma_enc_stream_wf, lemma_stream_round_trip, AppMessage, AppMessageV,
    Request, Response, Event, Stream, StreamV};
use crate::json::{json_from_text, json_text, wf_doc, JsonVal};

verus! {

/// The concurrency ceiling on simultaneous inbound-request handlers.
pub const REQUEST_CEILING: u32 = 32;

/// What the router decides to do with one frame.
#[derive(Debug, PartialEq)]
pub enum DispatchAction {
    /// Spawn a handler for this inbound request once a permit is held.
    HandleRequest(Request),
    /// Fulfil the pending call with this response, inline.
    HandleResponse(Response),
    /// Hand this event to the installed event handler, inline.
    HandleEvent(Event),
    /// Hand this media chunk to the installed stream handler, inline.
    HandleStream(Stream),
    /// Malformed or unroutable frame: drop it, the connection survives.
    DropFrame,
    /// Clean close: end the read loop successfully.
    EndLoop,
}

/// The router's bookkeeping: whether a connection is installed, and how
/// many request handlers hold a permit.
pub struct MessageManager {
    /// Whether the read/write halves of a connection are installed.
    pub connected: bool,
    /// How many spawned request handlers currently hold a permit.
    pub in_use: u32,
    /// The permit ceiling; fixed at construction.
    pub ceiling: u32,
}

impl MessageManager {
    /// The permit count never exceeds the ceiling.
    pub open spec fn wf(self) -> bool {
        self.in_use <= self.ceiling
    }

    /// A fresh router with the fixed request ceiling and no connection.
    pub fn new() -> (m: Self)
        ensures
            m.wf(),
            !m.connected,
            m.in_use == 0,
            m.ceiling == REQUEST_CEILING,
    {
        MessageManager { connected: false, in_use: 0, ceiling: REQUEST_CEILING }
    }

    /// Installs a connection's halves.
    pub fn init(&mut self)
        requires
            old(self).wf(),
        ensures
            final(self).wf(),
            final(self).connected,
            final(self).in_use == old(self).in_use,
            final(self).ceiling == old(self).ceiling,
    {
        self.connected = true;
    }

    /// Drops the connection's halves.  Permits are not reclaimed here: each
    /// spawned handler releases its own when it ends or is cancelled.
    pub fn dispose(&mut self)
        requires
            old(self).wf(),
        ensures
            final(self).wf(),
            !final(self).connected,
            final(self).in_use == old(self).in_use,
            final(self).ceiling == old(self).ceiling,
    {
        self.connected = false;
    }

    /// Takes one permit if the ceiling allows it; the caller must otherwise
    /// wait and try again, which back-pressures the read loop.
    pub fn try_acquire(&mut self) -> (ok: bool)
        requires
            old(self).wf(),
        ensures
            final(self).wf(),
            final(self).connected == old(self).connected,
            final(self).ceiling == old(self).ceiling,
            ok ==> old(self).in_use < old(self).ceiling && final(self).in_use == old(self).in_use
                + 1,
            !ok ==> *final(self) == *old(self) && old(self).in_use == old(self).ceiling,
    {
        if self.in_use < self.ceiling {
            self.in_use = self.in_use + 1;
            true
        } else {
            false
        }
    }

    /// Returns one permit when a spawned request handler finishes.
    pub fn release(&mut self)
        requires
            old(self).wf(),
            old(self).in_use > 0,
        ensures
            final(self).wf(),
            final(self).connected == old(self).connected,
            final(self).ceiling == old(self).ceiling,
            final(self).in_use == old(self).in_use - 1,
    {
        self.in_use = self.in_use - 1;
    }
}

/// Request dispatch never exceeds the ceiling: a permit is granted only
/// below the ceiling, releasing needs a held permit, and no other operation
/// touches the count, so `in_use <= ceiling` holds in every reachable
/// state — with the fixed ceiling, at most 32 request handlers are ever
/// mid-flight at once.
pub proof fn lemma_ceiling_invariant(m: MessageManager)
    requires
        m.wf(),
    ensures
        m.in_use <= m.ceiling,
        m.ceiling == REQUEST_CEILING ==> m.in_use <= 32,
{
}

/// Where each envelope kind goes: requests are spawned behind a permit,
/// responses and events are handled inline, and a media chunk arriving on
/// the text channel is dropped, as the wire model demands.
pub open spec fn route(m: AppMessageV) -> DispatchActionV {
    match m {
        AppMessageV::Request(q) => DispatchActionV::HandleRequest(q),
        AppMessageV::Response(r) => DispatchActionV::HandleResponse(r),
        AppMessageV::Event(e) => DispatchActionV::HandleEvent(e),
        AppMessageV::Stream(st) => DispatchActionV::DropFrame,
    }
}

/// The view of a dispatch decision.
pub enum DispatchActionV {
    HandleRequest(crate::data::RequestV),
    HandleResponse(crate::data::ResponseV),
    HandleEvent(crate::data::EventV),
    HandleStream(crate::data::StreamV),
    DropFrame,
    EndLoop,
}

impl View for DispatchAction {
    type V = DispatchActionV;

    open spec fn view(&self) -> DispatchActionV {
        match self {
            DispatchAction::HandleRequest(q) => DispatchActionV::HandleRequest(q@),
            DispatchAction::HandleResponse(r) => DispatchActionV::HandleResponse(r@),
            DispatchAction::HandleEvent(e) => DispatchActionV::HandleEvent(e@),
            DispatchAction::HandleStream(s) => DispatchActionV::HandleStream(s@),
            DispatchAction::DropFrame => DispatchActionV::DropFrame,
            DispatchAction::EndLoop => DispatchActionV::EndLoop,
        }
    }
}

/// Decides what to do with one text frame.  Two-sided: whenever a message
/// is handed on, the frame was exactly the canonical text of a document that
/// decodes to it; and whenever the frame is the canonical text of a valid
/// envelope with faithfully-carried fields, that envelope is routed to its
/// handler — valid frames are never dropped.
pub fn dispatch_text(text: &str) -> (a: DispatchAction)
    ensures
        match a@ {
            DispatchActionV::HandleRequest(q) => exists|d: JsonVal| #[trigger]
                json_text(d) == text@ && dec_message(d) == Some(AppMessageV::Request(q)),
            DispatchActionV::HandleResponse(r) => exists|d: JsonVal| #[trigger]
                json_text(d) == text@ && dec_message(d) == Some(AppMessageV::Response(r)),
            DispatchActionV::HandleEvent(e) => exists|d: JsonVal| #[trigger]
                json_text(d) == text@ && dec_message(d) == Some(AppMessageV::Event(e)),
            DispatchActionV::HandleStream(s) => false,
            DispatchActionV::DropFrame => true,
            DispatchActionV::EndLoop => false,
        },
        forall|m: AppMessageV|
            m.wf() && m.frame_wf() && json_text(#[trigger] enc_message(m)) == text@ ==> a@
                == route(m),
{
    match json_from_text(text) {
        None => {
            proof {
                assert forall|m: AppMessageV|
                    m.wf() && m.frame_wf() && json_text(#[trigger] enc_message(m))
                        == text@ implies false by {
                    lemma_enc_message_wf(m);
                }
            }
            DispatchAction::DropFrame
        },
        Some(v) => {
            let ghost d = v@;
            proof {
                assert forall|m: AppMessageV|
                    m.wf() && m.frame_wf() && json_text(#[trigger] enc_message(m))
                        == text@ implies dec_message(d) == Some(m) by {
                    lemma_enc_message_wf(m);
                    assert(d == enc_message(m));
                    lemma_codec_round_trip(m);
                }
            }
            match crate::data::decode_message(v) {
                None => {
                    proof {
                        assert forall|m: AppMessageV|
                            m.wf() && m.frame_wf() && json_text(#[trigger] enc_message(m))
                                == text@ implies false by {
                            assert(dec_message(d) == Some(m));
                        }
                    }
                    DispatchAction::DropFrame
                },
                Some(AppMessage::Request(q)) => {
                    proof {
                        assert(json_text(d) == text@ && dec_message(d) == Some(
                            AppMessageV::Request(q@),
                        ));
                    }
                    DispatchAction::HandleRequest(q)
                },
                Some(AppMessage::Response(r)) => {
                    proof {
                        assert(json_text(d) == text@ && dec_message(d) == Some(
                            AppMessageV::Response(r@),
                        ));
                    }
                    DispatchAction::HandleResponse(r)
                },
                Some(AppMessage::Event(e)) => {
                    proof {
                        assert(json_text(d) == text@ && dec_message(d) == Some(
                            AppMessageV::Event(e@),
                        ));
                    }
                    DispatchAction::HandleEvent(e)
                },
                Some(AppMessage::Stream(_)) => DispatchAction::DropFrame,
            }
        },
    }
}

/// Decides what to do with one binary frame: it carries a bare media-chunk
/// object, handed to the stream handler; anything else is dropped.
/// Two-sided as well: the canonical text of a valid, faithfully-carried
/// chunk is always handed on.
pub fn dispatch_binary(text: &str) -> (a: DispatchAction)
    ensures
        match a@ {
            DispatchActionV::HandleStream(s) => exists|d: JsonVal| #[trigger]
                json_text(d) == text@ && crate::data::dec_stream(d) == Some(s),
            DispatchActionV::DropFrame => true,
            _ => false,
        },
        forall|st: StreamV|
            st.wf() && st.frame_wf() && json_text(JsonVal::Obj(#[trigger] enc_stream_fields(st))) == text@ ==> a@ == DispatchActionV::HandleStream(st),
{
    match json_from_text(text) {
        None => {
            proof {
                assert forall|st: StreamV|
                    st.wf() && st.frame_wf() && json_text(
                        JsonVal::Obj(#[trigger] enc_stream_fields(st)),
                    ) == text@ implies false by {
                    lemma_enc_stream_wf(st);
                }
            }
            DispatchAction::DropFrame
        },
        Some(v) => {
            let ghost d = v@;
            proof {
                assert forall|st: StreamV|
                    st.wf() && st.frame_wf() && json_text(
                        JsonVal::Obj(#[trigger] enc_stream_fields(st)),
                    ) == text@ implies dec_stream(d) == Some(st) by {
                    lemma_enc_stream_wf(st);
                    assert(d == JsonVal::Obj(enc_stream_fields(st)));
                    lemma_stream_round_trip(st);
                }
            }
            match crate::data::decode_stream(v) {
                None => {
                    proof {
                        assert forall|st: StreamV|
                            st.wf() && st.frame_wf() && json_text(
                                JsonVal::Obj(#[trigger] enc_stream_fields(st)),
                            ) == text@ implies false by {
                            assert(dec_stream(d) == Some(st));
                        }
                    }
                    DispatchAction::DropFrame
                },
                Some(st) => {
                    proof {
                        assert(json_text(d) == text@ && crate::data::dec_stream(d) == Some(st@));
                    }
                    DispatchAction::HandleStream(st)
                },
            }
        },
    }
}

/// The text frame that carries an envelope: the canonical rendering of its
/// encoding.
pub fn message_frame_text(m: AppMessage) -> (t: String)
    ensures
        t@ == json_text(crate::data::enc_message(m@)),
{
    let v = crate::data::encode_message(m);
    crate::json::json_to_text(&v)
}

/// The binary frame that carries a media chunk: the canonical rendering of
/// the bare object.
pub fn stream_frame_text(s: Stream) -> (t: String)
    ensures
        t@ == json_text(JsonVal::Obj(crate::data::enc_stream_fields(s@))),
{
    let v = crate::data::encode_stream(s);
    crate::json::json_to_text(&v)
}

} // verus!
