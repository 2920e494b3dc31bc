//! The protocol dispatcher: one transport event in, the state change
//! and the action it requires out.
//!
//! The service loop around it owns the socket, the timers and the
//! packet shuttle. It feeds every event here in the order the
//! transport yields them, forwards a returned callback name to the
//! resolver, and lets the engine produce frames only for keys taken
//! from the current subscription snapshot.

use vstd::prelude::*;
use crate::callbacks::{button_callback, spec_button_callback};
use crate::msgpack::{decode, spec_decode, Command, Message, MessageModel};
use crate::state::{stream_options_of, without_peer, State, StreamKey, StreamOptions};
use crate::texture_stream::StreamEngine;

verus! {

/// One event the transport yields.
pub enum PeerEvent {
    /// A peer connected.
    Connect { peer_id: u64 },
    /// A peer disconnected (or timed out).
    Disconnect { peer_id: u64 },
    /// A datagram arrived from a connected peer.
    Receive { peer_id: u64, payload: Vec<u8> },
}

/// What the service loop must do beyond the state change.
pub enum DispatchAction {
    /// Nothing further.
    Nothing,
    /// Hand this callback name to the keybinding resolver.
    InvokeCallback { name: String },
}

/// Routes one transport event. A streamed-texture request mutates the
/// subscription set; a disconnect tears down everything of that peer;
/// a button press yields the callback to invoke; releases, unknown
/// kinds and undecodable datagrams change nothing and ask nothing.
pub fn handle_event(state: &mut State, engine: &mut StreamEngine, event: &PeerEvent) -> (action:
    DispatchAction)
    requires
        old(state).wf(),
        old(engine).wf(),
    ensures
        final(state).wf(),
        final(engine).wf(),
        match event {
            PeerEvent::Connect { .. } => {
                &&& final(state)@ == old(state)@
                &&& final(engine).cache_view() == old(engine).cache_view()
                &&& final(engine).sent_map() == old(engine).sent_map()
                &&& action is Nothing
            },
            PeerEvent::Disconnect { peer_id } => {
                &&& final(state)@ == without_peer(old(state)@, *peer_id)
                &&& final(engine).sent_map() == old(engine).sent_map().filter_keys(
                    (|k: (u64, Seq<char>)| k.0 != *peer_id),
                )
                &&& final(engine).cache_view() == old(engine).cache_view()
                &&& action is Nothing
            },
            PeerEvent::Receive { peer_id, payload } => match spec_decode(payload@) {
                Option::None => {
                    &&& final(state)@ == old(state)@
                    &&& final(engine).cache_view() == old(engine).cache_view()
                    &&& final(engine).sent_map() == old(engine).sent_map()
                    &&& action is Nothing
                },
                Option::Some(mm) => match mm {
                    MessageModel::StreamedTextureRequest {
                        identifier,
                        command,
                        refresh_rate,
                        quality,
                    } => {
                        &&& final(engine).cache_view() == old(engine).cache_view()
                        &&& final(engine).sent_map() == old(engine).sent_map()
                        &&& action is Nothing
                        &&& (command == Command::Start ==> final(state)@ == old(state)@.insert(
                            (*peer_id, identifier),
                            stream_options_of(refresh_rate, quality),
                        ))
                        &&& (command == Command::Stop ==> final(state)@ == old(state)@.remove(
                            (*peer_id, identifier),
                        ))
                    },
                    _ => {
                        &&& final(state)@ == old(state)@
                        &&& final(engine).cache_view() == old(engine).cache_view()
                        &&& final(engine).sent_map() == old(engine).sent_map()
                        &&& match spec_button_callback(mm) {
                            Option::Some(n) => action matches DispatchAction::InvokeCallback {
                                name,
                            } && name@ == n,
                            Option::None => action is Nothing,
                        }
                    },
                },
            },
        },
{
    match event {
        PeerEvent::Connect { .. } => DispatchAction::Nothing,
        PeerEvent::Disconnect { peer_id } => {
            state.cancel_all_streams(*peer_id);
            engine.drop_peer(*peer_id);
            DispatchAction::Nothing
        },
        PeerEvent::Receive { peer_id, payload } => {
            match decode(payload.as_slice()) {
                Option::None => DispatchAction::Nothing,
                Option::Some(msg) => match msg {
                    Message::StreamedTextureRequest {
                        identifier,
                        command,
                        refresh_rate,
                        quality,
                    } => {
                        let options = StreamOptions::new(refresh_rate, quality);
                        let key = StreamKey { peer_id: *peer_id, identifier };
                        match command {
                            Command::Start => state.start_stream(key, options),
                            Command::Stop => state.stop_stream(&key),
                        }
                        DispatchAction::Nothing
                    },
                    other => match button_callback(&other) {
                        Option::Some(name) => DispatchAction::InvokeCallback { name },
                        Option::None => DispatchAction::Nothing,
                    },
                },
            }
        },
    }
}

/// Disconnect tears a peer fully down before the next dispatch: the
/// subscription set then holds no key of the peer — so a snapshot
/// taken afterwards offers the engine nothing of that peer to tick,
/// and no frame for it is enqueued — and the engine's last-sent
/// memory of the peer is gone with it.
pub proof fn lemma_disconnect_purges_peer(
    m: Map<(u64, Seq<char>), StreamOptions>,
    ls: Map<(u64, Seq<char>), u64>,
    p: u64,
    k: (u64, Seq<char>),
)
    requires
        k.0 == p,
    ensures
        !without_peer(m, p).dom().contains(k),
        !ls.filter_keys((|q: (u64, Seq<char>)| q.0 != p)).dom().contains(k),
{
}

} // verus!
