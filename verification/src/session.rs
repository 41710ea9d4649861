//! The per-connection session: the join handshake, the relaying steps, the
//! teardown, and the liveness probes.
//!
//! A session moves through `Connecting`, `Relaying` and `Closed`. The caller
//! owns the transport: it reads frames and feeds them in, sends the frames a
//! step hands back, pumps `poll_event` into outbound text frames, and calls
//! `close` when either direction of the connection ends.

use vstd::prelude::*;

use crate::broadcast::spec_recv;
use crate::event::{encode_event, spec_event_json, EventKind};
use crate::broadcast::spec_publish_view;
use crate::registry::{
    spec_count, spec_join_members, spec_leave_members, spec_same_but_channel, Registry,
};
use vstd::string::StringExecFns;

verus! {

/// Tag byte of an inbound liveness probe.
pub const PROBE_TAG: u8 = 0x9;

/// Tag byte of the reply to a liveness probe.
pub const PROBE_REPLY_TAG: u8 = 0xA;

/// The reply owed to an inbound binary frame: a probe (first byte `0x9`)
/// gets exactly one one-byte reply tagged `0xA`; any other binary frame,
/// including an empty one, gets none. Binary frames never touch the room
/// or session state, in any state of the session.
pub open spec fn spec_probe_reply(frame: Seq<u8>) -> Option<Seq<u8>> {
    if frame.len() > 0 && frame[0] == PROBE_TAG {
        Some(seq![PROBE_REPLY_TAG])
    } else {
        None
    }
}

/// Decide the reply to an inbound binary frame.
pub fn probe_reply(frame: &Vec<u8>) -> (reply: Option<Vec<u8>>)
    ensures
        match reply {
            Some(r) => spec_probe_reply(frame@) == Some(r@),
            None => spec_probe_reply(frame@) is None,
        },
{
    if frame.len() > 0 && frame[0] == PROBE_TAG {
        let mut r: Vec<u8> = Vec::new();
        r.push(PROBE_REPLY_TAG);
        assert(r@ =~= seq![PROBE_REPLY_TAG]);
        Some(r)
    } else {
        None
    }
}

/// What the text of a join payload denotes: the `username` and `channel`
/// string fields of the JSON object it encodes, or nothing when it is not
/// such an object.
pub uninterp spec fn join_request_of(text: Seq<char>) -> Option<(Seq<char>, Seq<char>)>;

/// Relies on `serde_json::from_str::<Value>` to parse the payload, and on
/// `serde_json::Value::get` and `Value::as_str` to project the `username`
/// and `channel` string fields out of the parsed object; the outcome is a
/// function of the text alone.
#[verifier::external_body]
fn parse_join(text: &String) -> (r: Option<(String, String)>)
    ensures
        match r {
            Some(p) => join_request_of(text@) == Some((p.0@, p.1@)),
            None => join_request_of(text@) is None,
        },
{
    let v: serde_json::Value = match serde_json::from_str(text) {
        Ok(v) => v,
        Err(_) => return None,
    };
    let username = match v.get("username").and_then(serde_json::Value::as_str) {
        Some(s) => s.to_string(),
        None => return None,
    };
    let channel = match v.get("channel").and_then(serde_json::Value::as_str) {
        Some(s) => s.to_string(),
        None => return None,
    };
    Some((username, channel))
}

/// Where a connection stands in its lifecycle.
#[derive(Clone, Copy, PartialEq, Eq, Structural, Debug)]
pub enum SessionPhase {
    /// Waiting for the join frame.
    Connecting,
    /// Joined to a room and pumping frames both ways.
    Relaying,
    /// Finished; no step changes anything any more.
    Closed,
}

/// A frame owed to the client as the immediate result of a step.
#[derive(PartialEq, Eq, Debug)]
pub enum OutFrame {
    /// A text frame.
    Text(String),
    /// A binary frame.
    Binary(Vec<u8>),
}

/// The state one connection owns: its phase and, once joined, its display
/// name, its room and its subscription cursor.
pub struct Session {
    /// Where the connection stands.
    pub phase: SessionPhase,
    /// The display name, set by the join handshake.
    pub username: String,
    /// The room joined, set by the join handshake.
    pub room_id: String,
    /// The subscription cursor into the room's broadcast channel.
    pub cursor: u64,
}

impl Session {
    /// A fresh connection, waiting for its join frame.
    pub fn new() -> (s: Session)
        ensures
            s.phase == SessionPhase::Connecting,
            s.username@ == Seq::<char>::empty(),
            s.room_id@ == Seq::<char>::empty(),
    {
        Session {
            phase: SessionPhase::Connecting,
            username: String::new(),
            room_id: String::new(),
            cursor: 0,
        }
    }

    /// The join handshake: parse the first text frame as a join payload.
    ///
    /// A malformed payload yields exactly one `Error` frame and closes the
    /// session, leaving every room untouched. A payload with an empty
    /// username yields one `Error` frame and closes too, though the room it
    /// named has come into being by then. Otherwise the session joins the
    /// room: the name is added to the members (at most once), every other
    /// room is told to refresh its rooms list, a `Join` event is published
    /// where the new subscription will see it, and the one frame handed
    /// back greets the client with the room's current content, spoken by
    /// `"Server"`.
    pub fn handle_connecting_text(&mut self, reg: &mut Registry, text: &String) -> (frames: Vec<
        OutFrame,
    >)
        requires
            old(self).phase == SessionPhase::Connecting,
            old(reg).wf(),
            old(reg).can_publish_all(),
        ensures
            final(reg).wf(),
            final(reg).default_id == old(reg).default_id,
            (match join_request_of(text@) {
                None => {
                    &&& *final(reg) == *old(reg)
                    &&& final(self).phase == SessionPhase::Closed
                    &&& frames@.len() == 1
                    &&& (frames@[0] matches OutFrame::Text(t) && t@ == spec_event_json(
                        EventKind::Error,
                        Some("Invalid JSON"@),
                        Seq::<char>::empty(),
                    ))
                },
                Some(rq) => {
                    let u = rq.0;
                    let c = rq.1;
                    &&& final(reg).has_room(c)
                    &&& final(reg).members_of(c) == spec_join_members(
                        (if old(reg).has_room(c) {
                            old(reg).members_of(c)
                        } else {
                            Seq::<Seq<char>>::empty()
                        }),
                        u,
                    )
                    &&& (if u.len() == 0 {
                        &&& final(self).phase == SessionPhase::Closed
                        &&& frames@.len() == 1
                        &&& (frames@[0] matches OutFrame::Text(t) && t@ == spec_event_json(
                            EventKind::Error,
                            Some("Failed to connect to room!"@),
                            Seq::<char>::empty(),
                        ))
                        &&& (forall|j: int|
                            #![trigger old(reg).rooms@[j]]
                            0 <= j < old(reg).rooms@.len() && old(reg).rooms@[j].room_id@ != c
                                ==> final(reg).rooms@[j] == old(reg).rooms@[j])
                    } else {
                        &&& final(self).phase == SessionPhase::Relaying
                        &&& final(self).username@ == u
                        &&& final(self).room_id@ == c
                        &&& spec_count(final(reg).members_of(c), u) == 1
                        &&& final(reg).room_of(c).version == (if old(reg).has_room(c) {
                            old(reg).room_of(c).version
                        } else {
                            0
                        })
                        &&& final(reg).room_of(c).channel.published == (if old(reg).has_room(c) {
                            old(reg).room_of(c).channel.published
                        } else {
                            0
                        }) + 1
                        &&& frames@.len() == 1
                        &&& (frames@[0] matches OutFrame::Text(t) && t@ == spec_event_json(
                            EventKind::Message,
                            Some(
                                (if old(reg).has_room(c) {
                                    old(reg).content_of(c)
                                } else {
                                    Seq::<char>::empty()
                                }),
                            ),
                            "Server"@,
                        ))
                        &&& (match spec_recv(
                            final(reg).room_of(c).channel.window@,
                            final(reg).room_of(c).channel.published as int,
                            final(self).cursor as int,
                        ) {
                            Some(p) => p.0@ == spec_event_json(EventKind::Join, None, u) && p.1
                                == final(reg).room_of(c).channel.published,
                            None => false,
                        })
                        &&& (forall|j: int|
                            #![trigger old(reg).rooms@[j]]
                            0 <= j < old(reg).rooms@.len() && old(reg).rooms@[j].room_id@ != c
                                ==> spec_same_but_channel(final(reg).rooms@[j], old(reg).rooms@[j])
                                && spec_publish_view(
                                old(reg).rooms@[j].channel,
                                final(reg).rooms@[j].channel,
                                spec_event_json(
                                    EventKind::UpdateRoomsList,
                                    None,
                                    Seq::<char>::empty(),
                                ),
                            ))
                    })
                },
            }),
    {
        let parsed = parse_join(text);
        match parsed {
            None => {
                let msg = String::from_str("Invalid JSON");
                let none_name = String::new();
                let ev = encode_event(EventKind::Error, Some(&msg), &none_name);
                self.phase = SessionPhase::Closed;
                let mut frames: Vec<OutFrame> = Vec::new();
                frames.push(OutFrame::Text(ev));
                proof {
                    reveal_strlit("Invalid JSON");
                }
                frames
            },
            Some(rq) => {
                let (username, channel) = rq;
                if username.as_str().is_empty() {
                    let created = self.join_without_name(reg, &channel, &username);
                    let msg = String::from_str("Failed to connect to room!");
                    let none_name = String::new();
                    let ev = encode_event(EventKind::Error, Some(&msg), &none_name);
                    self.phase = SessionPhase::Closed;
                    let mut frames: Vec<OutFrame> = Vec::new();
                    frames.push(OutFrame::Text(ev));
                    proof {
                        reveal_strlit("Failed to connect to room!");
                    }
                    frames
                } else {
                    let r = reg.join_room(&channel, &username);
                    let (content, cursor) = r;
                    let server = String::from_str("Server");
                    let ev = encode_event(EventKind::Message, Some(&content), &server);
                    self.username = username;
                    self.room_id = channel;
                    self.cursor = cursor;
                    self.phase = SessionPhase::Relaying;
                    let mut frames: Vec<OutFrame> = Vec::new();
                    frames.push(OutFrame::Text(ev));
                    proof {
                        reveal_strlit("Server");
                    }
                    frames
                }
            },
        }
    }

    /// The guarded join edge: the room comes into being and lists the name
    /// before the handshake is refused, as a rejoining client would find it.
    fn join_without_name(&mut self, reg: &mut Registry, channel: &String, username: &String) -> (created:
        bool)
        requires
            old(reg).wf(),
        ensures
            *final(self) == *old(self),
            final(reg).wf(),
            final(reg).default_id == old(reg).default_id,
            final(reg).has_room(channel@),
            final(reg).members_of(channel@) == spec_join_members(
                (if old(reg).has_room(channel@) {
                    old(reg).members_of(channel@)
                } else {
                    Seq::<Seq<char>>::empty()
                }),
                username@,
            ),
            forall|j: int|
                #![trigger old(reg).rooms@[j]]
                0 <= j < old(reg).rooms@.len() && old(reg).rooms@[j].room_id@ != channel@
                    ==> final(reg).rooms@[j] == old(reg).rooms@[j],
    {
        let created = reg.get_or_create(channel);
        let ghost g1 = *reg;
        proof {
            if created {
                assert(g1.rooms@[old(reg).rooms@.len() as int].room_id@ == channel@);
                assert(g1.index_of(channel@) == old(reg).rooms@.len());
                assert(g1.rooms@[g1.index_of(channel@)].member_views() =~= Seq::<
                    Seq<char>,
                >::empty());
            } else {
                assert(g1.index_of(channel@) == old(reg).index_of(channel@));
            }
        }
        reg.add_member(channel, username);
        proof {
            let idx = g1.index_of(channel@);
            reg.lemma_index_of(channel@, idx);
            assert forall|j: int|
                #![trigger old(reg).rooms@[j]]
                0 <= j < old(reg).rooms@.len() && old(reg).rooms@[j].room_id@
                    != channel@ implies reg.rooms@[j] == old(reg).rooms@[j] by {
                if created {
                    assert(g1.rooms@[j] == g1.rooms@.subrange(0, old(reg).rooms@.len() as int)[j]);
                }
                assert(g1.rooms@[j] == old(reg).rooms@[j]);
                assert(j != idx);
            }
        }
        created
    }

    /// The inbound half of relaying: a text frame overwrites the room's
    /// content and is published as a `Message` event under the session's
    /// name — or does nothing if the room has since been removed.
    pub fn handle_relaying_text(&self, reg: &mut Registry, text: &String) -> (delivered: bool)
        requires
            self.phase == SessionPhase::Relaying,
            old(reg).wf(),
            old(reg).has_room(self.room_id@) ==> old(reg).room_of(self.room_id@).version < u64::MAX
                && old(reg).room_of(self.room_id@).channel.published < u64::MAX,
        ensures
            final(reg).wf(),
            final(reg).default_id == old(reg).default_id,
            delivered == old(reg).has_room(self.room_id@),
            !delivered ==> *final(reg) == *old(reg),
            delivered ==> ({
                let idx = old(reg).index_of(self.room_id@);
                &&& final(reg).rooms@.len() == old(reg).rooms@.len()
                &&& (forall|j: int|
                    0 <= j < old(reg).rooms@.len() && j != idx ==> final(reg).rooms@[j] == old(
                        reg,
                    ).rooms@[j])
                &&& final(reg).content_of(self.room_id@) == text@
                &&& final(reg).room_of(self.room_id@).version == old(reg).room_of(
                    self.room_id@,
                ).version + 1
                &&& final(reg).members_of(self.room_id@) == old(reg).members_of(self.room_id@)
                &&& spec_publish_view(
                    old(reg).rooms@[idx].channel,
                    final(reg).rooms@[idx].channel,
                    spec_event_json(EventKind::Message, Some(text@), self.username@),
                )
            }),
    {
        let delivered = reg.publish_message(&self.room_id, &self.username, text);
        proof {
            if old(reg).has_room(self.room_id@) {
                let idx = old(reg).index_of(self.room_id@);
                reg.lemma_index_of(self.room_id@, idx);
            }
        }
        delivered
    }

    /// The outbound half of relaying: the next event of the room's channel
    /// this session has not yet seen, its cursor advancing past it; nothing
    /// when it is caught up or its room is gone.
    pub fn poll_event(&mut self, reg: &Registry) -> (r: Option<String>)
        requires
            old(self).phase == SessionPhase::Relaying,
            reg.wf(),
        ensures
            final(self).phase == old(self).phase,
            final(self).username == old(self).username,
            final(self).room_id == old(self).room_id,
            !reg.has_room(old(self).room_id@) ==> r is None && *final(self) == *old(self),
            reg.has_room(old(self).room_id@) ==> (match spec_recv(
                reg.room_of(old(self).room_id@).channel.window@,
                reg.room_of(old(self).room_id@).channel.published as int,
                old(self).cursor as int,
            ) {
                Some(p) => r == Some(p.0) && final(self).cursor == p.1,
                None => r is None && *final(self) == *old(self),
            }),
    {
        reg.recv_event(&self.room_id, &mut self.cursor)
    }

    /// Teardown. A relaying session publishes a `Leave` event for its name
    /// and takes it off the room's members — unless the room is already
    /// gone, which is not an error. Closing from any other phase only marks
    /// the session closed. Closing twice changes nothing more.
    pub fn close(&mut self, reg: &mut Registry)
        requires
            old(reg).wf(),
            old(self).phase == SessionPhase::Relaying && old(reg).has_room(old(self).room_id@)
                ==> old(reg).room_of(old(self).room_id@).channel.published < u64::MAX,
        ensures
            final(self).phase == SessionPhase::Closed,
            final(self).username == old(self).username,
            final(self).room_id == old(self).room_id,
            final(reg).wf(),
            final(reg).default_id == old(reg).default_id,
            old(self).phase != SessionPhase::Relaying ==> *final(reg) == *old(reg),
            old(self).phase == SessionPhase::Relaying && !old(reg).has_room(old(self).room_id@)
                ==> *final(reg) == *old(reg),
            old(self).phase == SessionPhase::Relaying && old(reg).has_room(old(self).room_id@)
                ==> ({
                let idx = old(reg).index_of(old(self).room_id@);
                &&& final(reg).rooms@.len() == old(reg).rooms@.len()
                &&& (forall|j: int|
                    0 <= j < old(reg).rooms@.len() && j != idx ==> final(reg).rooms@[j] == old(
                        reg,
                    ).rooms@[j])
                &&& final(reg).members_of(old(self).room_id@) == spec_leave_members(
                    old(reg).members_of(old(self).room_id@),
                    old(self).username@,
                )
                &&& final(reg).content_of(old(self).room_id@) == old(reg).content_of(
                    old(self).room_id@,
                )
                &&& spec_publish_view(
                    old(reg).rooms@[idx].channel,
                    final(reg).rooms@[idx].channel,
                    spec_event_json(EventKind::Leave, None, old(self).username@),
                )
            }),
    {
        let was_relaying = match self.phase {
            SessionPhase::Relaying => true,
            _ => false,
        };
        if was_relaying {
            reg.leave_room(&self.room_id, &self.username);
            proof {
                if old(reg).has_room(self.room_id@) {
                    let idx = old(reg).index_of(self.room_id@);
                    reg.lemma_index_of(self.room_id@, idx);
                }
            }
        }
        self.phase = SessionPhase::Closed;
    }
}

} // verus!
