//! The room registry: the mapping from room identifier to room, with the
//! membership, content and removal rules.
//!
//! A room owns a membership list (one entry per display name), the latest
//! shared content value with its change counter, and a broadcast channel for
//! its events. The registry owns the rooms and a distinguished default room
//! that always exists and can never be removed.

use vstd::prelude::*;

use crate::broadcast::{spec_publish_view, spec_publish_window, spec_recv, Channel};
use crate::event::{encode_event, spec_event_json, EventKind};

verus! {

/// Why a removal was refused: `Forbidden` protects the default room,
/// `Conflict` a room that is still needed or still in use.
#[derive(Clone, Copy, PartialEq, Eq, Structural, Debug)]
pub enum RemoveError {
    /// The default room can never be removed.
    Forbidden,
    /// The room is the last one, or more than one member remains in it.
    Conflict,
}

/// How a removal succeeded.
#[derive(Clone, Copy, PartialEq, Eq, Structural, Debug)]
pub enum RemoveOutcome {
    /// The room existed and is gone.
    Removed,
    /// No room of that name existed; removing it again is the same no-op.
    AlreadyAbsent,
}

/// The removal rule. Removing the default room is `Forbidden`, whatever
/// else holds. Removing an absent room succeeds as a no-op. A room that is
/// the last one standing, or that still has two or more members, gives
/// `Conflict`. Otherwise the room is removed.
pub open spec fn spec_remove_check(r: Registry, id: Seq<char>) -> Result<
    RemoveOutcome,
    RemoveError,
> {
    if id == r.default_id@ {
        Err(RemoveError::Forbidden)
    } else if !r.has_room(id) {
        Ok(RemoveOutcome::AlreadyAbsent)
    } else if r.room_count() == 1 {
        Err(RemoveError::Conflict)
    } else if r.members_of(id).len() > 1 {
        Err(RemoveError::Conflict)
    } else {
        Ok(RemoveOutcome::Removed)
    }
}

/// Law: removing the default room always fails with `Forbidden`, for any
/// registry state.
pub proof fn lemma_remove_default_forbidden(r: Registry)
    ensures
        spec_remove_check(r, r.default_id@) == Err::<RemoveOutcome, RemoveError>(
            RemoveError::Forbidden,
        ),
{
}

/// Law: removing a non-existent room always succeeds as a no-op. The
/// removal leaves the registry untouched, so the same call gives the same
/// answer any number of times.
pub proof fn lemma_remove_absent_idempotent(r: Registry, id: Seq<char>)
    requires
        !r.has_room(id),
        id != r.default_id@,
    ensures
        spec_remove_check(r, id) == Ok::<RemoveOutcome, RemoveError>(RemoveOutcome::AlreadyAbsent),
{
}

/// Law: removing the sole remaining room always fails with `Conflict`, even
/// if that room is empty.
pub proof fn lemma_remove_last_room_conflict(r: Registry, id: Seq<char>)
    requires
        r.has_room(id),
        r.room_count() == 1,
        id != r.default_id@,
    ensures
        spec_remove_check(r, id) == Err::<RemoveOutcome, RemoveError>(RemoveError::Conflict),
{
}

/// Law: when other rooms remain, a room with at most one member can be
/// removed, and a room with two or more members cannot — that attempt fails
/// with `Conflict`.
pub proof fn lemma_remove_member_rule(r: Registry, id: Seq<char>)
    requires
        r.has_room(id),
        id != r.default_id@,
        r.room_count() >= 2,
    ensures
        r.members_of(id).len() <= 1 ==> spec_remove_check(r, id) == Ok::<
            RemoveOutcome,
            RemoveError,
        >(RemoveOutcome::Removed),
        r.members_of(id).len() >= 2 ==> spec_remove_check(r, id) == Err::<
            RemoveOutcome,
            RemoveError,
        >(RemoveError::Conflict),
{
}

/// Law: a message is observed in its room, and only there. `before` and
/// `after` are a registry around one `Message` publish in the room `id`, as
/// `publish_message` leaves it. A subscriber of that room that was caught
/// up when the message was published receives exactly the message event —
/// its text carrying the content and the sender's name — while the channel
/// of every other room is left as it was, so a subscriber there receives
/// now what it would have received before.
pub proof fn lemma_message_observed(
    before: Registry,
    after: Registry,
    id: Seq<char>,
    username: Seq<char>,
    text: Seq<char>,
    cursor: u64,
)
    requires
        before.wf(),
        before.has_room(id),
        after.rooms@.len() == before.rooms@.len(),
        forall|j: int|
            0 <= j < before.rooms@.len() && j != before.index_of(id) ==> after.rooms@[j]
                == before.rooms@[j],
        spec_publish_view(
            before.room_of(id).channel,
            after.rooms@[before.index_of(id)].channel,
            spec_event_json(EventKind::Message, Some(text), username),
        ),
        cursor == before.room_of(id).channel.published,
    ensures
        (match spec_recv(
            after.rooms@[before.index_of(id)].channel.window@,
            after.rooms@[before.index_of(id)].channel.published as int,
            cursor as int,
        ) {
            Some(p) => p.0@ == spec_event_json(EventKind::Message, Some(text), username),
            None => false,
        }),
        forall|j: int, c: int|
            0 <= j < before.rooms@.len() && j != before.index_of(id) ==> #[trigger] spec_recv(
                after.rooms@[j].channel.window@,
                after.rooms@[j].channel.published as int,
                c,
            ) == spec_recv(
                before.rooms@[j].channel.window@,
                before.rooms@[j].channel.published as int,
                c,
            ),
{
    let idx = before.index_of(id);
    assert(before.rooms@[idx].wf());
    crate::broadcast::lemma_publish_then_recv(
        before.room_of(id).channel,
        after.rooms@[idx].channel,
        spec_event_json(EventKind::Message, Some(text), username),
    );
}

/// Whether a rooms-list update skips the room with this identifier.
pub open spec fn spec_skips(except: Option<Seq<char>>, id: Seq<char>) -> bool {
    match except {
        Some(e) => e == id,
        None => false,
    }
}

/// That no name is listed twice.
pub open spec fn spec_members_unique(members: Seq<Seq<char>>) -> bool {
    forall|i: int, j: int| 0 <= i < j < members.len() ==> members[i] != members[j]
}

/// What joining leaves of a member list: unchanged when the name is already
/// present, else the name appended.
pub open spec fn spec_join_members(members: Seq<Seq<char>>, name: Seq<char>) -> Seq<Seq<char>> {
    if members.contains(name) {
        members
    } else {
        members.push(name)
    }
}

/// What leaving leaves of a member list: the name's entry removed when it is
/// present, else unchanged.
pub open spec fn spec_leave_members(members: Seq<Seq<char>>, name: Seq<char>) -> Seq<Seq<char>> {
    if members.contains(name) {
        members.remove(members.index_of(name))
    } else {
        members
    }
}

/// How many entries of a member list read `name`.
pub open spec fn spec_count(members: Seq<Seq<char>>, name: Seq<char>) -> int
    decreases members.len(),
{
    if members.len() == 0 {
        0
    } else {
        (if members[0] == name {
            1int
        } else {
            0int
        }) + spec_count(members.drop_first(), name)
    }
}

/// In a duplicate-free member list, a name is counted once if present and
/// never otherwise.
pub proof fn lemma_unique_count(members: Seq<Seq<char>>, name: Seq<char>)
    requires
        spec_members_unique(members),
    ensures
        spec_count(members, name) == if members.contains(name) {
            1int
        } else {
            0int
        },
    decreases members.len(),
{
    if members.len() > 0 {
        let rest = members.drop_first();
        assert(spec_members_unique(rest)) by {
            assert(forall|i: int, j: int|
                0 <= i < j < rest.len() ==> rest[i] == members[i + 1] && rest[j] == members[j + 1]);
        }
        lemma_unique_count(rest, name);
        if members[0] == name {
            assert(!rest.contains(name)) by {
                if rest.contains(name) {
                    let k = choose|k: int| 0 <= k < rest.len() && rest[k] == name;
                    assert(members[k + 1] == name);
                }
            }
            assert(members.contains(name));
        } else {
            if members.contains(name) {
                let k = choose|k: int| 0 <= k < members.len() && members[k] == name;
                assert(rest[k - 1] == name);
                assert(rest.contains(name));
            } else {
                assert(!rest.contains(name)) by {
                    if rest.contains(name) {
                        let k = choose|k: int| 0 <= k < rest.len() && rest[k] == name;
                        assert(members[k + 1] == name);
                    }
                }
            }
        }
    }
}

/// Law: after a join the name stands in the room's member list exactly once,
/// and joining again — any number of times — changes nothing.
pub proof fn lemma_join_member_once(members: Seq<Seq<char>>, name: Seq<char>)
    requires
        spec_members_unique(members),
    ensures
        spec_count(spec_join_members(members, name), name) == 1,
        spec_members_unique(spec_join_members(members, name)),
        spec_join_members(spec_join_members(members, name), name) == spec_join_members(
            members,
            name,
        ),
{
    let joined = spec_join_members(members, name);
    if members.contains(name) {
        lemma_unique_count(members, name);
    } else {
        assert(spec_members_unique(joined)) by {
            assert(forall|i: int|
                0 <= i < members.len() ==> joined[i] == members[i] && members.contains(
                    members[i],
                ));
        }
        assert(joined[members.len() as int] == name);
        assert(joined.contains(name));
        lemma_unique_count(joined, name);
    }
}

/// One chat room.
pub struct Room {
    /// The identifier the registry keys this room by.
    pub room_id: String,
    /// The display names currently joined, each at most once.
    pub members: Vec<String>,
    /// The latest shared content value.
    pub content: String,
    /// How many times the content has been overwritten; lets an observer
    /// tell a change without comparing values.
    pub version: u64,
    /// The room's broadcast channel.
    pub channel: Channel,
}

impl Room {
    /// The member names as character sequences, in join order.
    pub open spec fn member_views(&self) -> Seq<Seq<char>> {
        self.members@.map_values(|m: String| m@)
    }

    /// Whether `name` is currently a member.
    pub open spec fn has_member(&self, name: Seq<char>) -> bool {
        self.member_views().contains(name)
    }

    /// Members are listed at most once each, and the channel window is sound.
    pub open spec fn wf(&self) -> bool {
        &&& spec_members_unique(self.member_views())
        &&& self.channel.wf()
    }
}

/// A room as a fresh one: no members, empty content, nothing published.
pub open spec fn spec_fresh_room(r: Room, id: Seq<char>) -> bool {
    &&& r.room_id@ == id
    &&& r.member_views() == Seq::<Seq<char>>::empty()
    &&& r.content@ == Seq::<char>::empty()
    &&& r.version == 0
    &&& r.channel.published == 0
    &&& r.channel.window@ == Seq::<String>::empty()
}

/// That two rooms agree on everything but their channel.
pub open spec fn spec_same_but_channel(a: Room, b: Room) -> bool {
    &&& a.room_id == b.room_id
    &&& a.members == b.members
    &&& a.content == b.content
    &&& a.version == b.version
}

fn find_name_index(v: &Vec<String>, name: &String) -> (r: Option<usize>)
    ensures
        match r {
            Some(k) => k < v@.len() && v@[k as int]@ == name@ && v@.map_values(
                |m: String| m@,
            ).contains(name@),
            None => !v@.map_values(|m: String| m@).contains(name@),
        },
{
    let n = v.len();
    let mut i: usize = 0;
    while i < n
        invariant
            i <= n,
            n == v@.len(),
            forall|k: int| 0 <= k < i ==> (#[trigger] v@[k])@ != name@,
        decreases n - i,
    {
        if v[i] == *name {
            proof {
                assert(v@.map_values(|m: String| m@)[i as int] == name@);
            }
            return Some(i);
        }
        i += 1;
    }
    proof {
        let views = v@.map_values(|m: String| m@);
        assert forall|k: int| 0 <= k < views.len() implies views[k] != name@ by {
            assert(views[k] == v@[k]@);
        }
    }
    None
}

/// The registry of rooms.
pub struct Registry {
    /// The identifier of the default room, which always exists.
    pub default_id: String,
    /// The rooms, in creation order.
    pub rooms: Vec<Room>,
}

impl Registry {
    /// The room identifiers, in creation order.
    pub open spec fn ids(&self) -> Seq<Seq<char>> {
        self.rooms@.map_values(|r: Room| r.room_id@)
    }

    /// Whether a room with this identifier exists.
    pub open spec fn has_room(&self, id: Seq<char>) -> bool {
        exists|i: int| 0 <= i < self.rooms@.len() && (#[trigger] self.rooms@[i]).room_id@ == id
    }

    /// The position of the room with this identifier; meaningful only when
    /// the room exists (identifiers are unique).
    pub open spec fn index_of(&self, id: Seq<char>) -> int {
        choose|i: int| 0 <= i < self.rooms@.len() && (#[trigger] self.rooms@[i]).room_id@ == id
    }

    /// The room with this identifier; meaningful only when it exists.
    pub open spec fn room_of(&self, id: Seq<char>) -> Room {
        self.rooms@[self.index_of(id)]
    }

    /// The member names of the room with this identifier.
    pub open spec fn members_of(&self, id: Seq<char>) -> Seq<Seq<char>> {
        self.room_of(id).member_views()
    }

    /// The content of the room with this identifier.
    pub open spec fn content_of(&self, id: Seq<char>) -> Seq<char> {
        self.room_of(id).content@
    }

    /// How many rooms exist.
    pub open spec fn room_count(&self) -> int {
        self.rooms@.len() as int
    }

    /// No two rooms share an identifier.
    pub open spec fn ids_unique(&self) -> bool {
        forall|i: int, j: int|
            0 <= i < j < self.rooms@.len() ==> (#[trigger] self.rooms@[i]).room_id@ != (
            #[trigger] self.rooms@[j]).room_id@
    }

    /// Identifiers are unique, every room is well-formed, and the default
    /// room exists.
    pub open spec fn wf(&self) -> bool {
        &&& self.ids_unique()
        &&& forall|i: int| 0 <= i < self.rooms@.len() ==> (#[trigger] self.rooms@[i]).wf()
        &&& self.has_room(self.default_id@)
    }

    /// Whether every room's channel can take one more event without its
    /// publish counter overflowing — a machine limit, not a protocol rule.
    pub open spec fn can_publish_all(&self) -> bool {
        forall|i: int|
            0 <= i < self.rooms@.len() ==> (#[trigger] self.rooms@[i]).channel.published
                < u64::MAX
    }

    /// In a well-formed registry, a position holding `id` is the position
    /// `index_of(id)` speaks of.
    pub proof fn lemma_index_of(&self, id: Seq<char>, i: int)
        requires
            self.ids_unique(),
            0 <= i < self.rooms@.len(),
            self.rooms@[i].room_id@ == id,
        ensures
            self.has_room(id),
            self.index_of(id) == i,
    {
        assert(self.has_room(id));
        let j = self.index_of(id);
        if i < j {
            assert(self.rooms@[i].room_id@ != self.rooms@[j].room_id@);
        } else if j < i {
            assert(self.rooms@[j].room_id@ != self.rooms@[i].room_id@);
        }
    }

    /// A registry holding only a fresh default room.
    pub fn new(default_id: String) -> (r: Registry)
        ensures
            r.wf(),
            r.can_publish_all(),
            r.default_id@ == default_id@,
            r.room_count() == 1,
            spec_fresh_room(r.rooms@[0], default_id@),
    {
        let id_copy = default_id.clone();
        let room = Room {
            room_id: default_id,
            members: Vec::new(),
            content: String::new(),
            version: 0,
            channel: Channel::new(),
        };
        let mut rooms: Vec<Room> = Vec::new();
        rooms.push(room);
        let r = Registry { default_id: id_copy, rooms };
        proof {
            assert(r.rooms@[0].member_views() =~= Seq::<Seq<char>>::empty());
            assert(r.has_room(r.default_id@));
        }
        r
    }

    /// Find the position of a room by identifier.
    fn find_index(&self, id: &String) -> (r: Option<usize>)
        requires
            self.ids_unique(),
        ensures
            match r {
                Some(i) => i < self.rooms@.len() && self.rooms@[i as int].room_id@ == id@
                    && self.has_room(id@) && self.index_of(id@) == i,
                None => !self.has_room(id@),
            },
    {
        let n = self.rooms.len();
        let mut i: usize = 0;
        while i < n
            invariant
                i <= n,
                n == self.rooms@.len(),
                self.ids_unique(),
                forall|k: int| 0 <= k < i ==> (#[trigger] self.rooms@[k]).room_id@ != id@,
            decreases n - i,
        {
            if self.rooms[i].room_id == *id {
                proof {
                    self.lemma_index_of(id@, i as int);
                }
                return Some(i);
            }
            i += 1;
        }
        proof {
            assert(forall|k: int|
                0 <= k < self.rooms@.len() ==> (#[trigger] self.rooms@[k]).room_id@ != id@);
        }
        None
    }

    /// Look up the room or create a fresh one under this identifier — the
    /// registry's only way to bring a room into being. Every other room is
    /// left exactly as it was.
    pub fn get_or_create(&mut self, id: &String) -> (created: bool)
        requires
            old(self).wf(),
        ensures
            final(self).wf(),
            final(self).default_id == old(self).default_id,
            final(self).has_room(id@),
            created == !old(self).has_room(id@),
            !created ==> *final(self) == *old(self),
            created ==> final(self).rooms@.len() == old(self).rooms@.len() + 1
                && final(self).rooms@.subrange(0, old(self).rooms@.len() as int) == old(
                self,
            ).rooms@ && spec_fresh_room(final(self).rooms@.last(), id@) && final(self).index_of(id@)
                == old(self).rooms@.len(),
    {
        let found = self.find_index(id);
        match found {
            Some(_) => false,
            None => {
                let room = Room {
                    room_id: id.clone(),
                    members: Vec::new(),
                    content: String::new(),
                    version: 0,
                    channel: Channel::new(),
                };
                self.rooms.push(room);
                proof {
                    let n = old(self).rooms@.len() as int;
                    assert(self.rooms@.last().member_views() =~= Seq::<Seq<char>>::empty());
                    assert(self.rooms@.subrange(0, n) =~= old(self).rooms@);
                    assert forall|i: int, j: int|
                        0 <= i < j < self.rooms@.len() implies (
                    #[trigger] self.rooms@[i]).room_id@ != (#[trigger] self.rooms@[j]).room_id@ by {
                        if j == n {
                            assert(!old(self).has_room(id@));
                        }
                    }
                    self.lemma_index_of(id@, n);
                    let d = self.default_id@;
                    let k = old(self).index_of(d);
                    assert(old(self).rooms@[k].room_id@ == d);
                    assert(self.rooms@[k].room_id@ == d);
                    assert(self.has_room(d));
                }
                true
            },
        }
    }

    /// Add a name to a room's member list, if the room exists and the name
    /// is not yet listed. Nothing else changes.
    pub fn add_member(&mut self, id: &String, name: &String) -> (added: bool)
        requires
            old(self).wf(),
        ensures
            final(self).wf(),
            final(self).default_id == old(self).default_id,
            !old(self).has_room(id@) ==> *final(self) == *old(self) && !added,
            old(self).has_room(id@) ==> ({
                let idx = old(self).index_of(id@);
                &&& final(self).rooms@.len() == old(self).rooms@.len()
                &&& added == !old(self).rooms@[idx].has_member(name@)
                &&& (forall|j: int|
                    0 <= j < old(self).rooms@.len() && j != idx ==> final(self).rooms@[j] == old(
                        self,
                    ).rooms@[j])
                &&& final(self).rooms@[idx].member_views() == spec_join_members(
                    old(self).rooms@[idx].member_views(),
                    name@,
                )
                &&& final(self).rooms@[idx].room_id == old(self).rooms@[idx].room_id
                &&& final(self).rooms@[idx].content == old(self).rooms@[idx].content
                &&& final(self).rooms@[idx].version == old(self).rooms@[idx].version
                &&& final(self).rooms@[idx].channel == old(self).rooms@[idx].channel
            }),
    {
        let found = self.find_index(id);
        match found {
            None => false,
            Some(i) => {
                if find_name_index(&self.rooms[i].members, name).is_some() {
                    false
                } else {
                    self.rooms[i].members.push(name.clone());
                    proof {
                        let idx = i as int;
                        assert(self.rooms@[idx].member_views() =~= old(self).rooms@[
                        idx].member_views().push(name@));
                        lemma_join_member_once(old(self).rooms@[idx].member_views(), name@);
                        assert(self.ids() =~= old(self).ids());
                        let d = self.default_id@;
                        let k = old(self).index_of(d);
                        assert(old(self).rooms@[k].room_id@ == d);
                        assert(self.rooms@[k].room_id@ == d);
                    }
                    true
                }
            },
        }
    }

    /// Overwrite a room's content and advance its change counter, if the
    /// room exists. Nothing else changes, and nothing is broadcast.
    pub fn set_content(&mut self, id: &String, text: &String) -> (updated: bool)
        requires
            old(self).wf(),
            old(self).has_room(id@) ==> old(self).room_of(id@).version < u64::MAX,
        ensures
            final(self).wf(),
            final(self).default_id == old(self).default_id,
            updated == old(self).has_room(id@),
            !updated ==> *final(self) == *old(self),
            updated ==> ({
                let idx = old(self).index_of(id@);
                &&& final(self).rooms@.len() == old(self).rooms@.len()
                &&& (forall|j: int|
                    0 <= j < old(self).rooms@.len() && j != idx ==> final(self).rooms@[j] == old(
                        self,
                    ).rooms@[j])
                &&& final(self).rooms@[idx].room_id == old(self).rooms@[idx].room_id
                &&& final(self).rooms@[idx].members == old(self).rooms@[idx].members
                &&& final(self).rooms@[idx].channel == old(self).rooms@[idx].channel
                &&& final(self).rooms@[idx].content == *text
                &&& final(self).rooms@[idx].version == old(self).rooms@[idx].version + 1
            }),
    {
        let found = self.find_index(id);
        match found {
            None => false,
            Some(i) => {
                self.rooms[i].content = text.clone();
                let v = self.rooms[i].version;
                self.rooms[i].version = v + 1;
                proof {
                    let idx = i as int;
                    assert(self.rooms@[idx].member_views() =~= old(self).rooms@[
                    idx].member_views());
                    assert(self.ids() =~= old(self).ids());
                    let d = self.default_id@;
                    let k = old(self).index_of(d);
                    assert(old(self).rooms@[k].room_id@ == d);
                    assert(self.rooms@[k].room_id@ == d);
                }
                true
            },
        }
    }

    /// Publish one event on the channel of the room at a known position.
    fn publish_to_index(&mut self, i: usize, ev: String)
        requires
            old(self).wf(),
            i < old(self).rooms@.len(),
            old(self).rooms@[i as int].channel.published < u64::MAX,
        ensures
            final(self).wf(),
            final(self).default_id == old(self).default_id,
            final(self).rooms@.len() == old(self).rooms@.len(),
            forall|j: int|
                0 <= j < old(self).rooms@.len() && j != i ==> final(self).rooms@[j] == old(
                    self,
                ).rooms@[j],
            spec_same_but_channel(final(self).rooms@[i as int], old(self).rooms@[i as int]),
            final(self).rooms@[i as int].channel.window@ == spec_publish_window(
                old(self).rooms@[i as int].channel.window@,
                ev,
            ),
            spec_publish_view(
                old(self).rooms@[i as int].channel,
                final(self).rooms@[i as int].channel,
                ev@,
            ),
    {
        self.rooms[i].channel.publish(ev);
        proof {
            let idx = i as int;
            assert(self.rooms@[idx].member_views() =~= old(self).rooms@[idx].member_views());
            assert(self.ids() =~= old(self).ids());
            let d = self.default_id@;
            let k = old(self).index_of(d);
            assert(old(self).rooms@[k].room_id@ == d);
            assert(self.rooms@[k].room_id@ == d);
        }
    }

    /// Publish a `Leave` event for the name on the room's channel and take
    /// the name off its member list, if the room exists; a session may close
    /// after its room is gone, which changes nothing.
    pub fn leave_room(&mut self, id: &String, name: &String)
        requires
            old(self).wf(),
            old(self).has_room(id@) ==> old(self).room_of(id@).channel.published < u64::MAX,
        ensures
            final(self).wf(),
            final(self).default_id == old(self).default_id,
            !old(self).has_room(id@) ==> *final(self) == *old(self),
            old(self).has_room(id@) ==> ({
                let idx = old(self).index_of(id@);
                &&& final(self).rooms@.len() == old(self).rooms@.len()
                &&& (forall|j: int|
                    0 <= j < old(self).rooms@.len() && j != idx ==> final(self).rooms@[j] == old(
                        self,
                    ).rooms@[j])
                &&& final(self).rooms@[idx].room_id == old(self).rooms@[idx].room_id
                &&& final(self).rooms@[idx].content == old(self).rooms@[idx].content
                &&& final(self).rooms@[idx].version == old(self).rooms@[idx].version
                &&& final(self).rooms@[idx].member_views() == spec_leave_members(
                    old(self).rooms@[idx].member_views(),
                    name@,
                )
                &&& spec_publish_view(
                    old(self).rooms@[idx].channel,
                    final(self).rooms@[idx].channel,
                    spec_event_json(EventKind::Leave, None, name@),
                )
            }),
    {
        let found = self.find_index(id);
        match found {
            None => {},
            Some(i) => {
                let ev = encode_event(EventKind::Leave, None, name);
                self.publish_to_index(i, ev);
                let ghost mid = *self;
                let pos = find_name_index(&self.rooms[i].members, name);
                match pos {
                    None => {},
                    Some(k) => {
                        self.rooms[i].members.remove(k);
                        proof {
                            let idx = i as int;
                            let old_views = mid.rooms@[idx].member_views();
                            assert(self.rooms@[idx].member_views() =~= old_views.remove(
                                k as int,
                            ));
                            assert(old_views[k as int] == name@);
                            assert(old_views.contains(name@));
                            assert(old_views.index_of(name@) == k as int) by {
                                let j = old_views.index_of(name@);
                                if j < k as int {
                                    assert(old_views[j] != old_views[k as int]);
                                } else if j > k as int {
                                    assert(old_views[k as int] != old_views[j]);
                                }
                            }
                            assert(spec_members_unique(self.rooms@[idx].member_views())) by {
                                let nv = self.rooms@[idx].member_views();
                                assert forall|a: int, b: int|
                                    0 <= a < b < nv.len() implies nv[a] != nv[b] by {
                                    if b < k as int {
                                        assert(nv[a] == old_views[a] && nv[b] == old_views[b]);
                                    } else if a < k as int {
                                        assert(nv[a] == old_views[a] && nv[b] == old_views[b
                                            + 1]);
                                    } else {
                                        assert(nv[a] == old_views[a + 1] && nv[b] == old_views[b
                                            + 1]);
                                    }
                                }
                            }
                            assert(self.ids() =~= mid.ids());
                            let d = self.default_id@;
                            let m = mid.index_of(d);
                            assert(mid.rooms@[m].room_id@ == d);
                            assert(self.rooms@[m].room_id@ == d);
                        }
                    },
                }
            },
        }
    }

    /// The inbound half of relaying: overwrite the room's content with the
    /// text and publish it as a `Message` event under the sender's name, if
    /// the room still exists; a session may outlive its room, in which case
    /// nothing changes.
    pub fn publish_message(&mut self, id: &String, username: &String, text: &String) -> (delivered:
        bool)
        requires
            old(self).wf(),
            old(self).has_room(id@) ==> old(self).room_of(id@).version < u64::MAX && old(
                self,
            ).room_of(id@).channel.published < u64::MAX,
        ensures
            final(self).wf(),
            final(self).default_id == old(self).default_id,
            delivered == old(self).has_room(id@),
            !delivered ==> *final(self) == *old(self),
            delivered ==> ({
                let idx = old(self).index_of(id@);
                &&& final(self).rooms@.len() == old(self).rooms@.len()
                &&& (forall|j: int|
                    0 <= j < old(self).rooms@.len() && j != idx ==> final(self).rooms@[j] == old(
                        self,
                    ).rooms@[j])
                &&& final(self).rooms@[idx].room_id == old(self).rooms@[idx].room_id
                &&& final(self).rooms@[idx].members == old(self).rooms@[idx].members
                &&& final(self).rooms@[idx].content == *text
                &&& final(self).rooms@[idx].version == old(self).rooms@[idx].version + 1
                &&& spec_publish_view(
                    old(self).rooms@[idx].channel,
                    final(self).rooms@[idx].channel,
                    spec_event_json(EventKind::Message, Some(text@), username@),
                )
            }),
    {
        let found = self.find_index(id);
        match found {
            None => false,
            Some(i) => {
                self.set_content(id, text);
                proof {
                    self.lemma_index_of(id@, i as int);
                }
                let ev = encode_event(EventKind::Message, Some(text), username);
                self.publish_to_index(i, ev);
                true
            },
        }
    }

    /// Publish an `update-rooms-list` event on every room's channel, leaving
    /// out the room named in `except` — the cross-room notice that the set
    /// of rooms, or some room's membership, changed.
    pub fn broadcast_rooms_update(&mut self, except: Option<&String>)
        requires
            old(self).wf(),
            old(self).can_publish_all(),
        ensures
            final(self).wf(),
            final(self).default_id == old(self).default_id,
            final(self).rooms@.len() == old(self).rooms@.len(),
            forall|j: int|
                0 <= j < old(self).rooms@.len() ==> #[trigger] spec_same_but_channel(
                    final(self).rooms@[j],
                    old(self).rooms@[j],
                ) && (if spec_skips(crate::event::spec_opt_view(except), old(
                    self,
                ).rooms@[j].room_id@) {
                    final(self).rooms@[j] == old(self).rooms@[j]
                } else {
                    spec_publish_view(
                        old(self).rooms@[j].channel,
                        final(self).rooms@[j].channel,
                        spec_event_json(EventKind::UpdateRoomsList, None, Seq::<char>::empty()),
                    )
                }),
    {
        let n = self.rooms.len();
        let mut j: usize = 0;
        while j < n
            invariant
                j <= n,
                n == old(self).rooms@.len(),
                self.rooms@.len() == n,
                self.wf(),
                self.default_id == old(self).default_id,
                old(self).can_publish_all(),
                forall|m: int| j <= m < n ==> self.rooms@[m] == old(self).rooms@[m],
                forall|m: int|
                    0 <= m < j ==> #[trigger] spec_same_but_channel(
                        self.rooms@[m],
                        old(self).rooms@[m],
                    ) && (if spec_skips(crate::event::spec_opt_view(except), old(
                        self,
                    ).rooms@[m].room_id@) {
                        self.rooms@[m] == old(self).rooms@[m]
                    } else {
                        spec_publish_view(
                            old(self).rooms@[m].channel,
                            self.rooms@[m].channel,
                            spec_event_json(EventKind::UpdateRoomsList, None, Seq::<char>::empty()),
                        )
                    }),
            decreases n - j,
        {
            let ghost pre = *self;
            let skip: bool = match except {
                Some(e) => self.rooms[j].room_id == *e,
                None => false,
            };
            if !skip {
                let empty_name = String::new();
                let ev = encode_event(EventKind::UpdateRoomsList, None, &empty_name);
                proof {
                    assert(ev@ == spec_event_json(
                        EventKind::UpdateRoomsList,
                        None,
                        Seq::<char>::empty(),
                    ));
                }
                self.publish_to_index(j, ev);
                proof {
                    assert(pre.rooms@[j as int] == old(self).rooms@[j as int]);
                    assert(spec_publish_view(
                        old(self).rooms@[j as int].channel,
                        self.rooms@[j as int].channel,
                        spec_event_json(EventKind::UpdateRoomsList, None, Seq::<char>::empty()),
                    ));
                }
            }
            proof {
                let jj = j as int;
                assert(skip == spec_skips(
                    crate::event::spec_opt_view(except),
                    old(self).rooms@[jj].room_id@,
                ));
                assert(spec_same_but_channel(self.rooms@[jj], old(self).rooms@[jj]));
                assert forall|m: int| 0 <= m < jj + 1 implies spec_same_but_channel(
                    self.rooms@[m],
                    old(self).rooms@[m],
                ) && (if spec_skips(crate::event::spec_opt_view(except), old(
                    self,
                ).rooms@[m].room_id@) {
                    self.rooms@[m] == old(self).rooms@[m]
                } else {
                    spec_publish_view(
                        old(self).rooms@[m].channel,
                        self.rooms@[m].channel,
                        spec_event_json(EventKind::UpdateRoomsList, None, Seq::<char>::empty()),
                    )
                }) by {
                    if m < jj {
                        assert(self.rooms@[m] == pre.rooms@[m]);
                        assert(spec_same_but_channel(pre.rooms@[m], old(self).rooms@[m]));
                    }
                }
            }
            j += 1;
        }
    }

    /// Remove a room. The default room is protected; an absent room is a
    /// successful no-op; the last room, and a room more than one member is
    /// still in, are kept. On removal every surviving room is told to
    /// refresh its rooms list. The caller owns the persisted record, if any,
    /// and deletes it on `Removed`.
    pub fn remove_room(&mut self, id: &String) -> (r: Result<RemoveOutcome, RemoveError>)
        requires
            old(self).wf(),
            spec_remove_check(*old(self), id@) == Ok::<RemoveOutcome, RemoveError>(
                RemoveOutcome::Removed,
            ) ==> old(self).can_publish_all(),
        ensures
            final(self).wf(),
            final(self).default_id == old(self).default_id,
            r == spec_remove_check(*old(self), id@),
            r != Ok::<RemoveOutcome, RemoveError>(RemoveOutcome::Removed) ==> *final(self) == *old(
                self,
            ),
            r == Ok::<RemoveOutcome, RemoveError>(RemoveOutcome::Removed) ==> ({
                let idx = old(self).index_of(id@);
                &&& final(self).rooms@.len() == old(self).rooms@.len() - 1
                &&& !final(self).has_room(id@)
                &&& (forall|j: int|
                    #![trigger old(self).rooms@[j]]
                    0 <= j < old(self).rooms@.len() && j != idx ==> ({
                        let k = if j < idx {
                            j
                        } else {
                            j - 1
                        };
                        &&& spec_same_but_channel(final(self).rooms@[k], old(self).rooms@[j])
                        &&& spec_publish_view(
                            old(self).rooms@[j].channel,
                            final(self).rooms@[k].channel,
                            spec_event_json(EventKind::UpdateRoomsList, None, Seq::<char>::empty()),
                        )
                    }))
            }),
    {
        if *id == self.default_id {
            return Err(RemoveError::Forbidden);
        }
        let found = self.find_index(id);
        match found {
            None => Ok(RemoveOutcome::AlreadyAbsent),
            Some(i) => {
                if self.rooms.len() == 1 {
                    Err(RemoveError::Conflict)
                } else if self.rooms[i].members.len() > 1 {
                    proof {
                        assert(old(self).members_of(id@).len() == old(self).rooms@[
                        i as int].members@.len());
                    }
                    Err(RemoveError::Conflict)
                } else {
                    proof {
                        assert(old(self).members_of(id@).len() == old(self).rooms@[
                        i as int].members@.len());
                        assert(spec_remove_check(*old(self), id@) == Ok::<
                            RemoveOutcome,
                            RemoveError,
                        >(RemoveOutcome::Removed));
                    }
                    self.rooms.remove(i);
                    proof {
                        let ii = i as int;
                        let oldr = old(self).rooms@;
                        assert(self.rooms@ =~= oldr.remove(ii));
                        assert forall|a: int, b: int|
                            0 <= a < b < self.rooms@.len() implies (
                        #[trigger] self.rooms@[a]).room_id@ != (
                        #[trigger] self.rooms@[b]).room_id@ by {
                            let a0 = if a < ii {
                                a
                            } else {
                                a + 1
                            };
                            let b0 = if b < ii {
                                b
                            } else {
                                b + 1
                            };
                            assert(self.rooms@[a] == oldr[a0] && self.rooms@[b] == oldr[b0]);
                            assert(oldr[a0].room_id@ != oldr[b0].room_id@);
                        }
                        let d = self.default_id@;
                        let k = old(self).index_of(d);
                        assert(old(self).rooms@[k].room_id@ == d);
                        assert(k != ii);
                        let k2 = if k < ii {
                            k
                        } else {
                            k - 1
                        };
                        assert(self.rooms@[k2] == oldr[k]);
                        assert(self.has_room(d));
                        assert forall|m: int| 0 <= m < self.rooms@.len() implies (
                        #[trigger] self.rooms@[m]).wf() && self.rooms@[m].channel.published
                            < u64::MAX by {
                            let m0 = if m < ii {
                                m
                            } else {
                                m + 1
                            };
                            assert(self.rooms@[m] == oldr[m0]);
                            assert(oldr[m0].wf() && oldr[m0].channel.published < u64::MAX);
                        }
                    }
                    let ghost mid = *self;
                    self.broadcast_rooms_update(None);
                    proof {
                        let ii = i as int;
                        let oldr = old(self).rooms@;
                        assert forall|m: int| 0 <= m < self.rooms@.len() implies (
                        #[trigger] self.rooms@[m]).room_id@ != id@ by {
                            let m0 = if m < ii {
                                m
                            } else {
                                m + 1
                            };
                            assert(mid.rooms@[m] == oldr[m0]);
                            assert(spec_same_but_channel(self.rooms@[m], mid.rooms@[m]));
                            assert(oldr[m0].room_id@ != id@) by {
                                if m0 < ii {
                                    assert(oldr[m0].room_id@ != oldr[ii].room_id@);
                                } else {
                                    assert(oldr[ii].room_id@ != oldr[m0].room_id@);
                                }
                            }
                        }
                        assert(!self.has_room(id@));
                        assert forall|j: int|
                            #![trigger oldr[j]]
                            0 <= j < oldr.len() && j != ii implies ({
                            let k = if j < ii {
                                j
                            } else {
                                j - 1
                            };
                            &&& spec_same_but_channel(self.rooms@[k], oldr[j])
                            &&& spec_publish_view(
                                oldr[j].channel,
                                self.rooms@[k].channel,
                                spec_event_json(
                                    EventKind::UpdateRoomsList,
                                    None,
                                    Seq::<char>::empty(),
                                ),
                            )
                        }) by {
                            let k = if j < ii {
                                j
                            } else {
                                j - 1
                            };
                            assert(mid.rooms@[k] == oldr[j]);
                            assert(spec_same_but_channel(self.rooms@[k], mid.rooms@[k]));
                            assert(!spec_skips(
                                crate::event::spec_opt_view(None),
                                mid.rooms@[k].room_id@,
                            ));
                        }
                    }
                    Ok(RemoveOutcome::Removed)
                }
            },
        }
    }

    /// Seed one room from a persisted record at startup: the room is brought
    /// into being if needed and its content set, without any broadcast.
    pub fn restore_room(&mut self, id: &String, content: &String)
        requires
            old(self).wf(),
            old(self).has_room(id@) ==> old(self).room_of(id@).version < u64::MAX,
        ensures
            final(self).wf(),
            final(self).default_id == old(self).default_id,
            final(self).has_room(id@),
            final(self).content_of(id@) == content@,
            final(self).rooms@.len() == old(self).rooms@.len() + (if old(self).has_room(id@) {
                0int
            } else {
                1int
            }),
            forall|j: int|
                0 <= j < old(self).rooms@.len() && (#[trigger] old(self).rooms@[j]).room_id@ != id@
                    ==> final(self).rooms@[j] == old(self).rooms@[j],
    {
        let created = self.get_or_create(id);
        proof {
            if created {
                assert(self.rooms@[old(self).rooms@.len() as int].room_id@ == id@);
            }
            assert forall|j: int|
                0 <= j < old(self).rooms@.len() && (#[trigger] old(self).rooms@[j]).room_id@
                    != id@ implies self.rooms@[j] == old(self).rooms@[j] by {
                if created {
                    assert(self.rooms@[j] == self.rooms@.subrange(
                        0,
                        old(self).rooms@.len() as int,
                    )[j]);
                }
            }
        }
        let ghost mid = *self;
        self.set_content(id, content);
        proof {
            let idx = mid.index_of(id@);
            if old(self).has_room(id@) {
                old(self).lemma_index_of(id@, idx);
            }
            assert(self.rooms@[idx].room_id@ == id@);
            self.lemma_index_of(id@, idx);
            assert forall|j: int|
                0 <= j < old(self).rooms@.len() && (#[trigger] old(self).rooms@[j]).room_id@
                    != id@ implies self.rooms@[j] == old(self).rooms@[j] by {
                assert(mid.rooms@[j] == old(self).rooms@[j]);
                assert(j != idx);
            }
        }
    }

    /// Snapshot a room's content and its change counter, for a persistence
    /// tick; nothing for a room that no longer exists.
    pub fn content_version(&self, id: &String) -> (r: Option<(String, u64)>)
        requires
            self.wf(),
        ensures
            match r {
                Some(p) => self.has_room(id@) && p.0@ == self.content_of(id@) && p.1
                    == self.room_of(id@).version,
                None => !self.has_room(id@),
            },
    {
        let found = self.find_index(id);
        match found {
            None => None,
            Some(i) => Some((self.rooms[i].content.clone(), self.rooms[i].version)),
        }
    }

    /// Receive the next event a subscriber of the room's channel is owed,
    /// advancing its cursor; nothing when the subscriber is caught up or the
    /// room is gone.
    pub fn recv_event(&self, id: &String, cursor: &mut u64) -> (r: Option<String>)
        requires
            self.wf(),
        ensures
            !self.has_room(id@) ==> r is None && *final(cursor) == *old(cursor),
            self.has_room(id@) ==> (match spec_recv(
                self.room_of(id@).channel.window@,
                self.room_of(id@).channel.published as int,
                *old(cursor) as int,
            ) {
                Some(p) => r == Some(p.0) && *final(cursor) == p.1,
                None => r is None && *final(cursor) == *old(cursor),
            }),
    {
        let found = self.find_index(id);
        match found {
            None => None,
            Some(i) => self.rooms[i].channel.recv(cursor),
        }
    }

    /// Snapshot every room: its identifier and its member names, in the
    /// registry's order.
    pub fn list(&self) -> (r: Vec<(String, Vec<String>)>)
        requires
            self.wf(),
        ensures
            r@.len() == self.rooms@.len(),
            forall|i: int|
                0 <= i < r@.len() ==> (#[trigger] r@[i]).0@ == self.rooms@[i].room_id@ && r@[i].1@
                    == self.rooms@[i].members@,
    {
        let n = self.rooms.len();
        let mut out: Vec<(String, Vec<String>)> = Vec::new();
        let mut i: usize = 0;
        while i < n
            invariant
                i <= n,
                n == self.rooms@.len(),
                out@.len() == i,
                forall|k: int|
                    0 <= k < i ==> (#[trigger] out@[k]).0@ == self.rooms@[k].room_id@ && out@[k].1@
                        == self.rooms@[k].members@,
            decreases n - i,
        {
            let id = self.rooms[i].room_id.clone();
            let members = self.rooms[i].members.clone();
            proof {
                assert forall|m: int|
                    0 <= m < members@.len() implies members@[m] == self.rooms@[
                i as int].members@[m] by {
                    assert(cloned::<String>(self.rooms@[i as int].members@[m], members@[m]));
                }
                assert(members@ =~= self.rooms@[i as int].members@);
            }
            out.push((id, members));
            i += 1;
        }
        out
    }

    /// The room-side effects of a join, in order: the room is looked up or
    /// created, the name is added to its members (at most once), every other
    /// room is told to refresh its rooms list, a subscription is taken, and
    /// a `Join` event for the name is published on the room's channel — so
    /// the returned subscription observes the `Join` event itself. Returns
    /// the room's content as it stood at the join, and the subscription
    /// cursor.
    pub fn join_room(&mut self, id: &String, name: &String) -> (r: (String, u64))
        requires
            old(self).wf(),
            old(self).can_publish_all(),
        ensures
            final(self).wf(),
            final(self).default_id == old(self).default_id,
            final(self).has_room(id@),
            // the content at join time, handed back for the greeting
            r.0@ == (if old(self).has_room(id@) {
                old(self).content_of(id@)
            } else {
                Seq::<char>::empty()
            }),
            final(self).content_of(id@) == r.0@,
            final(self).room_of(id@).version == (if old(self).has_room(id@) {
                old(self).room_of(id@).version
            } else {
                0
            }),
            final(self).room_of(id@).channel.published == (if old(self).has_room(id@) {
                old(self).room_of(id@).channel.published
            } else {
                0
            }) + 1,
            // the name is a member exactly once, however often it joins
            final(self).members_of(id@) == spec_join_members(
                (if old(self).has_room(id@) {
                    old(self).members_of(id@)
                } else {
                    Seq::<Seq<char>>::empty()
                }),
                name@,
            ),
            spec_count(final(self).members_of(id@), name@) == 1,
            // the subscription observes the Join event as its first event
            (match spec_recv(
                final(self).room_of(id@).channel.window@,
                final(self).room_of(id@).channel.published as int,
                r.1 as int,
            ) {
                Some(p) => p.0@ == spec_event_json(EventKind::Join, None, name@) && p.1
                    == final(self).room_of(id@).channel.published,
                None => false,
            }),
            // every other room keeps its members and content and is told to
            // refresh its rooms list
            forall|j: int|
                #![trigger old(self).rooms@[j]]
                0 <= j < old(self).rooms@.len() && old(self).rooms@[j].room_id@ != id@ ==> ({
                    &&& spec_same_but_channel(final(self).rooms@[j], old(self).rooms@[j])
                    &&& spec_publish_view(
                        old(self).rooms@[j].channel,
                        final(self).rooms@[j].channel,
                        spec_event_json(EventKind::UpdateRoomsList, None, Seq::<char>::empty()),
                    )
                }),
            // no room disappears
            final(self).rooms@.len() == old(self).rooms@.len() + (if old(self).has_room(id@) {
                0int
            } else {
                1int
            }),
    {
        let created = self.get_or_create(id);
        let ghost g1 = *self;
        proof {
            if created {
                assert(g1.rooms@[old(self).rooms@.len() as int].room_id@ == id@);
                assert(g1.index_of(id@) == old(self).rooms@.len());
            } else {
                assert(g1.index_of(id@) == old(self).index_of(id@));
            }
        }
        self.add_member(id, name);
        let ghost g2 = *self;
        let found = self.find_index(id);
        let i = match found {
            Some(i) => i,
            None => {
                proof {
                    assert(false);
                }
                0
            },
        };
        let content = self.rooms[i].content.clone();
        proof {
            // every channel can still take one event: creation added a fresh
            // channel and the member add touched none
            assert forall|m: int|
                0 <= m < self.rooms@.len() implies (#[trigger] self.rooms@[m]).channel.published
                < u64::MAX by {
                assert(g2.rooms@[m].channel == g1.rooms@[m].channel);
                if created && m == old(self).rooms@.len() as int {
                    assert(g1.rooms@[m].channel.published == 0);
                } else {
                    assert(g1.rooms@[m] == g1.rooms@.subrange(0, old(self).rooms@.len() as int)[m]
                        || !created);
                    assert(g1.rooms@[m] == old(self).rooms@[m]);
                }
            }
        }
        self.broadcast_rooms_update(Some(id));
        let ghost g3 = *self;
        proof {
            assert(g3.rooms@[i as int] == g2.rooms@[i as int]) by {
                assert(spec_same_but_channel(g3.rooms@[i as int], g2.rooms@[i as int]));
                assert(spec_skips(
                    crate::event::spec_opt_view(Some(id)),
                    g2.rooms@[i as int].room_id@,
                ));
            }
            g3.lemma_index_of(id@, i as int);
            assert(g3.rooms@[i as int].channel.published < u64::MAX) by {
                if created {
                    assert(g1.rooms@[i as int].channel.published == 0);
                } else {
                    assert(g1.rooms@[i as int].channel == old(self).rooms@[old(self).index_of(
                        id@,
                    )].channel);
                }
            }
        }
        let cursor = self.rooms[i].channel.subscribe();
        let ev = encode_event(EventKind::Join, None, name);
        let ghost pre_join = self.rooms@[i as int].channel;
        self.publish_to_index(i, ev);
        proof {
            self.lemma_index_of(id@, i as int);
            crate::broadcast::lemma_publish_then_recv(
                pre_join,
                self.rooms@[i as int].channel,
                spec_event_json(EventKind::Join, None, name@),
            );
            // membership facts carried from the add
            let idx0 = g1.index_of(id@);
            assert(idx0 == i as int);
            if created {
                assert(g1.rooms@[idx0].member_views() =~= Seq::<Seq<char>>::empty());
            } else {
                assert(g1.rooms@[idx0] == old(self).rooms@[old(self).index_of(id@)]);
            }
            lemma_join_member_once(g1.rooms@[idx0].member_views(), name@);
            assert(self.rooms@[i as int].member_views() == g2.rooms@[i as int].member_views());
            // other rooms: positions below the old length are unchanged by
            // creation, then touched only by the rooms-list broadcast
            assert forall|j: int|
                #![trigger old(self).rooms@[j]]
                0 <= j < old(self).rooms@.len() && old(self).rooms@[j].room_id@ != id@ implies ({
                &&& spec_same_but_channel(self.rooms@[j], old(self).rooms@[j])
                &&& spec_publish_view(
                    old(self).rooms@[j].channel,
                    self.rooms@[j].channel,
                    spec_event_json(EventKind::UpdateRoomsList, None, Seq::<char>::empty()),
                )
            }) by {
                if created {
                    assert(g1.rooms@[j] == g1.rooms@.subrange(0, old(self).rooms@.len() as int)[j]);
                }
                assert(g1.rooms@[j] == old(self).rooms@[j]);
                assert(j != i as int);
                assert(g2.rooms@[j] == g1.rooms@[j]);
                assert(!spec_skips(
                    crate::event::spec_opt_view(Some(id)),
                    g2.rooms@[j].room_id@,
                ));
                assert(spec_same_but_channel(g3.rooms@[j], g2.rooms@[j]));
                assert(self.rooms@[j] == g3.rooms@[j]);
            }
        }
        (content, cursor)
    }
}

} // verus!
