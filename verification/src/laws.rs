//! What holds of the server as a whole: properties that relate several actions, or hold of
//! every state that actions lead to.

use crate::json::{field, number_field, text_field, JsonData};
use crate::names::lemma_names;
use crate::ops::{
    channel_key, create_room_outcome, destroy_room_outcome, destroyed, dm_outcome, event_outcome,
    event_refusal, inbox_entries, inbox_entry, is_action, is_event_kind, is_state, join_outcome,
    kick_outcome, leave_outcome, messages_json, needed, not_member, not_owner, outcome, peeks,
    read_from, read_outcome, refused, refused_early, send_outcome, unread, Outcome,
};
use crate::requests::{
    given, holds, holds_int_or_null, lemma_entry_told, lemma_unread_waits, says_enough,
    tells_message,
};
use crate::server::is_wakeful;
use crate::store::{owner_of, relevant_keys};
use crate::tables::{
    channels, cursor_of, lemma_filter_messages, lemma_lists_exist, lemma_messages_after, lists,
    messages_after, no_tables, no_times, rooms_of, sorted, well_formed, with_agent, with_event,
    with_message, with_ts, without_members_of, without_room, MessageData, ProgressData, Tables,
};
use crate::text::{has_part, lemma_first_of, lemma_text_le_antisym, lemma_text_le_total, text_le};
use vstd::prelude::*;

verus! {

/// What holds of every state: numbers are in order, no cursor is ahead of the messages, a
/// member's room exists, and every agent is in one of the known states.
pub open spec fn sound(t: Tables) -> bool {
    &&& well_formed(t)
    &&& forall|k: (Seq<char>, Seq<char>)|
        t.cursors.contains_key(k) ==> #[trigger] t.cursors[k] <= t.message_high
    &&& forall|m: (Seq<char>, Seq<char>)| #[trigger]
        t.members.contains(m) ==> t.rooms.contains_key(m.0)
    &&& forall|a: Seq<char>| t.agents.contains_key(a) ==> is_state(#[trigger] t.agents[a])
}

/// A mission that has not begun is in a sound state.
pub proof fn law_beginning_is_sound()
    ensures
        sound(with_ts(no_tables())),
{
}

/// Making an agent known keeps the state sound.
pub proof fn law_touch_keeps_sound(t: Tables, agent: Seq<char>)
    requires
        sound(t),
    ensures
        sound(with_agent(t, agent)),
{
}

/// The last of the messages read is not ahead of the messages.
proof fn lemma_read_last(t: Tables, room: Seq<char>, since: int)
    requires
        well_formed(t),
    ensures
        ({
            let found = messages_after(t.messages, set![room], since);
            found.len() > 0 ==> found.last().seq <= t.message_high
        }),
{
    lemma_messages_after(t, set![room], since);
}

/// Destroying a room keeps the state sound.
proof fn lemma_destroyed_sound(t: Tables, room: Seq<char>)
    requires
        sound(t),
    ensures
        sound(destroyed(t, room)),
{
    let t1 = without_members_of(without_room(t, room), room);
    let keep = |m: MessageData| m.room != room;
    lemma_filter_messages(t.messages, keep);
    let t2 = destroyed(t, room);
    assert(t2.messages == t.messages.filter(keep));
    assert forall|i: int| 0 <= i < t2.messages.len() implies 0 < (#[trigger] t2.messages[i]).seq
        <= t2.message_high by {
        assert(t.messages.contains(t2.messages[i]));
        let k = choose|k: int| 0 <= k < t.messages.len() && t.messages[k] == t2.messages[i];
        assert(t.messages[k].seq <= t.message_high);
    }
}

/// Whatever is asked, the state stays sound.
#[verifier::rlimit(60)]
pub proof fn law_actions_keep_sound(
    t: Tables,
    action: Seq<char>,
    agent: Seq<char>,
    b: JsonData,
    now: int,
    noted: bool,
)
    requires
        sound(t),
    ensures
        outcome(t, action, agent, b, now, noted) matches Outcome::Done { tables, .. } ==> sound(tables),
{
    match needed(b, "room"@) {
        Some(room) => {
            lemma_read_last(t, room, read_from(t, agent, room, b));
            lemma_destroyed_sound(t, room);
        },
        None => {},
    }
}

/// Which requests are refused for what they say depends on them alone: no state of the tables
/// makes them succeed. Unknown actions are among them.
pub proof fn law_refused_early(
    t: Tables,
    action: Seq<char>,
    agent: Seq<char>,
    b: JsonData,
    now: int,
    noted: bool,
)
    ensures
        refused_early(action, b) ==> outcome(t, action, agent, b, now, noted) is Refused,
        !is_action(action) ==> refused_early(action, b),
{
}

/// Opening an old database, whose messages have no times, keeps all rows and numbers: its
/// messages still have none, while new messages and events are taken with theirs. Opening it
/// again changes nothing.
pub proof fn law_migration_keeps_rows(
    t: Tables,
    room: Seq<char>,
    from: Seq<char>,
    text: Seq<char>,
    now: int,
    e: ProgressData,
)
    requires
        well_formed(t),
        no_times(t),
    ensures
        ({
            let opened = with_ts(t);
            &&& opened.has_ts
            &&& opened == (Tables { has_ts: true, ..t })
            &&& no_times(opened)
            &&& well_formed(opened)
            &&& with_ts(opened) == opened
            &&& with_message(opened, room, from, text, now).messages =~= t.messages.push(
                MessageData { seq: t.message_high + 1, room, from, text, ts: Some(now) },
            )
            &&& with_event(opened, e).events =~= t.events.push(
                ProgressData { seq: t.event_high + 1, ..e },
            )
        }),
{
}

/// A message that was sent is what every reader finds in that room behind all that it had not
/// read before: exactly it, and at the end. In other rooms nothing changes.
pub proof fn law_read_after_send(
    t: Tables,
    agent: Seq<char>,
    b: JsonData,
    now: int,
    reader: Seq<char>,
)
    requires
        sound(t),
        send_outcome(t, agent, b, now) is Done,
    ensures
        ({
            let room = needed(b, "room"@)->0;
            let text = needed(b, "text"@)->0;
            let after = send_outcome(t, agent, b, now)->tables;
            let m = MessageData {
                seq: t.message_high + 1,
                room,
                from: agent,
                text,
                ts: Some(now),
            };
            &&& unread(after, reader, room) =~= unread(t, reader, room).push(m)
            &&& forall|other: Seq<char>|
                other != room ==> #[trigger] unread(after, reader, other) == unread(
                    t,
                    reader,
                    other,
                )
        }),
{
    let room = needed(b, "room"@)->0;
    let text = needed(b, "text"@)->0;
    let after = send_outcome(t, agent, b, now)->tables;
    let m = MessageData { seq: t.message_high + 1, room, from: agent, text, ts: Some(now) };
    lemma_unread_push(t, after, m, reader);
}

/// One more message changes what is unread under its own key alone.
proof fn lemma_unread_push(t: Tables, after: Tables, m: MessageData, reader: Seq<char>)
    requires
        sound(t),
        after.messages == t.messages.push(m),
        after.cursors == t.cursors,
        m.seq == t.message_high + 1,
    ensures
        unread(after, reader, m.room) =~= unread(t, reader, m.room).push(m),
        forall|other: Seq<char>|
            other != m.room ==> #[trigger] unread(after, reader, other) == unread(
                t,
                reader,
                other,
            ),
{
    reveal(Seq::filter);
    assert(after.messages.drop_last() =~= t.messages);
    assert(cursor_of(t, reader, m.room) <= t.message_high);
    assert forall|other: Seq<char>| other != m.room implies #[trigger] unread(after, reader, other)
        == unread(t, reader, other) by {
        assert(!set![other].contains(m.room));
    }
}

/// A read that consumes leaves nothing behind: the next one that begins at the cursor finds
/// nothing and changes nothing. Left out is a read that begins so far ahead that it found
/// nothing although something was unread; it moves no cursor.
pub proof fn law_read_consumes(t: Tables, agent: Seq<char>, b: JsonData, next: JsonData)
    requires
        sound(t),
        read_outcome(t, agent, b) is Done,
        !peeks(b),
        messages_after(
            t.messages,
            set![needed(b, "room"@)->0],
            read_from(t, agent, needed(b, "room"@)->0, b),
        ).len() > 0 || unread(t, agent, needed(b, "room"@)->0).len() == 0,
        needed(next, "room"@) == needed(b, "room"@),
        number_field(next, "since"@) is None,
    ensures
        ({
            let room = needed(b, "room"@)->0;
            let after = read_outcome(t, agent, b)->tables;
            &&& unread(after, agent, room) =~= Seq::<MessageData>::empty()
            &&& read_outcome(after, agent, next) == (Outcome::Done {
                tables: after,
                reply: JsonData::Object(
                    map!["room"@ => JsonData::Text(room), "messages"@ => messages_json(Seq::empty())],
                ),
            })
        }),
{
    let room = needed(b, "room"@)->0;
    let after = read_outcome(t, agent, b)->tables;
    let since = read_from(t, agent, room, b);
    let found = messages_after(t.messages, set![room], since);
    lemma_nothing_behind_last(t, room, since);
    if found.len() > 0 {
        assert(cursor_of(after, agent, room) == found.last().seq);
    }
    assert(unread(after, agent, room) =~= Seq::<MessageData>::empty());
}

/// Behind the last message of a room there is none.
proof fn lemma_nothing_behind_last(t: Tables, room: Seq<char>, since: int)
    requires
        well_formed(t),
    ensures
        ({
            let found = messages_after(t.messages, set![room], since);
            found.len() > 0 ==> messages_after(t.messages, set![room], found.last().seq).len() == 0
        }),
{
    let found = messages_after(t.messages, set![room], since);
    if found.len() > 0 {
        lemma_messages_after(t, set![room], since);
        lemma_messages_after(t, set![room], found.last().seq);
        let more = messages_after(t.messages, set![room], found.last().seq);
        if more.len() > 0 {
            let m = more[0];
            assert(t.messages.contains(m));
            let k = choose|k: int| 0 <= k < t.messages.len() && t.messages[k] == m;
            assert(m.seq > found.last().seq && found.last().seq > since);
            assert(found.contains(t.messages[k]));
            let i = choose|i: int| 0 <= i < found.len() && found[i] == m;
            if i < found.len() - 1 {
                assert(found[i].seq < found[found.len() - 1].seq);
            }
        }
    }
}

/// Looking changes nothing: `register`, `whoami`, `agents`, `rooms`, `inbox`, `events`, and
/// `read` and `peek` with the flag that peeks.
pub proof fn law_looking_changes_nothing(
    t: Tables,
    action: Seq<char>,
    agent: Seq<char>,
    b: JsonData,
    now: int,
    noted: bool,
)
    requires
        action == "register"@ || action == "whoami"@ || action == "agents"@ || action == "rooms"@
            || action == "inbox"@ || action == "events"@ || ((action == "read"@ || action
            == "peek"@) && peeks(b)),
    ensures
        outcome(t, action, agent, b, now, noted) matches Outcome::Done { tables, .. } ==> tables == t,
{
    lemma_action_names();
}

/// The names of the actions differ.
proof fn lemma_action_names()
    ensures
        "register"@.len() == 8,
        "whoami"@.len() == 6,
        "agents"@.len() == 6,
        "whoami"@[0] == 'w',
        "agents"@[0] == 'a',
        "status"@.len() == 6,
        "status"@[0] == 's',
        "create-room"@.len() == 11,
        "rooms"@.len() == 5,
        "rooms"@[0] == 'r',
        "join"@.len() == 4,
        "join"@[0] == 'j',
        "leave"@.len() == 5,
        "leave"@[0] == 'l',
        "destroy-room"@.len() == 12,
        "send"@.len() == 4,
        "send"@[0] == 's',
        "dm"@.len() == 2,
        "read"@.len() == 4,
        "read"@[0] == 'r',
        "peek"@.len() == 4,
        "peek"@[0] == 'p',
        "inbox"@.len() == 5,
        "inbox"@[0] == 'i',
        "invite"@.len() == 6,
        "invite"@[0] == 'i',
        "kick"@.len() == 4,
        "kick"@[0] == 'k',
        "event"@.len() == 5,
        "event"@[0] == 'e',
        "events"@.len() == 6,
        "events"@[0] == 'e',
{
    reveal_strlit("register");
    reveal_strlit("whoami");
    reveal_strlit("agents");
    reveal_strlit("status");
    reveal_strlit("create-room");
    reveal_strlit("rooms");
    reveal_strlit("join");
    reveal_strlit("leave");
    reveal_strlit("destroy-room");
    reveal_strlit("send");
    reveal_strlit("dm");
    reveal_strlit("read");
    reveal_strlit("peek");
    reveal_strlit("inbox");
    reveal_strlit("invite");
    reveal_strlit("kick");
    reveal_strlit("event");
    reveal_strlit("events");
}

/// Messages and events are separate: only `send`, `dm` and `destroy-room` change messages,
/// only `event` changes events, and only a read that consumes moves a cursor, its caller's in
/// the room that it reads.
pub proof fn law_separate_streams(
    t: Tables,
    action: Seq<char>,
    agent: Seq<char>,
    b: JsonData,
    now: int,
    noted: bool,
)
    ensures
        outcome(t, action, agent, b, now, noted) matches Outcome::Done { tables, .. } ==> {
            &&& action != "send"@ && action != "dm"@ && action != "destroy-room"@
                ==> tables.messages == t.messages && tables.message_high == t.message_high
            &&& action != "event"@ ==> tables.events == t.events && tables.event_high
                == t.event_high
            &&& action != "read"@ && action != "peek"@ ==> tables.cursors == t.cursors
            &&& forall|a: Seq<char>, room: Seq<char>|
                a != agent || needed(b, "room"@) != Some(room) ==> #[trigger] cursor_of(
                    tables,
                    a,
                    room,
                ) == cursor_of(t, a, room)
        },
{
    lemma_action_names();
}

/// An action that changes what streams are sent wakes them. That its caller becomes known is
/// no action, and does not.
pub proof fn law_changes_wake(
    t: Tables,
    action: Seq<char>,
    agent: Seq<char>,
    b: JsonData,
    now: int,
    noted: bool,
)
    ensures
        outcome(t, action, agent, b, now, noted) matches Outcome::Done { tables, .. } ==> (
        tables.messages != t.messages || tables.events != t.events || tables.agents != t.agents
            || tables.rooms != t.rooms || tables.members != t.members) ==> is_wakeful(action),
{
    lemma_action_names();
}

/// Numbers only grow: an action gives out the next number or none, so a number is never
/// given to two messages, not even after a room was destroyed and made again.
pub proof fn law_numbers_grow(
    t: Tables,
    action: Seq<char>,
    agent: Seq<char>,
    b: JsonData,
    now: int,
    noted: bool,
)
    ensures
        outcome(t, action, agent, b, now, noted) matches Outcome::Done { tables, .. } ==> {
            &&& t.message_high <= tables.message_high <= t.message_high + 1
            &&& t.event_high <= tables.event_high <= t.event_high + 1
            &&& forall|i: int|
                0 <= i < tables.messages.len() ==> t.messages.contains(
                    #[trigger] tables.messages[i],
                ) || tables.messages[i].seq == t.message_high + 1
        },
{
    match needed(b, "room"@) {
        Some(room) => {
            let keep = |m: MessageData| m.room != room;
            let left = t.messages.filter(keep);
            assert forall|i: int| 0 <= i < left.len() implies t.messages.contains(
                #[trigger] left[i],
            ) by {
                assert(left.contains(left[i]));
                t.messages.lemma_filter_contains_rev(keep, left[i]);
            }
        },
        None => {},
    }
    match outcome(t, action, agent, b, now, noted) {
        Outcome::Done { tables, .. } => {
            assert forall|i: int| 0 <= i < tables.messages.len() implies t.messages.contains(
                #[trigger] tables.messages[i],
            ) || tables.messages[i].seq == t.message_high + 1 by {
                if i < t.messages.len() && tables.messages[i] == t.messages[i] {
                    assert(t.messages.contains(t.messages[i]));
                }
            }
        },
        _ => {},
    }
}

/// One who is no member of a room cannot write to it: the request is refused with 403.
pub proof fn law_only_members_send(t: Tables, agent: Seq<char>, b: JsonData, now: int)
    requires
        needed(b, "room"@) is Some,
        needed(b, "text"@) is Some,
        t.rooms.contains_key(needed(b, "room"@)->0),
        !t.members.contains((needed(b, "room"@)->0, agent)),
    ensures
        send_outcome(t, agent, b, now) == refused(403, not_member(agent, needed(b, "room"@)->0)),
{
}

/// Only the owner of a room can destroy it or take someone out of it.
pub proof fn law_only_owners_rule(t: Tables, agent: Seq<char>, b: JsonData)
    requires
        needed(b, "room"@) is Some,
        t.rooms.contains_key(needed(b, "room"@)->0),
        t.rooms[needed(b, "room"@)->0].owner != agent,
    ensures
        ({
            let room = needed(b, "room"@)->0;
            let owner = t.rooms[room].owner;
            &&& destroy_room_outcome(t, agent, b) == refused(403, not_owner(room, owner))
            &&& needed(b, "target"@) is Some ==> kick_outcome(t, agent, b) == refused(
                403,
                not_owner(room, owner),
            )
        }),
{
}

/// The owner may create a room a second time: nothing changes, and the answer is the same.
pub proof fn law_create_twice(t: Tables, agent: Seq<char>, b: JsonData)
    requires
        create_room_outcome(t, agent, b) is Done,
    ensures
        ({
            let after = create_room_outcome(t, agent, b)->tables;
            &&& create_room_outcome(after, agent, b) == create_room_outcome(t, agent, b)
            &&& owner_of(after, needed(b, "name"@)->0) == Some(agent)
        }),
{
}

/// A room that was just created belongs to its creator, who is its member and can write to it.
pub proof fn law_creator_is_member(t: Tables, agent: Seq<char>, b: JsonData)
    requires
        create_room_outcome(t, agent, b) is Done,
        owner_of(t, needed(b, "name"@)->0) is None,
    ensures
        ({
            let name = needed(b, "name"@)->0;
            let after = create_room_outcome(t, agent, b)->tables;
            after.members.contains((name, agent)) && after.rooms[name].owner == agent
        }),
{
}

/// A room that was destroyed is gone: nobody owns it, nobody is in it, nothing is in it. The
/// other rooms, and all cursors and events, are as they were.
pub proof fn law_destroyed_is_gone(t: Tables, agent: Seq<char>, b: JsonData)
    requires
        destroy_room_outcome(t, agent, b) is Done,
    ensures
        ({
            let room = needed(b, "room"@)->0;
            let after = destroy_room_outcome(t, agent, b)->tables;
            &&& owner_of(after, room) is None
            &&& forall|a: Seq<char>| !#[trigger] after.members.contains((room, a))
            &&& forall|i: int| 0 <= i < after.messages.len() ==> (#[trigger] after.messages[i]).room
                != room
            &&& forall|other: Seq<char>|
                other != room ==> #[trigger] owner_of(after, other) == owner_of(t, other)
            &&& forall|other: Seq<char>, a: Seq<char>|
                other != room ==> #[trigger] after.members.contains((other, a))
                    == t.members.contains((other, a))
            &&& forall|i: int|
                0 <= i < t.messages.len() && (#[trigger] t.messages[i]).room != room
                    ==> after.messages.contains(t.messages[i])
            &&& after.cursors == t.cursors
            &&& after.events == t.events
        }),
{
    let room = needed(b, "room"@)->0;
    let keep = |m: MessageData| m.room != room;
    let after = destroy_room_outcome(t, agent, b)->tables;
    assert(after.messages == t.messages.filter(keep));
    assert forall|i: int| 0 <= i < after.messages.len() implies (#[trigger] after.messages[i]).room
        != room by {
        t.messages.lemma_filter_pred(keep, i);
    }
    assert forall|i: int|
        0 <= i < t.messages.len() && (#[trigger] t.messages[i]).room
            != room implies after.messages.contains(t.messages[i]) by {
        t.messages.lemma_filter_contains(keep, i);
    }
}

/// Leaving undoes joining for one who was no member before.
pub proof fn law_leave_undoes_join(t: Tables, agent: Seq<char>, b: JsonData)
    requires
        join_outcome(t, agent, b) is Done,
        !t.members.contains((needed(b, "room"@)->0, agent)),
    ensures
        leave_outcome(join_outcome(t, agent, b)->tables, agent, b)->tables =~= t,
{
    let room = needed(b, "room"@)->0;
    let joined = join_outcome(t, agent, b)->tables;
    assert(joined.members.remove((room, agent)) =~= t.members);
}

/// The channel of two agents has one key, whoever of them writes.
pub proof fn law_channel_is_shared(a: Seq<char>, b: Seq<char>)
    ensures
        channel_key(a, b) == channel_key(b, a),
{
    lemma_text_le_total(a, b);
    if text_le(a, b) && text_le(b, a) {
        lemma_text_le_antisym(a, b);
    }
}

/// Both ends of a channel are parts of its key, if no name holds a bar.
proof fn lemma_channel_parts(a: Seq<char>, b: Seq<char>)
    requires
        !a.contains('|'),
        !b.contains('|'),
    ensures
        channel_key(a, b).len() > 0,
        channel_key(a, b)[0] == '@',
        has_part(channel_key(a, b).skip(1), '|', a),
        has_part(channel_key(a, b).skip(1), '|', b),
{
    reveal_strlit("@");
    reveal_strlit("|");
    let (x, y) = if text_le(a, b) {
        (a, b)
    } else {
        (b, a)
    };
    let key = channel_key(a, b);
    let tail = key.skip(1);
    assert(tail =~= x + seq!['|'] + y);
    assert(tail[x.len() as int] == '|');
    assert forall|j: int| 0 <= j < x.len() implies tail[j] != '|' by {
        assert(tail[j] == x[j]);
        assert(x.contains(x[j]));
    }
    lemma_first_of(tail, '|', x.len() as int);
    assert(tail.take(x.len() as int) =~= x);
    assert(tail.skip(x.len() as int + 1) =~= y);
    assert forall|j: int| 0 <= j < y.len() implies y[j] != '|' by {
        assert(y.contains(y[j]));
    }
    lemma_first_of(y, '|', y.len() as int);
    reveal_with_fuel(has_part, 2);
}

/// An inbox shows every key that has something unread.
proof fn lemma_inbox_shows(t: Tables, agent: Seq<char>, keys: Seq<Seq<char>>, key: Seq<char>)
    requires
        keys.contains(key),
        unread(t, agent, key).len() > 0,
    ensures
        inbox_entries(t, agent, keys).contains(inbox_entry(key, unread(t, agent, key))),
    decreases keys.len(),
{
    let entry = inbox_entry(key, unread(t, agent, key));
    let all = inbox_entries(t, agent, keys);
    let front = inbox_entries(t, agent, keys.drop_last());
    let i = choose|i: int| 0 <= i < keys.len() && keys[i] == key;
    if keys.last() == key {
        assert(all[all.len() - 1] == entry);
    } else {
        assert(keys.drop_last()[i] == key);
        lemma_inbox_shows(t, agent, keys.drop_last(), key);
        let j = choose|j: int| 0 <= j < front.len() && front[j] == entry;
        assert(all[j] == entry);
    }
}

/// A direct message reaches its addressee: it is the last thing unread in the channel of the
/// two, and the addressee's inbox has an entry for that channel whose messages end in one from
/// the sender with that text, also where the addressee could not be noted as known. Names with
/// a bar are left out: they cannot be told apart in a key.
pub proof fn law_dm_reaches_inbox(
    t: Tables,
    agent: Seq<char>,
    b: JsonData,
    now: int,
    noted: bool,
)
    requires
        sound(t),
        dm_outcome(t, agent, b, now, noted) is Done,
        !agent.contains('|'),
        !needed(b, "to"@)->0.contains('|'),
    ensures
        ({
            let to = needed(b, "to"@)->0;
            let after = dm_outcome(t, agent, b, now, noted)->tables;
            let key = channel_key(agent, to);
            let m = MessageData {
                seq: t.message_high + 1,
                room: key,
                from: agent,
                text: needed(b, "text"@)->0,
                ts: Some(now),
            };
            &&& unread(after, to, key) =~= unread(t, to, key).push(m)
            &&& relevant_keys(after, to).contains(key)
            &&& relevant_keys(after, agent).contains(key)
            &&& inbox_entries(after, to, relevant_keys(after, to)).contains(
                inbox_entry(key, unread(after, to, key)),
            )
            &&& forall|asked: JsonData, later: int|
                shows(#[trigger] outcome(after, "inbox"@, to, asked, later, true), key, m)
        }),
{
    let to = needed(b, "to"@)->0;
    let after = dm_outcome(t, agent, b, now, noted)->tables;
    let key = channel_key(agent, to);
    let m = MessageData {
        seq: t.message_high + 1,
        room: key,
        from: agent,
        text: needed(b, "text"@)->0,
        ts: Some(now),
    };
    lemma_unread_push(t, after, m, to);
    lemma_channel_parts(agent, to);
    assert(after.messages[after.messages.len() - 1] == m);
    assert(channels(after.messages).contains(key));
    lemma_channel_relevant(after, to, key);
    lemma_channel_relevant(after, agent, key);
    assert(unread(after, to, key).len() > 0);
    lemma_inbox_shows(after, to, relevant_keys(after, to), key);
    lemma_entry_told(after, to, key);
    lemma_unread_waits(after, to, key);
    let entry = inbox_entry(key, unread(after, to, key));
    let a = inbox_entries(after, to, relevant_keys(after, to));
    let i = choose|i: int| 0 <= i < a.len() && a[i] == entry;
    let told = field(entry, "messages"@)->0->Array_0;
    assert(tells_message(told[told.len() - 1], unread(after, to, key)[told.len() - 1]));
    assert(ends_in(a[i], key, m));
    assert forall|asked: JsonData, later: int| shows(
        #[trigger] outcome(after, "inbox"@, to, asked, later, true),
        key,
        m,
    ) by {
        lemma_inbox_reply(after, to, asked, later, i, key, m);
    }
}

/// An answer to `inbox` shows its entries.
proof fn lemma_inbox_reply(
    t: Tables,
    agent: Seq<char>,
    b: JsonData,
    now: int,
    i: int,
    key: Seq<char>,
    m: MessageData,
)
    requires
        0 <= i < inbox_entries(t, agent, relevant_keys(t, agent)).len(),
        ends_in(inbox_entries(t, agent, relevant_keys(t, agent))[i], key, m),
    ensures
        shows(outcome(t, "inbox"@, agent, b, now, true), key, m),
{
    lemma_names();
    let a = inbox_entries(t, agent, relevant_keys(t, agent));
    let reply = outcome(t, "inbox"@, agent, b, now, true)->reply;
    assert(field(reply, "inbox"@) == Some(JsonData::Array(a)));
    assert(has_entry(a, key, m)) by {
        assert(ends_in(a[i], key, m));
    }
}

/// An answer to `inbox` has an entry for `key` whose messages end in `m`.
pub open spec fn shows(o: Outcome, key: Seq<char>, m: MessageData) -> bool {
    o matches Outcome::Done { reply, .. } && (field(reply, "inbox"@) matches Some(
        JsonData::Array(a),
    ) && has_entry(a, key, m))
}

/// One of the entries of an inbox is about `key`, and its messages end in `m`.
pub open spec fn has_entry(a: Seq<JsonData>, key: Seq<char>, m: MessageData) -> bool {
    exists|i: int| 0 <= i < a.len() && ends_in(#[trigger] a[i], key, m)
}

/// An entry of an inbox that is about `key`, and whose messages end in `m`, as its number, its
/// sender, its text and its time say. It holds as many messages as it says.
pub open spec fn ends_in(d: JsonData, key: Seq<char>, m: MessageData) -> bool {
    &&& holds(d, "room"@, JsonData::Text(key))
    &&& field(d, "messages"@) matches Some(JsonData::Array(told)) && {
        &&& told.len() > 0
        &&& holds(d, "unread"@, JsonData::Int(told.len() as int))
        &&& holds(told.last(), "seq"@, JsonData::Int(m.seq))
        &&& holds(told.last(), "from"@, JsonData::Text(m.from))
        &&& holds(told.last(), "text"@, JsonData::Text(m.text))
        &&& holds_int_or_null(told.last(), "ts"@, m.ts)
    }
}

/// A channel that names an agent is relevant to it.
proof fn lemma_channel_relevant(t: Tables, agent: Seq<char>, key: Seq<char>)
    requires
        channels(t.messages).contains(key),
        has_part(key.skip(1), '|', agent),
    ensures
        relevant_keys(t, agent).contains(key),
{
    let s = channels(t.messages);
    lemma_channels_finite(t.messages);
    lemma_lists_exist(s);
    let all = sorted(s);
    assert(lists(all, s));
    assert(all.contains(key));
    let names = |key: Seq<char>| has_part(key.skip(1), '|', agent);
    let i = choose|i: int| 0 <= i < all.len() && all[i] == key;
    all.lemma_filter_contains(names, i);
    let kept = all.filter(names);
    let j = choose|j: int| 0 <= j < kept.len() && kept[j] == key;
    let rooms = sorted(rooms_of(t, agent));
    assert((rooms + kept)[rooms.len() + j] == key);
}

/// There are finitely many channels.
pub proof fn lemma_channels_finite(messages: Seq<MessageData>)
    ensures
        channels(messages).finite(),
{
    let keys = messages.map_values(|m: MessageData| m.room);
    vstd::seq_lib::seq_to_set_is_finite(keys);
    assert forall|k: Seq<char>| channels(messages).contains(k) implies keys.to_set().contains(
        k,
    ) by {
        let i = choose|i: int| 0 <= i < messages.len() && (#[trigger] messages[i]).room == k;
        assert(keys[i] == k);
    }
    vstd::set_lib::lemma_set_subset_finite(keys.to_set(), channels(messages));
}

/// One who joins a room and has read nothing there finds all of its messages unread, from the
/// first one on.
pub proof fn law_joiner_sees_backlog(t: Tables, agent: Seq<char>, b: JsonData)
    requires
        sound(t),
        join_outcome(t, agent, b) is Done,
        !t.cursors.contains_key((agent, needed(b, "room"@)->0)),
    ensures
        ({
            let room = needed(b, "room"@)->0;
            let after = join_outcome(t, agent, b)->tables;
            forall|i: int|
                0 <= i < t.messages.len() && (#[trigger] t.messages[i]).room == room ==> unread(
                    after,
                    agent,
                    room,
                ).contains(t.messages[i])
        }),
{
    let room = needed(b, "room"@)->0;
    let after = join_outcome(t, agent, b)->tables;
    lemma_messages_after(t, set![room], 0);
}

/// An event that was taken holds what its kind needs, and is found behind all earlier ones. It
/// is of the room and the kind that were asked for, of the caller and of the time, and holds the
/// fields of the request under their own names.
pub proof fn law_event_is_kept(t: Tables, agent: Seq<char>, b: JsonData, now: int)
    requires
        event_outcome(t, agent, b, now) is Done,
    ensures
        ({
            let after = event_outcome(t, agent, b, now)->tables;
            let e = after.events.last();
            &&& after.events.drop_last() =~= t.events
            &&& e.seq == t.event_high + 1
            &&& is_event_kind(e.kind)
            &&& event_refusal(e) is None
            &&& t.rooms.contains_key(e.room)
            &&& given(b, "room"@, e.room)
            &&& given(b, "kind"@, e.kind)
            &&& says_enough(b, e.kind)
            &&& e.agent == agent
            &&& e.ts == now
            &&& e.step_cur == number_field(b, "step_cur"@)
            &&& e.step_total == number_field(b, "step_total"@)
            &&& e.percent == number_field(b, "percent"@)
            &&& e.task == text_field(b, "task"@)
            &&& e.phase == text_field(b, "phase"@)
            &&& e.target == text_field(b, "target"@)
            &&& e.note == text_field(b, "note"@)
        }),
{
    lemma_names();
}

} // verus!
