use vstd::prelude::*;

use crate::cache::{law_add_appends_and_keeps_first, law_trim_keeps_newest, order_after_add, rooms_after_add, trimmed, ClientView, Clients, HISTORY_LIMIT};
use crate::command::{command_effect, command_kind, command_panics, CommandKind, run_command, CommandOutcome, ImageRequest, ImageView, OutcomeView};
use crate::content::{history_view, ContentUnit, ContentView};
use crate::message::{answer_frame, command_frame, frame_answer, frame_command_reply};

verus! {

/// How a turn of a conversation starts.
pub enum TurnStart {
    /// The line was a command; this is the framed answer to send back.
    Reply(String),
    /// The line asks for pictures; their addresses answer the command.
    Draw(ImageRequest),
    /// The line is a question; the assistant is asked with this history.
    Ask(Vec<ContentUnit>),
}

/// What the start of a turn stands for.
pub enum TurnStartView {
    Reply(Seq<char>),
    Draw(ImageView),
    Ask(Seq<ContentView>),
}

impl View for TurnStart {
    type V = TurnStartView;

    open spec fn view(&self) -> TurnStartView {
        match self {
            TurnStart::Reply(m) => TurnStartView::Reply(m@),
            TurnStart::Draw(req) => TurnStartView::Draw(req@),
            TurnStart::Ask(h) => TurnStartView::Ask(history_view(h@)),
        }
    }
}

/// A client with no rooms.
pub open spec fn fresh_client(addr: Seq<char>) -> ClientView {
    ClientView { addr: addr, rooms: Map::empty(), order: Seq::empty() }
}

/// The client registered under `addr`, or a fresh one.
pub open spec fn client_or_fresh(clients: Map<Seq<char>, ClientView>, addr: Seq<char>) -> ClientView {
    if clients.contains_key(addr) {
        clients[addr]
    } else {
        fresh_client(addr)
    }
}

/// The client `c` after the question `q` was added to room `room`.
pub open spec fn with_message(c: ClientView, room: Seq<char>, m: ContentView) -> ClientView {
    ClientView {
        addr: c.addr,
        rooms: rooms_after_add(c.rooms, room, m),
        order: order_after_add(c.rooms, c.order, room),
    }
}

/// How the line `line`, that client `addr` sent for room `room`, changes
/// the registry, and how the turn starts.
pub open spec fn turn_start(
    clients: Map<Seq<char>, ClientView>,
    addr: Seq<char>,
    room: Seq<char>,
    line: Seq<char>,
) -> (Map<Seq<char>, ClientView>, TurnStartView) {
    let c = client_or_fresh(clients, addr);
    let (c1, out) = command_effect(c, room, line);
    match out {
        OutcomeView::Reply(m) => (clients.insert(addr, c1), TurnStartView::Reply(command_frame(room, m))),
        OutcomeView::Draw(req) => (clients.insert(addr, c1), TurnStartView::Draw(req)),
        OutcomeView::NotACommand => {
            let c2 = with_message(c, room, ContentView::User(line));
            (clients.insert(addr, c2), TurnStartView::Ask(c2.rooms[room]))
        },
    }
}

/// Starts the turn of client `addr` that sent `line` for room `room_id`:
/// registers the client if it is new, carries out a command, or else
/// records the line as the user's question and returns the room's history
/// to ask the assistant with.
pub fn start_turn(clients: &mut Clients, addr: &String, room_id: &String, line: &String) -> (r: TurnStart)
    requires
        old(clients).wf(),
        !command_panics(line@),
    ensures
        final(clients).wf(),
        (final(clients)@, r@) == turn_start(old(clients)@, addr@, room_id@, line@),
{
    clients.add_client(addr.clone());
    match clients.get_client(addr.clone()) {
        Some(client) => {
            match run_command(client, room_id, line) {
                CommandOutcome::Reply(m) => TurnStart::Reply(frame_command_reply(room_id, &m)),
                CommandOutcome::Draw(req) => TurnStart::Draw(req),
                CommandOutcome::NotACommand => {
                    client.add_content(room_id, ContentUnit::user(line.clone()));
                    let h = client.migrate_content(room_id);
                    TurnStart::Ask(h)
                },
            }
        },
        None => {
            assert(false);
            TurnStart::Reply(String::new())
        },
    }
}

/// Ends the turn of client `addr` in room `room_id`: records the answer
/// of the assistant and frames it to send back.
pub fn finish_turn(clients: &mut Clients, addr: &String, room_id: &String, answer: String) -> (r: String)
    requires
        old(clients).wf(),
        old(clients)@.contains_key(addr@),
    ensures
        final(clients).wf(),
        final(clients)@ == old(clients)@.insert(
            addr@,
            with_message(old(clients)@[addr@], room_id@, ContentView::Assistant(answer@)),
        ),
        r@ == answer_frame(room_id@, answer@),
{
    let framed = frame_answer(room_id, &answer);
    match clients.get_client(addr.clone()) {
        Some(client) => {
            client.add_content(room_id, ContentUnit::assistant(answer));
        },
        None => {},
    }
    framed
}

} // verus!

verus! {

/// A line that is no command is recorded as the user's question: the
/// assistant is asked with the room's history, which ends with that
/// question and is what the registry then holds for the room.
pub proof fn law_question_is_recorded_and_asked(
    clients: Map<Seq<char>, ClientView>,
    addr: Seq<char>,
    room: Seq<char>,
    line: Seq<char>,
)
    requires
        command_kind(line) is NotACommand,
    ensures
        turn_start(clients, addr, room, line).1 matches TurnStartView::Ask(h) && h.len() >= 1
            && h.last() == ContentView::User(line)
            && turn_start(clients, addr, room, line).0[addr].rooms[room] == h,
        turn_start(clients, addr, room, line).0.contains_key(addr),
{
    let c = client_or_fresh(clients, addr);
    law_add_appends_and_keeps_first(c.rooms, room, ContentView::User(line));
}

/// An answer is recorded after the question it answers, in the same room.
pub proof fn law_answer_follows_question(c: ClientView, room: Seq<char>, q: Seq<char>, a: Seq<char>)
    ensures
        ({
            let h = with_message(with_message(c, room, ContentView::User(q)), room, ContentView::Assistant(a)).rooms[room];
            &&& h.len() >= 2
            &&& h.last() == ContentView::Assistant(a)
            &&& h[h.len() - 2] == ContentView::User(q)
        }),
{
    let r1 = rooms_after_add(c.rooms, room, ContentView::User(q));
    law_add_appends_and_keeps_first(c.rooms, room, ContentView::User(q));
    law_add_appends_and_keeps_first(r1, room, ContentView::Assistant(a));
    let p = r1[room].push(ContentView::Assistant(a));
    assert(p[p.len() - 2] == ContentView::User(q));
    if p.len() >= HISTORY_LIMIT {
        law_trim_keeps_newest(p);
        assert(trimmed(p)[trimmed(p).len() - 2] == p[p.len() - 2]);
    }
}

} // verus!

verus! {

/// Recording a message of any role changes only the room it is recorded
/// in: every other room keeps its history, the client keeps its address,
/// the room's history ends with the message and keeps its first message,
/// and a room is added to the order only when it is new.
pub proof fn law_message_touches_only_its_room(c: ClientView, room: Seq<char>, m: ContentView)
    ensures
        with_message(c, room, m).addr == c.addr,
        with_message(c, room, m).rooms.contains_key(room),
        with_message(c, room, m).rooms[room].last() == m,
        c.rooms.contains_key(room) && c.rooms[room].len() >= 1 ==> with_message(c, room, m).rooms[room][0]
            == c.rooms[room][0],
        !c.rooms.contains_key(room) ==> with_message(c, room, m).rooms[room] == seq![m],
        forall|k: Seq<char>| k != room ==> (#[trigger] with_message(c, room, m).rooms.contains_key(k)
            == c.rooms.contains_key(k)),
        forall|k: Seq<char>| k != room && c.rooms.contains_key(k) ==> #[trigger] with_message(c, room, m).rooms[k]
            == c.rooms[k],
        c.rooms.contains_key(room) ==> with_message(c, room, m).order == c.order,
        !c.rooms.contains_key(room) ==> with_message(c, room, m).order == c.order.push(room),
{
    law_add_appends_and_keeps_first(c.rooms, room, m);
}

/// A turn changes only the client that sent the line, and in it only the
/// room the line was sent for and, for `/room_content`, the room it reads:
/// every other client and every other room keep what they held. `/new`
/// forgets the room it was sent for.
pub proof fn law_turn_touches_only_named_rooms(
    clients: Map<Seq<char>, ClientView>,
    addr: Seq<char>,
    room: Seq<char>,
    line: Seq<char>,
)
    ensures
        ({
            let after = turn_start(clients, addr, room, line).0;
            let before_rooms = if clients.contains_key(addr) {
                clients[addr].rooms
            } else {
                Map::<Seq<char>, Seq<ContentView>>::empty()
            };
            &&& after.contains_key(addr)
            &&& after[addr].addr == (if clients.contains_key(addr) { clients[addr].addr } else { addr })
            &&& forall|a: Seq<char>| a != addr ==> (#[trigger] after.contains_key(a) == clients.contains_key(a))
            &&& forall|a: Seq<char>| a != addr && clients.contains_key(a) ==> #[trigger] after[a] == clients[a]
            &&& forall|k: Seq<char>|
                k != room && command_kind(line) != CommandKind::RoomContent(k) ==> (
                #[trigger] after[addr].rooms.contains_key(k) == before_rooms.contains_key(k))
            &&& forall|k: Seq<char>|
                k != room && command_kind(line) != CommandKind::RoomContent(k) && before_rooms.contains_key(k)
                    ==> #[trigger] after[addr].rooms[k] == before_rooms[k]
            &&& command_kind(line) is New ==> !after[addr].rooms.contains_key(room)
        }),
{
    let c = client_or_fresh(clients, addr);
    assert(c.rooms == (if clients.contains_key(addr) {
        clients[addr].rooms
    } else {
        Map::<Seq<char>, Seq<ContentView>>::empty()
    }));
    law_message_touches_only_its_room(c, room, ContentView::User(line));
}

} // verus!
