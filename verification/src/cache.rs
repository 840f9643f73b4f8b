use vstd::prelude::*;

pub use crate::content::ContentUnit;
use crate::content::{duplicate_history, history_view, ContentView};
use crate::keyed::{without_key, KeyedVec};

verus! {

/// A history that reaches this many messages is shortened.
pub const HISTORY_LIMIT: usize = 10;

/// How many messages a shortening drops, right after the first one.
pub const HISTORY_DROP: usize = 6;

/// The instruction that opens every room that a read creates.
pub const SYSTEM_PROMPT: &'static str = "下面是跟一个17岁傲娇软萌聪明活泼的女高中生的对话。";

/// The text of the opening instruction.
pub open spec fn system_prompt() -> Seq<char> {
    SYSTEM_PROMPT@
}

/// A history after a shortening: once it holds `HISTORY_LIMIT` messages or
/// more, the `HISTORY_DROP` messages that follow the first one are dropped.
pub open spec fn trimmed(h: Seq<ContentView>) -> Seq<ContentView> {
    if h.len() >= HISTORY_LIMIT {
        seq![h[0]] + h.subrange(1 + HISTORY_DROP, h.len() as int)
    } else {
        h
    }
}

/// The rooms of a client after `c` was added to room `room`.
pub open spec fn rooms_after_add(
    rooms: Map<Seq<char>, Seq<ContentView>>,
    room: Seq<char>,
    c: ContentView,
) -> Map<Seq<char>, Seq<ContentView>> {
    if rooms.contains_key(room) {
        rooms.insert(room, trimmed(rooms[room].push(c)))
    } else {
        rooms.insert(room, seq![c])
    }
}

/// The order in which rooms were opened, after `c` was added to `room`.
pub open spec fn order_after_add(
    rooms: Map<Seq<char>, Seq<ContentView>>,
    order: Seq<Seq<char>>,
    room: Seq<char>,
) -> Seq<Seq<char>> {
    if rooms.contains_key(room) {
        order
    } else {
        order.push(room)
    }
}

/// What a client is: its address, the history of each of its rooms, and
/// the order in which its rooms were opened.
pub struct ClientView {
    pub addr: Seq<char>,
    pub rooms: Map<Seq<char>, Seq<ContentView>>,
    pub order: Seq<Seq<char>>,
}

/// The conversations of one connected client, one history per room.
#[derive(Debug, Clone)]
pub struct ClientUnit {
    addr: String,
    contents: KeyedVec<Vec<ContentUnit>>,
}

impl View for ClientUnit {
    type V = ClientView;

    closed spec fn view(&self) -> ClientView {
        ClientView {
            addr: self.addr@,
            rooms: self.contents.view_map().map_values(|h: Vec<ContentUnit>| history_view(h@)),
            order: self.contents.key_seq(),
        }
    }
}

impl ClientUnit {
    /// The rooms' bookkeeping is consistent.
    pub closed spec fn wf(&self) -> bool {
        self.contents.wf()
    }

    pub fn new(addr: String) -> (r: Self)
        ensures
            r.wf(),
            r@.addr == addr@,
            r@.rooms == Map::<Seq<char>, Seq<ContentView>>::empty(),
            r@.order == Seq::<Seq<char>>::empty(),
    {
        let r = ClientUnit { addr, contents: KeyedVec::new() };
        assert(r@.rooms =~= Map::<Seq<char>, Seq<ContentView>>::empty());
        r
    }

    /// Appends `content` to the history of room `room_id`, opening the room
    /// if it has none. A history that reaches `HISTORY_LIMIT` messages keeps
    /// its first message and drops the `HISTORY_DROP` that follow it.
    pub fn add_content(&mut self, room_id: &String, content: ContentUnit)
        requires
            old(self).wf(),
        ensures
            final(self).wf(),
            final(self)@.addr == old(self)@.addr,
            final(self)@.rooms == rooms_after_add(old(self)@.rooms, room_id@, content@),
            final(self)@.order == order_after_add(old(self)@.rooms, old(self)@.order, room_id@),
    {
        let ghost c_view = content@;
        let ghost mut new_history: Seq<ContentView> = seq![c_view];
        match self.contents.get_mut(room_id) {
            Some(c) => {
                let ghost before = c@;
                c.push(content);
                let ghost pushed = c@;
                if c.len() >= HISTORY_LIMIT {
                    let mut j: usize = 0;
                    while j < HISTORY_DROP
                        invariant
                            j <= HISTORY_DROP,
                            pushed.len() >= HISTORY_LIMIT,
                            c@ == seq![pushed[0]] + pushed.subrange(1 + j, pushed.len() as int),
                        decreases HISTORY_DROP - j,
                    {
                        c.remove(1);
                        assert(c@ =~= seq![pushed[0]] + pushed.subrange(2 + j, pushed.len() as int));
                        j = j + 1;
                    }
                }
                assert(history_view(c@) =~= trimmed(history_view(before).push(c_view)));
                proof {
                    new_history = history_view(c@);
                }
            },
            None => {
                let c_l = vec![content];
                self.contents.insert_new(room_id.clone(), c_l);
            },
        }
        proof {
            let m = self.contents.view_map();
            assert(m.contains_key(room_id@));
            assert(history_view(m[room_id@]@) == new_history);
            assert(old(self)@.rooms.contains_key(room_id@) ==> new_history == trimmed(old(self)@.rooms[room_id@].push(c_view)));
            assert(!old(self)@.rooms.contains_key(room_id@) ==> new_history == seq![c_view]);
            assert(m == old(self).contents.view_map().insert(room_id@, m[room_id@]));
            assert(self@.rooms =~= rooms_after_add(old(self)@.rooms, room_id@, c_view));
        }
    }

    /// The history of room `room_id`. A room with no history is opened with
    /// the system prompt as its first message, which is then returned.
    pub fn migrate_content(&mut self, room_id: &String) -> (r: Vec<ContentUnit>)
        requires
            old(self).wf(),
        ensures
            final(self).wf(),
            final(self)@.addr == old(self)@.addr,
            old(self)@.rooms.contains_key(room_id@) ==> {
                &&& history_view(r@) == old(self)@.rooms[room_id@]
                &&& final(self)@ == old(self)@
            },
            !old(self)@.rooms.contains_key(room_id@) ==> {
                &&& history_view(r@) == seq![ContentView::System(system_prompt())]
                &&& final(self)@.rooms == old(self)@.rooms.insert(
                    room_id@,
                    seq![ContentView::System(system_prompt())],
                )
                &&& final(self)@.order == old(self)@.order.push(room_id@)
            },
    {
        match self.contents.get(room_id) {
            Some(x) => {
                let r = duplicate_history(x);
                r
            },
            None => {
                let content = ContentUnit::system(SYSTEM_PROMPT.to_owned());
                self.add_content(room_id, content.duplicate());
                let r = vec![content];
                assert(history_view(r@) =~= seq![ContentView::System(system_prompt())]);
                r
            },
        }
    }

    /// Forgets the history of room `room_id`.
    pub fn clear_content(&mut self, room_id: &String)
        requires
            old(self).wf(),
        ensures
            final(self).wf(),
            final(self)@.addr == old(self)@.addr,
            final(self)@.rooms == old(self)@.rooms.remove(room_id@),
            final(self)@.order == without_key(old(self)@.order, room_id@),
    {
        self.contents.remove(room_id);
        assert(self@.rooms =~= old(self)@.rooms.remove(room_id@));
    }

    /// The order of the rooms lists each room that has a history, once.
    pub proof fn law_order_lists_rooms_once(&self)
        requires
            self.wf(),
        ensures
            self@.order.no_duplicates(),
            forall|k: Seq<char>| self@.order.contains(k) <==> #[trigger] self@.rooms.contains_key(k),
    {
        self.contents.lemma_keys_are_domain();
    }

    /// The rooms that have a history, in the order in which they were opened.
    pub fn rooms(&self) -> (r: Vec<String>)
        ensures
            r@.map_values(|s: String| s@) == self@.order,
    {
        self.contents.keys()
    }
}

} // verus!

verus! {

/// The views of the clients of a registry.
pub open spec fn client_views(m: Map<Seq<char>, ClientUnit>) -> Map<Seq<char>, ClientView> {
    m.map_values(|c: ClientUnit| c@)
}

proof fn lemma_client_views_insert(m: Map<Seq<char>, ClientUnit>, k: Seq<char>)
    ensures
        forall|c: ClientUnit| #[trigger] client_views(m.insert(k, c)) == client_views(m).insert(k, c@),
        forall|c: ClientUnit| m.contains_key(k) && c.wf()
            && (forall|q: Seq<char>| #[trigger] m.contains_key(q) ==> m[q].wf())
            ==> (forall|q: Seq<char>| #[trigger] m.insert(k, c).contains_key(q) ==> m.insert(k, c)[q].wf()),
{
    assert forall|c: ClientUnit| #[trigger] client_views(m.insert(k, c)) == client_views(m).insert(k, c@) by {
        assert(client_views(m.insert(k, c)) =~= client_views(m).insert(k, c@));
    }
}

/// The clients known to the server, keyed by their address.
#[derive(Debug)]
pub struct Clients {
    data: KeyedVec<ClientUnit>,
}

impl View for Clients {
    type V = Map<Seq<char>, ClientView>;

    closed spec fn view(&self) -> Map<Seq<char>, ClientView> {
        client_views(self.data.view_map())
    }
}

impl Clients {
    /// The bookkeeping of the registry and of each client is consistent.
    pub closed spec fn wf(&self) -> bool {
        &&& self.data.wf()
        &&& forall|k: Seq<char>| #[trigger] self.data.view_map().contains_key(k) ==> self.data.view_map()[k].wf()
    }

    pub fn new() -> (r: Self)
        ensures
            r.wf(),
            r@ == Map::<Seq<char>, ClientView>::empty(),
    {
        let r = Clients { data: KeyedVec::new() };
        assert(r@ =~= Map::<Seq<char>, ClientView>::empty());
        r
    }

    /// Registers a client with no rooms under `addr`, unless one is
    /// registered there already.
    pub fn add_client(&mut self, addr: String)
        requires
            old(self).wf(),
        ensures
            final(self).wf(),
            old(self)@.contains_key(addr@) ==> final(self)@ == old(self)@,
            !old(self)@.contains_key(addr@) ==> final(self)@ == old(self)@.insert(
                addr@,
                ClientView {
                    addr: addr@,
                    rooms: Map::<Seq<char>, Seq<ContentView>>::empty(),
                    order: Seq::<Seq<char>>::empty(),
                },
            ),
    {
        if !self.data.contains_key(&addr) {
            let client = ClientUnit::new(addr.clone());
            let ghost cv = client@;
            self.data.insert_new(addr, client);
            assert(self@ =~= old(self)@.insert(addr@, cv));
        }
    }

    /// The client registered under `addr`, to read or change in place.
    pub fn get_client(&mut self, addr: String) -> (r: Option<&mut ClientUnit>)
        requires
            old(self).wf(),
        ensures
            match r {
                Some(c) => {
                    &&& old(self)@.contains_key(addr@)
                    &&& (*c)@ == old(self)@[addr@]
                    &&& c.wf()
                    &&& final(self)@ == old(self)@.insert(addr@, (*final(c))@)
                    &&& final(c).wf() ==> final(self).wf()
                },
                None => {
                    &&& !old(self)@.contains_key(addr@)
                    &&& *final(self) == *old(self)
                },
            },
    {
        proof {
            lemma_client_views_insert(self.data.view_map(), addr@);
        }
        self.data.get_mut(&addr)
    }

    /// Forgets the client registered under `addr`, if any.
    pub fn remove_client(&mut self, addr: String)
        requires
            old(self).wf(),
        ensures
            final(self).wf(),
            final(self)@ == old(self)@.remove(addr@),
    {
        self.data.remove(&addr);
        assert(self@ =~= old(self)@.remove(addr@));
    }
}

} // verus!

verus! {

/// Every history is non-empty and shorter than `HISTORY_LIMIT`.
pub open spec fn histories_bounded(rooms: Map<Seq<char>, Seq<ContentView>>) -> bool {
    forall|k: Seq<char>| #[trigger] rooms.contains_key(k) ==> 1 <= rooms[k].len() < HISTORY_LIMIT
}

/// Adding a message keeps every history non-empty and shorter than
/// `HISTORY_LIMIT`: a client's rooms never hold that many messages.
pub proof fn law_add_keeps_histories_bounded(
    rooms: Map<Seq<char>, Seq<ContentView>>,
    room: Seq<char>,
    c: ContentView,
)
    requires
        histories_bounded(rooms),
    ensures
        histories_bounded(rooms_after_add(rooms, room, c)),
{
    let after = rooms_after_add(rooms, room, c);
    assert forall|k: Seq<char>| #[trigger] after.contains_key(k) implies 1 <= after[k].len() < HISTORY_LIMIT by {
        if k == room && rooms.contains_key(room) {
            let p = rooms[room].push(c);
            if p.len() >= HISTORY_LIMIT {
                assert(trimmed(p).len() == 1 + p.len() - (1 + HISTORY_DROP));
            }
        }
    }
}

/// Opening a room with the system prompt keeps every history bounded.
pub proof fn law_open_keeps_histories_bounded(
    rooms: Map<Seq<char>, Seq<ContentView>>,
    room: Seq<char>,
)
    requires
        histories_bounded(rooms),
    ensures
        histories_bounded(rooms.insert(room, seq![ContentView::System(system_prompt())])),
{
}

/// Clearing a room keeps every other history bounded.
pub proof fn law_clear_keeps_histories_bounded(
    rooms: Map<Seq<char>, Seq<ContentView>>,
    room: Seq<char>,
)
    requires
        histories_bounded(rooms),
    ensures
        histories_bounded(rooms.remove(room)),
{
}

/// After a message is added to a room, that room's history ends with it,
/// its first message is the one it had before (the opening instruction
/// survives every shortening), and every other room is untouched.
pub proof fn law_add_appends_and_keeps_first(
    rooms: Map<Seq<char>, Seq<ContentView>>,
    room: Seq<char>,
    c: ContentView,
)
    ensures
        rooms_after_add(rooms, room, c).contains_key(room),
        rooms_after_add(rooms, room, c)[room].len() >= 1,
        rooms_after_add(rooms, room, c)[room].last() == c,
        rooms.contains_key(room) && rooms[room].len() >= 1
            ==> rooms_after_add(rooms, room, c)[room][0] == rooms[room][0],
        forall|k: Seq<char>| k != room ==> (#[trigger] rooms_after_add(rooms, room, c).contains_key(k)
            == rooms.contains_key(k)),
        forall|k: Seq<char>| k != room && rooms.contains_key(k) ==> #[trigger] rooms_after_add(rooms, room, c)[k]
            == rooms[k],
{
    if rooms.contains_key(room) {
        let p = rooms[room].push(c);
        assert(p.last() == c);
        if p.len() >= HISTORY_LIMIT {
            let t = trimmed(p);
            assert(t.last() == p.last());
        }
    }
}

/// A shortening keeps the first message and the newest ones: what it drops
/// are exactly the `HISTORY_DROP` messages that follow the first.
pub proof fn law_trim_keeps_newest(h: Seq<ContentView>)
    requires
        h.len() >= HISTORY_LIMIT,
    ensures
        trimmed(h).len() == h.len() - HISTORY_DROP,
        trimmed(h)[0] == h[0],
        forall|i: int| 1 <= i < trimmed(h).len() ==> #[trigger] trimmed(h)[i] == h[i + HISTORY_DROP],
{
}

/// A cleared room no longer has a history, so the next read opens it
/// afresh with the system prompt.
pub proof fn law_clear_forgets_room(
    rooms: Map<Seq<char>, Seq<ContentView>>,
    room: Seq<char>,
)
    ensures
        !rooms.remove(room).contains_key(room),
        forall|k: Seq<char>| k != room && rooms.contains_key(k) ==> #[trigger] rooms.remove(room)[k] == rooms[k],
{
}

} // verus!

verus! {

/// The rooms after the messages `cs` were added to room `room`, one after
/// the other.
pub open spec fn rooms_after_adds(
    rooms: Map<Seq<char>, Seq<ContentView>>,
    room: Seq<char>,
    cs: Seq<ContentView>,
) -> Map<Seq<char>, Seq<ContentView>>
    decreases cs.len(),
{
    if cs.len() == 0 {
        rooms
    } else {
        rooms_after_add(rooms_after_adds(rooms, room, cs.drop_last()), room, cs.last())
    }
}

/// How many messages a room holds after `k` messages were added to it,
/// starting from no history.
pub open spec fn kept_after_adds(k: int) -> int {
    if k < HISTORY_LIMIT {
        k
    } else {
        (HISTORY_LIMIT - HISTORY_DROP) + (k - HISTORY_LIMIT) % (HISTORY_DROP as int)
    }
}

/// After `k >= 1` messages were added, one by one, to a room that had no
/// history, the room holds the first of them followed by the most recent
/// ones, `kept_after_adds(k)` in all, which is fewer than `HISTORY_LIMIT`;
/// the other rooms are as they were.
pub proof fn law_run_of_adds(rooms: Map<Seq<char>, Seq<ContentView>>, room: Seq<char>, cs: Seq<ContentView>)
    requires
        !rooms.contains_key(room),
        cs.len() >= 1,
    ensures
        rooms_after_adds(rooms, room, cs).contains_key(room),
        1 <= kept_after_adds(cs.len() as int) < HISTORY_LIMIT,
        rooms_after_adds(rooms, room, cs)[room] == seq![cs[0]] + cs.subrange(
            cs.len() - (kept_after_adds(cs.len() as int) - 1),
            cs.len() as int,
        ),
        forall|k: Seq<char>| k != room ==> #[trigger] rooms_after_adds(rooms, room, cs).contains_key(k)
            == rooms.contains_key(k),
        forall|k: Seq<char>| k != room && rooms.contains_key(k) ==> #[trigger] rooms_after_adds(rooms, room, cs)[k]
            == rooms[k],
    decreases cs.len(),
{
    let k = cs.len() as int;
    let prev = cs.drop_last();
    let c = cs.last();
    if k == 1 {
        assert(prev =~= Seq::<ContentView>::empty());
        assert(rooms_after_adds(rooms, room, prev) == rooms);
        assert(seq![cs[0]] + cs.subrange(1, 1) =~= seq![c]);
    } else {
        law_run_of_adds(rooms, room, prev);
        let m = rooms_after_adds(rooms, room, prev);
        let lp = kept_after_adds(k - 1);
        let h = m[room];
        assert(h == seq![cs[0]] + prev.subrange(k - 1 - (lp - 1), k - 1));
        assert(prev[0] == cs[0]);
        assert(prev.subrange(k - lp, k - 1) =~= cs.subrange(k - lp, k - 1));
        let p = h.push(c);
        assert(p.len() == lp + 1);
        assert(p =~= seq![cs[0]] + cs.subrange(k - lp, k));
        let l = kept_after_adds(k);
        if k - 1 < HISTORY_LIMIT {
            assert(lp == k - 1);
            if k < HISTORY_LIMIT {
                assert(l == k);
            } else {
                assert(k == 10);
                assert(l == 4);
            }
        } else {
            assert(lp == 4 + (k - 11) % 6);
            if (k - 11) % 6 == 5 {
                assert((k - 10) % 6 == 0);
                assert(l == 4);
            } else {
                assert((k - 10) % 6 == (k - 11) % 6 + 1);
                assert(l == lp + 1);
            }
        }
        if p.len() >= HISTORY_LIMIT {
            assert(lp + 1 == 10);
            assert(l == 4);
            assert(trimmed(p) =~= seq![cs[0]] + cs.subrange(k - 3, k));
        } else {
            assert(l == lp + 1);
            assert(trimmed(p) == p);
        }
        law_add_appends_and_keeps_first(m, room, c);
    }
}

} // verus!
