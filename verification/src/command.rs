use vstd::prelude::*;

use crate::cache::{system_prompt, ClientUnit, ClientView};
use crate::content::{history_view, ContentUnit, ContentView};
use crate::keyed::without_key;
use crate::text::{chars_of, parse_i32, parse_i32_chars, split_once, split_once_at, string_of, trim, trim_bounds};

verus! {

/// A request for pictures: how many, of which size, of what.
pub struct ImageRequest {
    pub n: i32,
    pub size: String,
    pub prompt: String,
}

/// What an image request asks for: count, size and prompt.
pub struct ImageView {
    pub n: i32,
    pub size: Seq<char>,
    pub prompt: Seq<char>,
}

impl View for ImageRequest {
    type V = ImageView;

    open spec fn view(&self) -> ImageView {
        ImageView { n: self.n, size: self.size@, prompt: self.prompt@ }
    }
}

/// What a line of a client asks for.
pub enum CommandKind {
    /// `/new`: forget the history of the current room.
    New,
    /// `/rooms`: list the rooms that have a history.
    Rooms,
    /// `/room_content <room>`: show what the user said in a room.
    RoomContent(Seq<char>),
    /// `/image <arguments>`: draw pictures.
    Image(Seq<char>),
    /// Anything else: a message to the assistant.
    NotACommand,
}

/// The outcome of a line of a client, as far as the server decides it.
pub enum CommandOutcome {
    /// The answer to send back.
    Reply(String),
    /// Pictures to draw; their addresses are the answer.
    Draw(ImageRequest),
    /// The line is a message for the assistant.
    NotACommand,
}

pub open spec fn space() -> Seq<char> {
    seq![' ']
}

/// The sizes in which pictures can be drawn.
pub open spec fn is_image_size(s: Seq<char>) -> bool {
    s == "1024x1024"@ || s == "512x512"@ || s == "256x256"@
}

/// The size of a picture where none is asked for.
pub open spec fn default_size() -> Seq<char> {
    "512x512"@
}

/// The arguments of `/image` cut at their first two spaces, as
/// `str::splitn(3, " ")` cuts them.
pub open spec fn image_parts(args: Seq<char>) -> Seq<Seq<char>> {
    match split_once(args, space()) {
        None => seq![args],
        Some((p0, rest)) => match split_once(rest, space()) {
            None => seq![p0, rest],
            Some((p1, p2)) => seq![p0, p1, p2],
        },
    }
}

/// With three parts, the first must be a number.
pub open spec fn image_args_panic(args: Seq<char>) -> bool {
    image_parts(args).len() == 3 && parse_i32(image_parts(args)[0]) is None
}

/// The picture request that the arguments of `/image` stand for:
/// `[n] [size] prompt`, where a count above four is cut to four when all
/// three are given.
pub open spec fn image_request(args: Seq<char>) -> ImageView {
    let parts = image_parts(args);
    if parts.len() == 1 {
        ImageView { n: 1, size: default_size(), prompt: parts[0] }
    } else if parts.len() == 2 {
        if is_image_size(parts[0]) {
            ImageView { n: 1, size: parts[0], prompt: parts[1] }
        } else {
            match parse_i32(parts[0]) {
                Some(n) => ImageView { n: n, size: default_size(), prompt: parts[1] },
                None => ImageView { n: 1, size: default_size(), prompt: args },
            }
        }
    } else {
        let n = parse_i32(parts[0])->0;
        ImageView { n: if n >= 4 { 4 } else { n }, size: parts[1], prompt: parts[2] }
    }
}

/// What the line `s` asks for: it is trimmed, then read as a command word
/// and, after the first space, its argument.
pub open spec fn command_kind(s: Seq<char>) -> CommandKind {
    let t = trim(s);
    match split_once(t, space()) {
        None => if t == "/new"@ {
            CommandKind::New
        } else if t == "/rooms"@ {
            CommandKind::Rooms
        } else {
            CommandKind::NotACommand
        },
        Some((a, b)) => if a == "/room_content"@ {
            CommandKind::RoomContent(b)
        } else if a == "/image"@ {
            CommandKind::Image(b)
        } else {
            CommandKind::NotACommand
        },
    }
}

/// The line `s` is a picture request whose count cannot be read.
pub open spec fn command_panics(s: Seq<char>) -> bool {
    match command_kind(s) {
        CommandKind::Image(args) => image_args_panic(args),
        _ => false,
    }
}

/// The answer to `/rooms`: each room followed by `, `, or `no rooms`.
pub open spec fn rooms_listing(order: Seq<Seq<char>>) -> Seq<char> {
    if order.len() == 0 {
        "no rooms"@
    } else {
        rooms_joined(order)
    }
}

pub open spec fn rooms_joined(order: Seq<Seq<char>>) -> Seq<char>
    decreases order.len(),
{
    if order.len() == 0 {
        Seq::empty()
    } else {
        rooms_joined(order.drop_last()) + order.last() + ", "@
    }
}

/// What the user said in a history, one message after the other.
pub open spec fn user_texts(h: Seq<ContentView>) -> Seq<char>
    decreases h.len(),
{
    if h.len() == 0 {
        Seq::empty()
    } else {
        user_texts(h.drop_last()) + match h.last() {
            ContentView::User(x) => x,
            _ => Seq::empty(),
        }
    }
}

/// The history that a read of room `room` gives.
pub open spec fn room_read(rooms: Map<Seq<char>, Seq<ContentView>>, room: Seq<char>) -> Seq<ContentView> {
    if rooms.contains_key(room) {
        rooms[room]
    } else {
        seq![ContentView::System(system_prompt())]
    }
}

/// The client after a read of room `room`.
pub open spec fn after_read(c: ClientView, room: Seq<char>) -> ClientView {
    if c.rooms.contains_key(room) {
        c
    } else {
        ClientView {
            addr: c.addr,
            rooms: c.rooms.insert(room, seq![ContentView::System(system_prompt())]),
            order: c.order.push(room),
        }
    }
}

} // verus!

verus! {

fn literal(s: &str) -> (r: String)
    ensures
        r@ == s@,
{
    s.to_owned()
}

/// The arguments of `/image` cut at their first two spaces.
fn image_arg_parts(args: &String) -> (r: Vec<String>)
    ensures
        r@.map_values(|p: String| p@) == image_parts(args@),
{
    let cs = chars_of(args.as_str());
    let sp = vec![' '];
    assert(sp@ == space());
    let r = match split_once_at(&cs, &sp) {
        None => vec![args.clone()],
        Some((p0, rest)) => {
            let rc = chars_of(rest.as_str());
            match split_once_at(&rc, &sp) {
                None => vec![p0, rest],
                Some((p1, p2)) => vec![p0, p1, p2],
            }
        },
    };
    assert(r@.map_values(|p: String| p@) =~= image_parts(args@));
    r
}

/// The number that `p` writes, as `i32::from_str` reads it.
fn parse_i32_string(p: &String) -> (r: Option<i32>)
    ensures
        r == parse_i32(p@),
{
    let pc = chars_of(p.as_str());
    assert(pc@.subrange(0, pc@.len() as int) =~= p@);
    parse_i32_chars(&pc, 0, pc.len())
}

/// The picture request that the arguments `args` of `/image` stand for.
pub fn parse_image_args(args: &String) -> (r: ImageRequest)
    requires
        !image_args_panic(args@),
    ensures
        r@ == image_request(args@),
{
    let parts = image_arg_parts(args);
    let ghost pv = parts@.map_values(|p: String| p@);
    if parts.len() == 1 {
        assert(pv[0] == parts@[0]@);
        ImageRequest { n: 1, size: literal("512x512"), prompt: parts[0].clone() }
    } else if parts.len() == 2 {
        assert(pv[0] == parts@[0]@ && pv[1] == parts@[1]@);
        let p0 = &parts[0];
        if *p0 == literal("1024x1024") || *p0 == literal("512x512") || *p0 == literal("256x256") {
            ImageRequest { n: 1, size: p0.clone(), prompt: parts[1].clone() }
        } else {
            match parse_i32_string(p0) {
                Some(n) => ImageRequest { n, size: literal("512x512"), prompt: parts[1].clone() },
                None => ImageRequest { n: 1, size: literal("512x512"), prompt: args.clone() },
            }
        }
    } else {
        assert(pv[0] == parts@[0]@ && pv[1] == parts@[1]@ && pv[2] == parts@[2]@);
        let n = match parse_i32_string(&parts[0]) {
            Some(n) => n,
            None => 1,
        };
        let n = if n >= 4 {
            4
        } else {
            n
        };
        ImageRequest { n, size: parts[1].clone(), prompt: parts[2].clone() }
    }
}

/// The answer to `/rooms` for rooms opened in the order `rooms`.
pub fn list_rooms(rooms: &Vec<String>) -> (r: String)
    ensures
        r@ == rooms_listing(rooms@.map_values(|s: String| s@)),
{
    let ghost order = rooms@.map_values(|s: String| s@);
    let mut r = String::new();
    let mut i: usize = 0;
    while i < rooms.len()
        invariant
            i <= rooms@.len(),
            order == rooms@.map_values(|s: String| s@),
            r@ == rooms_joined(order.take(i as int)),
        decreases rooms@.len() - i,
    {
        assert(order.take(i + 1).drop_last() =~= order.take(i as int));
        r.append(rooms[i].as_str());
        r.append(", ");
        assert(r@ =~= rooms_joined(order.take(i + 1)));
        i = i + 1;
    }
    assert(order.take(i as int) =~= order);
    if i == 0 {
        literal("no rooms")
    } else {
        r
    }
}

/// What the user said in the history `h`, followed by a line break.
pub fn user_lines(h: &Vec<ContentUnit>) -> (r: String)
    ensures
        r@ == user_texts(history_view(h@)) + "\n"@,
{
    let ghost hv = history_view(h@);
    let mut r = String::new();
    let mut i: usize = 0;
    while i < h.len()
        invariant
            i <= h@.len(),
            hv == history_view(h@),
            r@ == user_texts(hv.take(i as int)),
        decreases h@.len() - i,
    {
        assert(hv.take(i + 1).drop_last() =~= hv.take(i as int));
        assert(hv.take(i + 1).last() == h@[i as int]@);
        match &h[i] {
            ContentUnit::user(x) => {
                r.append(x.as_str());
            },
            _ => {},
        }
        assert(r@ =~= user_texts(hv.take(i + 1)));
        i = i + 1;
    }
    assert(hv.take(i as int) =~= hv);
    r.append("\n");
    r
}

} // verus!

verus! {

/// What a line of a client asks for, as read by `parse_command`.
pub enum Command {
    New,
    Rooms,
    RoomContent(String),
    Image(String),
    NotACommand,
}

impl View for Command {
    type V = CommandKind;

    open spec fn view(&self) -> CommandKind {
        match self {
            Command::New => CommandKind::New,
            Command::Rooms => CommandKind::Rooms,
            Command::RoomContent(b) => CommandKind::RoomContent(b@),
            Command::Image(b) => CommandKind::Image(b@),
            Command::NotACommand => CommandKind::NotACommand,
        }
    }
}

/// What the outcome of a line stands for.
pub enum OutcomeView {
    Reply(Seq<char>),
    Draw(ImageView),
    NotACommand,
}

impl View for CommandOutcome {
    type V = OutcomeView;

    open spec fn view(&self) -> OutcomeView {
        match self {
            CommandOutcome::Reply(m) => OutcomeView::Reply(m@),
            CommandOutcome::Draw(req) => OutcomeView::Draw(req@),
            CommandOutcome::NotACommand => OutcomeView::NotACommand,
        }
    }
}

/// How the line `s`, sent for room `room`, changes the client `c`, and what
/// comes of it.
pub open spec fn command_effect(c: ClientView, room: Seq<char>, s: Seq<char>) -> (ClientView, OutcomeView) {
    match command_kind(s) {
        CommandKind::New => (
            ClientView { addr: c.addr, rooms: c.rooms.remove(room), order: without_key(c.order, room) },
            OutcomeView::Reply("history cleared"@),
        ),
        CommandKind::Rooms => (c, OutcomeView::Reply(rooms_listing(c.order))),
        CommandKind::RoomContent(b) => (
            after_read(c, b),
            OutcomeView::Reply(user_texts(room_read(c.rooms, b)) + "\n"@),
        ),
        CommandKind::Image(args) => (c, OutcomeView::Draw(image_request(args))),
        CommandKind::NotACommand => (c, OutcomeView::NotACommand),
    }
}

/// Reads the line `s` as a command.
pub fn parse_command(s: &String) -> (r: Command)
    ensures
        r@ == command_kind(s@),
{
    let cs = chars_of(s.as_str());
    let (lo, hi) = trim_bounds(&cs);
    let t = string_of(&cs, lo, hi);
    let tc = chars_of(t.as_str());
    let sp = vec![' '];
    assert(sp@ == space());
    match split_once_at(&tc, &sp) {
        None => {
            if t == literal("/new") {
                Command::New
            } else if t == literal("/rooms") {
                Command::Rooms
            } else {
                Command::NotACommand
            }
        },
        Some((a, b)) => {
            if a == literal("/room_content") {
                Command::RoomContent(b)
            } else if a == literal("/image") {
                Command::Image(b)
            } else {
                Command::NotACommand
            }
        },
    }
}

/// Whether the line `s` is a picture request whose count cannot be read,
/// which the server does not survive.
pub fn is_fatal_command(s: &String) -> (r: bool)
    ensures
        r == command_panics(s@),
{
    match parse_command(s) {
        Command::Image(args) => {
            let parts = image_arg_parts(&args);
            let ghost pv = parts@.map_values(|p: String| p@);
            if parts.len() == 3 {
                assert(pv[0] == parts@[0]@);
                parse_i32_string(&parts[0]).is_none()
            } else {
                false
            }
        },
        _ => false,
    }
}

/// Carries out the line `s` that a client sent for room `room_id`, as far
/// as the server decides: `/new` forgets the room's history, `/rooms` lists
/// the rooms, `/room_content <room>` shows what the user said there, and
/// `/image <arguments>` asks for pictures, which the caller draws. Any other
/// line is no command.
pub fn run_command(client: &mut ClientUnit, room_id: &String, s: &String) -> (r: CommandOutcome)
    requires
        old(client).wf(),
        !command_panics(s@),
    ensures
        final(client).wf(),
        (final(client)@, r@) == command_effect(old(client)@, room_id@, s@),
{
    match parse_command(s) {
        Command::New => {
            client.clear_content(room_id);
            CommandOutcome::Reply(literal("history cleared"))
        },
        Command::Rooms => {
            let rooms = client.rooms();
            CommandOutcome::Reply(list_rooms(&rooms))
        },
        Command::RoomContent(b) => {
            let h = client.migrate_content(&b);
            CommandOutcome::Reply(user_lines(&h))
        },
        Command::Image(args) => CommandOutcome::Draw(parse_image_args(&args)),
        Command::NotACommand => CommandOutcome::NotACommand,
    }
}

} // verus!

verus! {

/// White space around a line, and so its final line break, does not change
/// what the line asks for.
pub proof fn law_command_ignores_surrounding_space(s: Seq<char>)
    ensures
        command_kind(trim(s)) == command_kind(s),
        command_panics(trim(s)) == command_panics(s),
{
    crate::text::law_trim_idempotent(s);
}

} // verus!

verus! {

/// How the arguments of `/image` are read, case by case. With three
/// space-separated parts `count size prompt` (the prompt may hold spaces),
/// the count must read as a number `n`, and `min(n, 4)` pictures of that
/// size are asked for. With two parts, the first is either a size (one
/// picture of it) or a count (that many pictures of the default size);
/// otherwise the whole argument is the prompt of one default picture. A
/// single part is the prompt of one default picture.
pub proof fn law_image_request_cases(a: Seq<char>, b: Seq<char>, c: Seq<char>)
    requires
        !a.contains(' '),
        !b.contains(' '),
    ensures
        parse_i32(a) matches Some(n) ==> image_request(a + seq![' '] + b + seq![' '] + c) == (ImageView {
            n: if n >= 4 { 4 } else { n },
            size: b,
            prompt: c,
        }),
        !image_args_panic(a + seq![' '] + b + seq![' '] + c) <==> parse_i32(a) is Some,
        is_image_size(a) ==> image_request(a + seq![' '] + b) == (ImageView { n: 1, size: a, prompt: b }),
        !is_image_size(a) ==> (parse_i32(a) matches Some(n) ==> image_request(a + seq![' '] + b) == (ImageView {
            n: n,
            size: "512x512"@,
            prompt: b,
        })),
        !is_image_size(a) && parse_i32(a) is None ==> image_request(a + seq![' '] + b) == (ImageView {
            n: 1,
            size: "512x512"@,
            prompt: a + seq![' '] + b,
        }),
        image_request(a) == (ImageView { n: 1, size: "512x512"@, prompt: a }),
{
    let three = a + seq![' '] + b + seq![' '] + c;
    assert(three =~= a + seq![' '] + (b + seq![' '] + c));
    crate::text::law_split_once_at_first(a, ' ', b + seq![' '] + c);
    crate::text::law_split_once_at_first(b, ' ', c);
    crate::text::law_split_once_at_first(a, ' ', b);
    crate::text::law_split_once_absent(b, ' ');
    crate::text::law_split_once_absent(a, ' ');
    assert(space() =~= seq![' ']);
    assert(image_parts(three) =~= seq![a, b, c]);
    assert(image_parts(a + seq![' '] + b) =~= seq![a, b]);
    assert(image_parts(a) =~= seq![a]);
}

/// `no rooms` is the answer to `/rooms` exactly when no room has a history;
/// otherwise each room is listed, in order, followed by `, `.
pub proof fn law_rooms_listing(order: Seq<Seq<char>>, more: Seq<Seq<char>>, r: Seq<char>)
    ensures
        (rooms_listing(order) == "no rooms"@) <==> order.len() == 0,
        order.len() >= 1 ==> rooms_listing(order) == rooms_joined(order),
        rooms_joined(seq![r]) == r + ", "@,
        rooms_joined(order + more) == rooms_joined(order) + rooms_joined(more),
    decreases more.len(),
{
    reveal_strlit("no rooms");
    reveal_strlit(", ");
    assert(seq![r].drop_last() =~= Seq::<Seq<char>>::empty());
    assert(rooms_joined(seq![r]) == rooms_joined(Seq::<Seq<char>>::empty()) + r + ", "@);
    assert(rooms_joined(Seq::<Seq<char>>::empty()) == Seq::<char>::empty());
    assert(Seq::<char>::empty() + r + ", "@ =~= r + ", "@);
    if order.len() >= 1 {
        let j = rooms_joined(order);
        assert(j == rooms_joined(order.drop_last()) + order.last() + ", "@);
        assert(j[j.len() - 1] == ' ');
        assert("no rooms"@[7] == 's');
    }
    if more.len() == 0 {
        assert(order + more =~= order);
        assert(rooms_joined(order) + rooms_joined(more) =~= rooms_joined(order));
    } else {
        law_rooms_listing(order, more.drop_last(), r);
        assert((order + more).drop_last() =~= order + more.drop_last());
        assert((order + more).last() == more.last());
        assert(rooms_joined(order + more) =~= rooms_joined(order) + rooms_joined(more));
    }
}

} // verus!
