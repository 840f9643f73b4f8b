use vstd::prelude::*;
use vstd::utf8::{decode_utf8, encode_utf8, encode_utf8_decode_utf8, encode_utf8_valid_utf8, valid_utf8};

use crate::text::{chars_of, first_occurrence, occurs_at, split_once, split_once_at};

verus! {

/// Decodes `bytes` as UTF-8 text.
/// Calls `String::from_utf8`, which returns the text that the bytes encode
/// when they are valid UTF-8 and an error otherwise; the error is turned
/// into `None`.
#[verifier::external_body]
fn utf8_text(bytes: Vec<u8>) -> (r: Option<String>)
    ensures
        match r {
            Some(s) => valid_utf8(bytes@) && s@ == decode_utf8(bytes@),
            None => !valid_utf8(bytes@),
        },
{
    String::from_utf8(bytes).ok()
}

/// The character that ends every message on the wire.
pub open spec fn eot() -> char {
    '\u{4}'
}

/// What separates the room from the text in a message.
pub open spec fn separator() -> Seq<char> {
    "--$$__"@
}

/// `s` with every occurrence of `c` taken out.
pub open spec fn without_char(s: Seq<char>, c: char) -> Seq<char>
    decreases s.len(),
{
    if s.len() == 0 {
        s
    } else if s.last() == c {
        without_char(s.drop_last(), c)
    } else {
        without_char(s.drop_last(), c).push(s.last())
    }
}

/// The room and the text of a message. A message names its room before
/// the separator; end-of-message characters are left out of both. A message
/// without separator is for room `1` and is taken whole.
pub open spec fn message_parts(text: Seq<char>) -> (Seq<char>, Seq<char>) {
    match split_once(without_char(text, eot()), separator()) {
        Some((room, content)) => (room, content),
        None => ("1"@, text),
    }
}

/// `s` holds nothing but line breaks.
pub open spec fn only_line_breaks(s: Seq<char>) -> bool {
    forall|i: int| 0 <= i < s.len() ==> #[trigger] s[i] == '\n'
}

/// Why no message could be read from a connection.
pub enum ReadFailure {
    /// The peer closed the connection.
    ConnectionAborted,
    /// The message holds nothing but line breaks.
    NoContent,
    /// The message is not UTF-8 text.
    NotText,
    /// The connection failed otherwise.
    Io,
}

/// What the server does about a failed read.
pub enum FailureAction {
    /// Forget the client and close the connection.
    DropClient,
    /// Ignore the message and wait for the next one.
    KeepWaiting,
}

/// The room and text of a message received as `bytes`.
pub open spec fn message_of(bytes: Seq<u8>) -> Result<(Seq<char>, Seq<char>), ReadFailure> {
    if !valid_utf8(bytes) {
        Err(ReadFailure::NotText)
    } else {
        let (room, content) = message_parts(decode_utf8(bytes));
        if only_line_breaks(content) {
            Err(ReadFailure::NoContent)
        } else {
            Ok((room, content))
        }
    }
}

/// The characters of `cs` other than `c`, in order.
pub fn remove_char(cs: &Vec<char>, c: char) -> (r: Vec<char>)
    ensures
        r@ == without_char(cs@, c),
{
    let mut r: Vec<char> = Vec::new();
    let mut i: usize = 0;
    while i < cs.len()
        invariant
            i <= cs@.len(),
            r@ == without_char(cs@.take(i as int), c),
        decreases cs@.len() - i,
    {
        assert(cs@.take(i + 1).drop_last() =~= cs@.take(i as int));
        if cs[i] != c {
            r.push(cs[i]);
        }
        i = i + 1;
    }
    assert(cs@.take(i as int) =~= cs@);
    r
}

/// Whether `s` holds nothing but line breaks.
pub fn is_only_line_breaks(s: &String) -> (r: bool)
    ensures
        r == only_line_breaks(s@),
{
    let cs = chars_of(s.as_str());
    let mut i: usize = 0;
    while i < cs.len()
        invariant
            i <= cs@.len(),
            cs@ == s@,
            forall|j: int| 0 <= j < i ==> cs@[j] == '\n',
        decreases cs@.len() - i,
    {
        if cs[i] != '\n' {
            return false;
        }
        i = i + 1;
    }
    true
}

/// Splits the bytes of a received message into its room and its text.
pub fn parse_message(bytes: Vec<u8>) -> (r: Result<(String, String), ReadFailure>)
    ensures
        match r {
            Ok((room, content)) => message_of(bytes@) == Ok::<(Seq<char>, Seq<char>), ReadFailure>((room@, content@)),
            Err(e) => message_of(bytes@) == Err::<(Seq<char>, Seq<char>), ReadFailure>(e),
        },
{
    let ghost b = bytes@;
    let text = match utf8_text(bytes) {
        Some(t) => t,
        None => return Err(ReadFailure::NotText),
    };
    let cs = chars_of(text.as_str());
    let cleaned = remove_char(&cs, '\u{4}');
    let sep = chars_of("--$$__");
    let (room, content) = match split_once_at(&cleaned, &sep) {
        Some((room, content)) => (room, content),
        None => ("1".to_owned(), text),
    };
    if is_only_line_breaks(&content) {
        return Err(ReadFailure::NoContent);
    }
    Ok((room, content))
}

/// The decision on a failed read: only a message without text leaves the
/// client connected.
pub fn failure_action(f: &ReadFailure) -> (r: FailureAction)
    ensures
        (r is KeepWaiting) <==> (*f is NoContent),
{
    match f {
        ReadFailure::NoContent => FailureAction::KeepWaiting,
        _ => FailureAction::DropClient,
    }
}

} // verus!

verus! {

/// Rooms `1` and `2` are those of line-oriented consoles, which are
/// answered with prompts rather than with the room's name.
pub open spec fn is_console_room(room: Seq<char>) -> bool {
    room == "1"@ || room == "2"@
}

/// The bytes sent back for the answer `m` to a command.
pub open spec fn command_frame(room: Seq<char>, m: Seq<char>) -> Seq<char> {
    if !is_console_room(room) {
        room + separator() + m + "\n"@ + seq![eot()]
    } else {
        "AI > "@ + m + "\n"@ + "\nHuman > "@ + seq![eot()]
    }
}

/// The bytes sent back for the answer `a` of the assistant.
pub open spec fn answer_frame(room: Seq<char>, a: Seq<char>) -> Seq<char> {
    if !is_console_room(room) {
        room + separator() + a + "\n"@ + seq![eot()]
    } else {
        "AI > "@ + a + "\nHuman > "@ + seq![eot()]
    }
}

fn is_console(room: &String) -> (r: bool)
    ensures
        r == is_console_room(room@),
{
    *room == "1".to_owned() || *room == "2".to_owned()
}

fn eot_string() -> (r: String)
    ensures
        r@ == seq![eot()],
{
    let cs = vec!['\u{4}'];
    crate::text::string_of(&cs, 0, 1)
}

/// Frames the answer `m` to a command for room `room`.
pub fn frame_command_reply(room: &String, m: &String) -> (r: String)
    ensures
        r@ == command_frame(room@, m@),
{
    let mut r = String::new();
    if !is_console(room) {
        r.append(room.as_str());
        r.append("--$$__");
        r.append(m.as_str());
        r.append("\n");
    } else {
        r.append("AI > ");
        r.append(m.as_str());
        r.append("\n");
        r.append("\nHuman > ");
    }
    r.append(eot_string().as_str());
    r
}

/// Frames the answer `a` of the assistant for room `room`.
pub fn frame_answer(room: &String, a: &String) -> (r: String)
    ensures
        r@ == answer_frame(room@, a@),
{
    let mut r = String::new();
    if !is_console(room) {
        r.append(room.as_str());
        r.append("--$$__");
        r.append(a.as_str());
        r.append("\n");
    } else {
        r.append("AI > ");
        r.append(a.as_str());
        r.append("\nHuman > ");
    }
    r.append(eot_string().as_str());
    r
}

} // verus!

verus! {

/// The text of a message as the server and its clients frame it: the room,
/// the separator, the text, and the end-of-message mark.
pub open spec fn framed_message(room: Seq<char>, text: Seq<char>) -> Seq<char> {
    room + separator() + text + seq![eot()]
}

proof fn lemma_without_absent(s: Seq<char>, c: char)
    requires
        !s.contains(c),
    ensures
        without_char(s, c) == s,
    decreases s.len(),
{
    if s.len() > 0 {
        assert(!s.drop_last().contains(c)) by {
            if s.drop_last().contains(c) {
                let j = choose|j: int| 0 <= j < s.drop_last().len() && s.drop_last()[j] == c;
                assert(s[j] == c);
            }
        }
        lemma_without_absent(s.drop_last(), c);
        assert(s.last() != c) by {
            assert(s[s.len() - 1] == s.last());
        }
        assert(s.drop_last().push(s.last()) =~= s);
    }
}

proof fn lemma_without_mark_at_end(s: Seq<char>, c: char)
    ensures
        without_char(s.push(c), c) == without_char(s, c),
{
    assert(s.push(c).drop_last() =~= s);
}

/// A framed message is read back as the room and the text it was framed
/// from, whenever the room holds no separator, neither holds the
/// end-of-message mark, and the text is more than line breaks.
pub proof fn law_framed_message_round_trip(room: Seq<char>, text: Seq<char>)
    requires
        forall|j: int| !#[trigger] occurs_at(room, separator(), j),
        !room.contains(eot()),
        !text.contains(eot()),
        !only_line_breaks(text),
    ensures
        message_parts(framed_message(room, text)) == (room, text),
        message_of(encode_utf8(framed_message(room, text))) == Ok::<(Seq<char>, Seq<char>), ReadFailure>(
            (room, text),
        ),
{
    reveal_strlit("--$$__");
    let sep = separator();
    assert(sep =~= seq!['-', '-', '$', '$', '_', '_']);
    let body = room + sep + text;
    assert(framed_message(room, text) =~= body.push(eot()));
    lemma_without_mark_at_end(body, eot());
    assert(!body.contains(eot())) by {
        if body.contains(eot()) {
            let j = choose|j: int| 0 <= j < body.len() && body[j] == eot();
            if j < room.len() {
                assert(room[j] == eot());
            } else if j < room.len() + 6 {
                assert(sep[j - room.len()] == body[j]);
            } else {
                assert(text[j - room.len() - 6] == body[j]);
            }
        }
    }
    lemma_without_absent(body, eot());
    let n = room.len() as int;
    assert(body.subrange(n, n + 6) =~= sep);
    assert(occurs_at(body, sep, n));
    assert forall|j: int| 0 <= j < n implies !#[trigger] occurs_at(body, sep, j) by {
        if occurs_at(body, sep, j) {
            if j + 6 <= n {
                assert(room.subrange(j, j + 6) =~= body.subrange(j, j + 6));
                assert(occurs_at(room, sep, j));
            } else {
                let d = n - j;
                assert(body.subrange(j, j + 6)[d] == body[n]);
                assert(body[n] == '-');
                if d == 1 {
                    assert(body.subrange(j, j + 6)[2] == body[n + 1]);
                    assert(body[n + 1] == '-');
                }
            }
        }
    }
    assert(first_occurrence(body, sep, n));
    let i = choose|i: int| first_occurrence(body, sep, i);
    assert(i == n) by {
        if i > n {
            assert(!occurs_at(body, sep, n));
        }
    }
    assert(body.take(n) =~= room);
    assert(body.skip(n + 6) =~= text);
    encode_utf8_valid_utf8(framed_message(room, text));
    encode_utf8_decode_utf8(framed_message(room, text));
}

} // verus!

verus! {

/// How many bytes the server asks for at each read of a connection.
pub const READ_CHUNK: usize = 13;

/// What one read of a connection gave.
pub enum ReadEvent {
    /// These bytes arrived; none means the peer closed the connection.
    Bytes(Vec<u8>),
    /// Nothing is ready yet.
    WouldBlock,
    /// The read failed.
    Failed,
}

/// What reading a message does next.
pub enum ReadStep {
    /// Read again.
    Continue,
    /// The message is complete.
    Complete,
    /// No message can be read.
    Stop(ReadFailure),
}

/// One read of a message: the bytes that arrived are added to what was
/// read so far; a read shorter than `READ_CHUNK` ends the message, an empty
/// one means the peer closed the connection, and a failed read ends the
/// reading.
pub fn read_step(buf: &mut Vec<u8>, ev: ReadEvent) -> (r: ReadStep)
    ensures
        match ev {
            ReadEvent::Bytes(b) => if b@.len() == 0 {
                &&& r == ReadStep::Stop(ReadFailure::ConnectionAborted)
                &&& final(buf)@ == old(buf)@
            } else {
                &&& final(buf)@ == old(buf)@ + b@
                &&& (r is Complete) <==> b@.len() != READ_CHUNK
                &&& (r is Continue) <==> b@.len() == READ_CHUNK
            },
            ReadEvent::WouldBlock => r is Continue && final(buf)@ == old(buf)@,
            ReadEvent::Failed => r == ReadStep::Stop(ReadFailure::Io) && final(buf)@ == old(buf)@,
        },
{
    match ev {
        ReadEvent::Bytes(b) => {
            if b.len() == 0 {
                return ReadStep::Stop(ReadFailure::ConnectionAborted);
            }
            let mut i: usize = 0;
            while i < b.len()
                invariant
                    i <= b@.len(),
                    buf@ == old(buf)@ + b@.take(i as int),
                decreases b@.len() - i,
            {
                buf.push(b[i]);
                assert(b@.take(i + 1) =~= b@.take(i as int).push(b@[i as int]));
                i = i + 1;
            }
            assert(b@.take(i as int) =~= b@);
            if b.len() != READ_CHUNK {
                ReadStep::Complete
            } else {
                ReadStep::Continue
            }
        },
        ReadEvent::WouldBlock => ReadStep::Continue,
        ReadEvent::Failed => ReadStep::Stop(ReadFailure::Io),
    }
}

} // verus!

verus! {

/// Rooms `1` and `2` (room `1` is that of every client that sends no
/// separator) are answered with the console prompt, both for the
/// assistant's answers and for the answers to commands; every other room
/// gets its name, the separator and the text back. Both frames end with the
/// end-of-message mark.
pub proof fn law_frames_by_room(room: Seq<char>, a: Seq<char>)
    ensures
        room == "1"@ || room == "2"@ ==> answer_frame(room, a) == "AI > "@ + a + "\nHuman > "@ + seq![eot()],
        room == "1"@ || room == "2"@ ==> command_frame(room, a) == "AI > "@ + a + "\n"@ + "\nHuman > "@ + seq![
            eot(),
        ],
        room != "1"@ && room != "2"@ ==> answer_frame(room, a) == room + "--$$__"@ + a + "\n"@ + seq![eot()],
        room != "1"@ && room != "2"@ ==> command_frame(room, a) == room + "--$$__"@ + a + "\n"@ + seq![eot()],
        answer_frame(room, a).last() == eot(),
        command_frame(room, a).last() == eot(),
{
}

} // verus!
