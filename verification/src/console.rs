use vstd::prelude::*;

use crate::message::{eot, message_parts, separator, without_char};
use crate::text::{first_occurrence, occurs_at};
use crate::text::{chars_of, string_of};

verus! {

/// The message that the console client sends for the line `line` typed by
/// its user: room `2`, the separator, the line, the end-of-message mark.
pub open spec fn request_of(line: Seq<char>) -> Seq<char> {
    "2--$$__"@ + line + seq![eot()]
}

pub fn frame_request(line: &String) -> (r: String)
    ensures
        r@ == request_of(line@),
{
    let mut r = "2--$$__".to_owned();
    r.append(line.as_str());
    let e = vec!['\u{4}'];
    r.append(string_of(&e, 0, 1).as_str());
    r
}

/// `s` cut at every line break, as `str::split("\n")` cuts it.
pub open spec fn split_lines(s: Seq<char>) -> Seq<Seq<char>>
    decreases s.len(),
{
    if s.len() == 0 {
        seq![Seq::empty()]
    } else {
        let p = split_lines(s.drop_last());
        if s.last() == '\n' {
            p.push(Seq::empty())
        } else {
            p.update(p.len() - 1, p.last().push(s.last()))
        }
    }
}

/// The lines that the console client prints for the answer `answer`:
/// `AI: ` and the answer without end-of-message marks, cut at line breaks.
pub open spec fn display_of(answer: Seq<char>) -> Seq<Seq<char>> {
    split_lines("AI: "@ + without_char(answer, eot()))
}

/// The lines to print for the answer `answer`.
pub fn display_lines(answer: &String) -> (r: Vec<String>)
    ensures
        r@.map_values(|s: String| s@) == display_of(answer@),
{
    let mut full = "AI: ".to_owned();
    let cs0 = chars_of(answer.as_str());
    let cleaned = crate::message::remove_char(&cs0, '\u{4}');
    let n0 = cleaned.len();
    full.append(string_of(&cleaned, 0, n0).as_str());
    assert(cleaned@.subrange(0, n0 as int) =~= cleaned@);
    let cs = chars_of(full.as_str());
    let mut r: Vec<String> = Vec::new();
    let mut start: usize = 0;
    let mut i: usize = 0;
    assert(cs@.take(0) =~= Seq::<char>::empty());
    assert(r@.map_values(|s: String| s@).push(cs@.subrange(0, 0)) =~= seq![Seq::<char>::empty()]);
    while i < cs.len()
        invariant
            start <= i <= cs@.len(),
            r@.map_values(|s: String| s@).push(cs@.subrange(start as int, i as int)) == split_lines(cs@.take(i as int)),
        decreases cs@.len() - i,
    {
        let ghost prev = split_lines(cs@.take(i as int));
        assert(cs@.take(i + 1).drop_last() =~= cs@.take(i as int));
        if cs[i] == '\n' {
            let piece = string_of(&cs, start, i);
            let ghost old_start = start;
            let ghost old_views = r@.map_values(|s: String| s@);
            r.push(piece);
            assert(r@.map_values(|s: String| s@) =~= old_views.push(cs@.subrange(start as int, i as int)));
            start = i + 1;
            assert(cs@.subrange(start as int, i + 1) =~= Seq::<char>::empty());
            assert(prev == old_views.push(cs@.subrange(old_start as int, i as int)));
            assert(r@.map_values(|s: String| s@).push(cs@.subrange(start as int, i + 1)) =~= prev.push(Seq::empty()));
        } else {
            assert(cs@.subrange(start as int, i + 1) =~= cs@.subrange(start as int, i as int).push(cs@[i as int]));
            assert(r@.map_values(|s: String| s@).push(cs@.subrange(start as int, i + 1)) =~= prev.update(
                prev.len() - 1,
                prev.last().push(cs@[i as int]),
            ));
        }
        i = i + 1;
    }
    let n = cs.len();
    r.push(string_of(&cs, start, n));
    assert(cs@.take(n as int) =~= cs@);
    assert(r@.map_values(|s: String| s@) =~= split_lines(cs@));
    r
}

} // verus!

verus! {

broadcast use vstd::string::group_string_axioms;

proof fn lemma_without_char_append(a: Seq<char>, b: Seq<char>, c: char)
    ensures
        without_char(a + b, c) == without_char(a, c) + without_char(b, c),
    decreases b.len(),
{
    if b.len() == 0 {
        assert(a + b =~= a);
        assert(without_char(a, c) + without_char(b, c) =~= without_char(a, c));
    } else {
        assert((a + b).drop_last() =~= a + b.drop_last());
        assert((a + b).last() == b.last());
        lemma_without_char_append(a, b.drop_last(), c);
        if b.last() == c {
        } else {
            assert(without_char(a, c) + without_char(b.drop_last(), c).push(b.last()) =~= (without_char(a, c)
                + without_char(b.drop_last(), c)).push(b.last()));
        }
    }
}

proof fn lemma_without_absent_char(s: Seq<char>, c: char)
    requires
        forall|i: int| 0 <= i < s.len() ==> s[i] != c,
    ensures
        without_char(s, c) == s,
    decreases s.len(),
{
    if s.len() > 0 {
        lemma_without_absent_char(s.drop_last(), c);
        assert(s.drop_last().push(s.last()) =~= s);
    }
}

/// What the console client sends for a typed line reaches the server as a
/// message for room `2` whose text is the line, end-of-message marks left
/// out.
pub proof fn law_console_request_is_for_room_two(line: Seq<char>)
    ensures
        message_parts(request_of(line)) == ("2"@, without_char(line, eot())),
{
    reveal_strlit("2--$$__");
    reveal_strlit("--$$__");
    reveal_strlit("2");
    let head = "2--$$__"@;
    let msg = request_of(line);
    let body = without_char(line, eot());
    assert(msg =~= head + (line + seq![eot()]));
    lemma_without_char_append(head, line + seq![eot()], eot());
    lemma_without_char_append(line, seq![eot()], eot());
    assert(without_char(seq![eot()], eot()) =~= Seq::<char>::empty()) by {
        reveal_with_fuel(without_char, 2);
        assert(seq![eot()].drop_last() =~= Seq::<char>::empty());
    }
    assert(head =~= seq!['2', '-', '-', '$', '$', '_', '_']);
    assert(without_char(head, eot()) == head) by {
        lemma_without_absent_char(head, eot());
    }
    let cleaned = without_char(msg, eot());
    assert(cleaned =~= head + body);
    let sep = separator();
    assert(sep =~= seq!['-', '-', '$', '$', '_', '_']);
    assert(occurs_at(cleaned, sep, 1)) by {
        assert(cleaned.subrange(1, 7) =~= sep);
    }
    assert(!occurs_at(cleaned, sep, 0)) by {
        assert(cleaned.subrange(0, 6)[0] == '2');
    }
    assert(first_occurrence(cleaned, sep, 1));
    let i = choose|i: int| first_occurrence(cleaned, sep, i);
    assert(i == 1) by {
        if i > 1 {
            assert(!occurs_at(cleaned, sep, 1));
        }
    }
    assert(cleaned.take(1) =~= "2"@);
    assert(cleaned.skip(7) =~= body);
}

} // verus!
