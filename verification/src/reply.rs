use vstd::prelude::*;

use crate::command::is_image_size;
use crate::content::{ContentUnit, ContentView};

verus! {

/// The text that answers a question, from the message that the assistant
/// service chose: its own words as they are, a user's or a system's
/// message marked as such.
pub open spec fn answer_text_of(m: ContentView) -> Seq<char> {
    match m {
        ContentView::Assistant(x) => x,
        ContentView::User(x) => "Human: "@ + x,
        ContentView::System(x) => "System: "@ + x,
    }
}

/// The text that answers a question, from the message that the assistant
/// service chose.
pub fn answer_text(m: &ContentUnit) -> (r: String)
    ensures
        r@ == answer_text_of(m@),
{
    match m {
        ContentUnit::assistant(x) => x.clone(),
        ContentUnit::user(x) => {
            let mut r = "Human: ".to_owned();
            r.append(x.as_str());
            r
        },
        ContentUnit::system(x) => {
            let mut r = "System: ".to_owned();
            r.append(x.as_str());
            r
        },
    }
}

/// The answer to a picture request in a size that cannot be drawn.
pub open spec fn size_refusal() -> Seq<char> {
    "size only support: 1024x1024, 512x512, 256x256"@
}

/// `None` where pictures can be drawn in `size`; otherwise the answer that
/// refuses the request.
pub fn check_image_size(size: &String) -> (r: Option<String>)
    ensures
        match r {
            None => is_image_size(size@),
            Some(m) => !is_image_size(size@) && m@ == size_refusal(),
        },
{
    if *size == "1024x1024".to_owned() || *size == "512x512".to_owned() || *size == "256x256".to_owned() {
        None
    } else {
        Some("size only support: 1024x1024, 512x512, 256x256".to_owned())
    }
}

/// The lines `lines` joined by line breaks.
pub open spec fn joined_lines(lines: Seq<Seq<char>>) -> Seq<char>
    decreases lines.len(),
{
    if lines.len() == 0 {
        Seq::empty()
    } else if lines.len() == 1 {
        lines[0]
    } else {
        joined_lines(lines.drop_last()) + "\n"@ + lines.last()
    }
}

/// The addresses of drawn pictures, one per line.
pub fn join_lines(lines: &Vec<String>) -> (r: String)
    ensures
        r@ == joined_lines(lines@.map_values(|s: String| s@)),
{
    let ghost ls = lines@.map_values(|s: String| s@);
    let mut r = String::new();
    let mut i: usize = 0;
    while i < lines.len()
        invariant
            i <= lines@.len(),
            ls == lines@.map_values(|s: String| s@),
            r@ == joined_lines(ls.take(i as int)),
        decreases lines@.len() - i,
    {
        assert(ls.take(i + 1).drop_last() =~= ls.take(i as int));
        if i > 0 {
            r.append("\n");
        }
        r.append(lines[i].as_str());
        proof {
            if i == 0 {
                assert(r@ =~= ls.take(1)[0]);
            }
        }
        assert(r@ =~= joined_lines(ls.take(i + 1)));
        i = i + 1;
    }
    assert(ls.take(i as int) =~= ls);
    r
}

} // verus!
