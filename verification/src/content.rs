use vstd::prelude::*;

verus! {

/// One message of a conversation, tagged with the role of its author.
#[allow(non_camel_case_types)]
#[derive(Debug, Clone, PartialEq)]
pub enum ContentUnit {
    assistant(String),
    user(String),
    system(String),
}

/// What a message stands for: its role and its text.
pub enum ContentView {
    Assistant(Seq<char>),
    User(Seq<char>),
    System(Seq<char>),
}

impl View for ContentUnit {
    type V = ContentView;

    open spec fn view(&self) -> ContentView {
        match self {
            ContentUnit::assistant(s) => ContentView::Assistant(s@),
            ContentUnit::user(s) => ContentView::User(s@),
            ContentUnit::system(s) => ContentView::System(s@),
        }
    }
}

/// The messages of a history, as views.
pub open spec fn history_view(h: Seq<ContentUnit>) -> Seq<ContentView> {
    h.map_values(|c: ContentUnit| c@)
}

impl ContentUnit {
    /// A message equal to this one.
    pub fn duplicate(&self) -> (r: ContentUnit)
        ensures
            r == *self,
    {
        match self {
            ContentUnit::assistant(s) => ContentUnit::assistant(s.clone()),
            ContentUnit::user(s) => ContentUnit::user(s.clone()),
            ContentUnit::system(s) => ContentUnit::system(s.clone()),
        }
    }
}

/// A copy of a history, message by message.
pub fn duplicate_history(h: &Vec<ContentUnit>) -> (r: Vec<ContentUnit>)
    ensures
        r@ == h@,
{
    let mut r: Vec<ContentUnit> = Vec::new();
    let mut i: usize = 0;
    while i < h.len()
        invariant
            i <= h@.len(),
            r@ == h@.take(i as int),
        decreases h@.len() - i,
    {
        r.push(h[i].duplicate());
        assert(h@.take(i + 1) =~= h@.take(i as int).push(h@[i as int]));
        i = i + 1;
    }
    assert(h@.take(i as int) =~= h@);
    r
}

} // verus!
