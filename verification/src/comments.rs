//! The comments of a module that sit before a byte position.
use vstd::prelude::*;

verus! {

/// `// ...` or `/* ... */`.
#[derive(Clone, Copy, PartialEq, Eq, Structural, Debug)]
pub enum CommentKind {
    Line,
    Block,
}

/// A comment placed before the node that starts at `pos`.
#[derive(Debug)]
pub struct LeadingComment {
    pub pos: u32,
    pub kind: CommentKind,
    pub text: String,
}

impl View for LeadingComment {
    type V = (u32, CommentKind, Seq<char>);

    open spec fn view(&self) -> (u32, CommentKind, Seq<char>) {
        (self.pos, self.kind, self.text@)
    }
}

/// The leading comments of a module, in the order they were added.
#[derive(Debug)]
pub struct Comments {
    pub leading: Vec<LeadingComment>,
}

impl View for Comments {
    type V = Seq<(u32, CommentKind, Seq<char>)>;

    open spec fn view(&self) -> Seq<(u32, CommentKind, Seq<char>)> {
        self.leading@.map_values(|c: LeadingComment| c@)
    }
}

/// The kinds and texts of the comments in `cs` placed at `pos`, in order.
pub open spec fn comments_at(cs: Seq<(u32, CommentKind, Seq<char>)>, pos: u32) -> Seq<
    (CommentKind, Seq<char>),
>
    decreases cs.len(),
{
    if cs.len() == 0 {
        seq![]
    } else {
        comments_at(cs.drop_last(), pos) + if cs.last().0 == pos {
            seq![(cs.last().1, cs.last().2)]
        } else {
            seq![]
        }
    }
}

impl Comments {
    pub fn new() -> (r: Comments)
        ensures
            r@ == Seq::<(u32, CommentKind, Seq<char>)>::empty(),
    {
        let r = Comments { leading: Vec::new() };
        assert(r@ =~= Seq::<(u32, CommentKind, Seq<char>)>::empty());
        r
    }

    /// A copy of these comments.
    pub fn copy(&self) -> (r: Comments)
        ensures
            r@ == self@,
    {
        let mut leading: Vec<LeadingComment> = Vec::new();
        let mut i: usize = 0;
        while i < self.leading.len()
            invariant
                i <= self.leading.len(),
                leading.len() == i,
                forall|j: int| 0 <= j < i ==> leading@[j]@ == self.leading@[j]@,
            decreases self.leading.len() - i,
        {
            let c = &self.leading[i];
            leading.push(LeadingComment { pos: c.pos, kind: c.kind, text: c.text.clone() });
            i = i + 1;
        }
        let r = Comments { leading };
        assert(r@ =~= self@);
        r
    }

    /// Places a comment before the node that starts at `pos`.
    pub fn add_leading(&mut self, pos: u32, kind: CommentKind, text: String)
        ensures
            final(self)@ == old(self)@.push((pos, kind, text@)),
    {
        let c = LeadingComment { pos, kind, text };
        self.leading.push(c);
        assert(self@ =~= old(self)@.push(c@));
    }

    /// The comments placed at `pos`, in order.
    pub fn get_leading(&self, pos: u32) -> (r: Vec<(CommentKind, String)>)
        ensures
            r@.map_values(|c: (CommentKind, String)| (c.0, c.1@)) == comments_at(self@, pos),
    {
        let ghost all = self@;
        let mut r: Vec<(CommentKind, String)> = Vec::new();
        let mut i: usize = 0;
        while i < self.leading.len()
            invariant
                i <= self.leading.len(),
                all == self@,
                r@.map_values(|c: (CommentKind, String)| (c.0, c.1@)) == comments_at(
                    all.take(i as int),
                    pos,
                ),
            decreases self.leading.len() - i,
        {
            let c = &self.leading[i];
            let ghost before = r@;
            if c.pos == pos {
                r.push((c.kind, c.text.clone()));
            }
            proof {
                assert(all.take(i + 1).drop_last() =~= all.take(i as int));
                assert(all.take(i + 1).last() == c@);
                assert(r@.map_values(|c: (CommentKind, String)| (c.0, c.1@)) =~= comments_at(
                    all.take(i + 1),
                    pos,
                ));
            }
            i = i + 1;
        }
        proof {
            assert(all.take(self.leading.len() as int) =~= all);
        }
        r
    }
}

} // verus!
