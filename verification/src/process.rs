//! What the compile pipeline keeps of a module's comments when it minifies.
use vstd::prelude::*;
use crate::comments::LeadingComment;
use crate::text::{has_prefix, starts_with};

verus! {

/// The comments in `cs` whose text begins with `!`, in order.
pub open spec fn preserved(cs: Seq<(u32, crate::comments::CommentKind, Seq<char>)>) -> Seq<
    (u32, crate::comments::CommentKind, Seq<char>),
>
    decreases cs.len(),
{
    if cs.len() == 0 {
        seq![]
    } else {
        preserved(cs.drop_last()) + if has_prefix(cs.last().2, seq!['!']) {
            seq![cs.last()]
        } else {
            seq![]
        }
    }
}

/// Keeps the comments at one position that a minified output keeps (those
/// beginning with `!`), and tells whether any are left.
pub fn preserve_excl(comments: &mut Vec<LeadingComment>) -> (r: bool)
    ensures
        final(comments)@.map_values(|c: LeadingComment| c@) == preserved(
            old(comments)@.map_values(|c: LeadingComment| c@),
        ),
        r == (final(comments)@.len() > 0),
{
    let ghost all = old(comments)@.map_values(|c: LeadingComment| c@);
    let mut kept: Vec<LeadingComment> = Vec::new();
    let mut rest: Vec<LeadingComment> = Vec::new();
    std::mem::swap(&mut rest, comments);
    let ghost orig = rest@;
    let n = rest.len();
    let mut i: usize = 0;
    proof {
        assert(all.take(0) =~= seq![]);
    }
    while i < n
        invariant
            i <= n,
            n == orig.len(),
            all == orig.map_values(|c: LeadingComment| c@),
            rest@ == orig.skip(i as int),
            kept@.map_values(|c: LeadingComment| c@) == preserved(all.take(i as int)),
        decreases n - i,
    {
        let c = rest.remove(0);
        proof {
            assert(c == orig[i as int]);
            assert(all.take(i + 1).drop_last() =~= all.take(i as int));
            assert(all.take(i + 1).last() == c@);
            assert(rest@ =~= orig.skip(i + 1));
        }
        let keep = starts_with(c.text.as_str(), "!");
        proof {
            reveal_strlit("!");
            assert("!"@ =~= seq!['!']);
        }
        let ghost k0 = kept@.map_values(|c: LeadingComment| c@);
        let ghost cv = c@;
        if keep {
            kept.push(c);
        }
        proof {
            assert(kept@.map_values(|c: LeadingComment| c@) =~= preserved(all.take(i + 1)));
        }
        i = i + 1;
    }
    proof {
        assert(all.take(n as int) =~= all);
    }
    *comments = kept;
    comments.len() > 0
}

} // verus!
