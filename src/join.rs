use vstd::prelude::*;
use vstd::string::*;

verus! {

/// The pieces with `sep` between each two neighbours.
pub open spec fn joined(pieces: Seq<Seq<char>>, sep: Seq<char>) -> Seq<char>
    decreases pieces.len(),
{
    if pieces.len() == 0 {
        Seq::empty()
    } else if pieces.len() == 1 {
        pieces[0]
    } else {
        joined(pieces.drop_last(), sep) + sep + pieces.last()
    }
}

/// A source of text pieces that can be drained into one string.
pub trait JoinableIterator {
    /// The pieces not yet taken, in order.
    spec fn remaining(&self) -> Seq<Seq<char>>;

    /// Takes every remaining piece and joins them with `sep`.
    fn join(&mut self, sep: &str) -> (r: String)
        ensures
            r@ == joined(old(self).remaining(), sep@),
            final(self).remaining().len() == 0,
    ;
}

impl JoinableIterator for Vec<String> {
    open spec fn remaining(&self) -> Seq<Seq<char>> {
        self@.map_values(|s: String| s@)
    }

    fn join(&mut self, sep: &str) -> (r: String) {
        let ghost pieces = old(self).remaining();
        let mut r = String::new();
        let mut i: usize = 0;
        while i < self.len()
            invariant
                i <= self@.len(),
                pieces == self.remaining(),
                r@ == joined(pieces.subrange(0, i as int), sep@),
            decreases self@.len() - i,
        {
            proof {
                let next = pieces.subrange(0, i + 1);
                assert(next.drop_last() =~= pieces.subrange(0, i as int));
                if i == 0 {
                    assert(next.len() == 1);
                }
            }
            if i > 0 {
                r.append(sep);
            }
            r.append(self[i].as_str());
            i = i + 1;
        }
        proof {
            assert(pieces.subrange(0, i as int) =~= pieces);
        }
        *self = Vec::new();
        proof {
            assert(self.remaining() =~= Seq::<Seq<char>>::empty());
        }
        r
    }
}

} // verus!
