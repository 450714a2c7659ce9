//! An error together with the errors behind it.

use vstd::prelude::*;
use vstd::string::*;

use crate::text;

verus! {

/// The words of the errors on one line.
pub open spec fn chained(chain: Seq<Seq<char>>) -> Seq<char> {
    text::joined(chain, ": "@)
}

/// The words of an error and of the errors behind it, outermost first, on one
/// line.
pub fn format_error_chain(chain: &Vec<String>) -> (r: String)
    ensures
        r@ == chained(text::str_views(chain@)),
{
    let ghost all = text::str_views(chain@);
    let mut out = String::new();
    let mut i: usize = 0;
    proof {
        assert(all.take(0) =~= Seq::empty());
    }
    while i < chain.len()
        invariant
            all == text::str_views(chain@),
            i <= chain@.len(),
            out@ == text::joined(all.take(i as int), ": "@),
        decreases chain.len() - i,
    {
        proof {
            assert(all.take(i + 1).drop_last() =~= all.take(i as int));
            assert(all.take(i + 1).last() == chain@[i as int]@);
        }
        if i > 0 {
            out.append(": ");
            out.append(chain[i].as_str());
        } else {
            out = chain[i].clone();
        }
        i = i + 1;
    }
    proof {
        assert(all.take(i as int) =~= all);
    }
    out
}

/// The error behind the others comes last, behind a colon and a space.
pub proof fn law_chain_goes_inwards(chain: Seq<Seq<char>>, words: Seq<char>)
    ensures
        chained(chain.push(words)) == if chain.len() == 0 {
            words
        } else {
            chained(chain) + ": "@ + words
        },
        chained(Seq::empty()).len() == 0,
{
    assert(chain.push(words).drop_last() =~= chain);
}

} // verus!
