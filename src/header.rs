//! The text of a request's `Cookie` header.

use vstd::prelude::*;
use vstd::string::StringExecFns;

verus! {

/// One cookie as it stands in the header: `name=value`.
pub open spec fn pair_text(p: (String, String)) -> Seq<char> {
    p.0@ + seq!['='] + p.1@
}

/// The pairs in the order given, each as `name=value`, joined by `; `.
pub open spec fn joined(s: Seq<(String, String)>) -> Seq<char>
    decreases s.len(),
{
    if s.len() == 0 {
        Seq::empty()
    } else if s.len() == 1 {
        pair_text(s[0])
    } else {
        joined(s.drop_last()) + seq![';', ' '] + pair_text(s.last())
    }
}

/// The text for at least one pair is never empty.
pub proof fn lemma_joined_not_empty(s: Seq<(String, String)>)
    requires
        s.len() > 0,
    ensures
        joined(s).len() > 0,
{
    assert(pair_text(s.last()).len() > 0);
}

/// The `Cookie` header text for these (name, value) pairs, kept in their
/// order; no text at all when there is no pair.
pub fn cookie_header_text(pairs: &Vec<(String, String)>) -> (r: Option<String>)
    ensures
        r is None <==> pairs.len() == 0,
        r matches Some(t) ==> t@ == joined(pairs@),
{
    if pairs.len() == 0 {
        return None;
    }
    let mut text = String::new();
    let mut i: usize = 0;
    while i < pairs.len()
        invariant
            0 <= i <= pairs.len(),
            i == 0 ==> text@ == Seq::<char>::empty(),
            i > 0 ==> text@ == joined(pairs@.take(i as int)),
        decreases pairs.len() - i,
    {
        proof {
            reveal_strlit("; ");
            reveal_strlit("=");
        }
        if i > 0 {
            text.append("; ");
        }
        text.append(pairs[i].0.as_str());
        text.append("=");
        text.append(pairs[i].1.as_str());
        proof {
            let next = pairs@.take(i + 1);
            assert(next.drop_last() =~= pairs@.take(i as int));
            assert(next.last() == pairs@[i as int]);
            if i == 0 {
                assert(text@ =~= pair_text(pairs@[0]));
            } else {
                assert(text@ =~= joined(pairs@.take(i as int)) + seq![';', ' '] + pair_text(
                    pairs@[i as int],
                ));
            }
        }
        i += 1;
    }
    proof {
        assert(pairs@.take(pairs.len() as int) =~= pairs@);
    }
    Some(text)
}

} // verus!
