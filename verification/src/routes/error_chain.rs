//! The text of an error together with its causes.

use vstd::prelude::*;
use vstd::string::*;

verus! {

/// The lines that name `causes`, the nearest first.
pub open spec fn causes_text(causes: Seq<Seq<char>>) -> Seq<char>
    decreases causes.len(),
{
    if causes.len() == 0 {
        Seq::empty()
    } else {
        causes_text(causes.drop_last()) + "Caused by:\n\t"@ + causes.last() + "\n"@
    }
}

/// The text of an error and its causes: the message, an empty line, then
/// the causes.
pub open spec fn error_chain_text(message: Seq<char>, causes: Seq<Seq<char>>) -> Seq<char> {
    message + "\n\n"@ + causes_text(causes)
}

/// Writes out an error and what caused it: the message of the error
/// first, then one entry for each cause, from the nearest to the root.
pub fn error_chain_fmt(message: &str, causes: &Vec<String>) -> (text: String)
    ensures
        text@ == error_chain_text(message@, causes@.map_values(|cause: String| cause@)),
{
    let ghost all = causes@.map_values(|cause: String| cause@);
    let mut text = String::from_str(message);
    text.append("\n\n");
    let mut i: usize = 0;
    while i < causes.len()
        invariant
            i <= causes.len(),
            all == causes@.map_values(|cause: String| cause@),
            text@ == error_chain_text(message@, all.subrange(0, i as int)),
        decreases causes.len() - i,
    {
        proof {
            assert(all.subrange(0, i + 1).drop_last() =~= all.subrange(0, i as int));
            assert(all.subrange(0, i + 1).last() == causes@[i as int]@);
        }
        let ghost before = text@;
        text.append("Caused by:\n\t");
        text.append(causes[i].as_str());
        text.append("\n");
        proof {
            let earlier = causes_text(all.subrange(0, i as int));
            assert(text@ =~= message@ + "\n\n"@ + (earlier + "Caused by:\n\t"@ + causes@[i as int]@
                + "\n"@));
        }
        i += 1;
    }
    proof {
        assert(all.subrange(0, i as int) =~= all);
    }
    text
}

} // verus!
