//! Ask-AI mode. Real model integration is still to come; the reply says so.

use vstd::prelude::*;

verus! {

/// The reply to `message` while no model is connected.
pub open spec fn placeholder_reply(message: Seq<char>) -> Seq<char> {
    "Newtron AI is a placeholder for now. You asked: \""@ + message
        + "\" — real model integration is next on the roadmap."@
}

pub fn ask_newtron(message: &str) -> (r: String)
    ensures
        r@ == placeholder_reply(message@),
{
    let mut r = String::from_str("Newtron AI is a placeholder for now. You asked: \"");
    r.append(message);
    r.append("\" — real model integration is next on the roadmap.");
    r
}

} // verus!
