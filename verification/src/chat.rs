//! The part of an OpenAI-compatible chat request that routing reads.

use vstd::prelude::*;
use crate::text::str_equal;

verus! {

/// One message of a chat request: who speaks, and what they say, if anything.
pub struct ChatTurn {
    pub role: String,
    pub content: Option<String>,
}

/// The message is the user's.
pub open spec fn is_user(t: ChatTurn) -> bool {
    t.role@ == seq!['u', 's', 'e', 'r']
}

/// The prompt that a request is routed by: the content of its last user
/// message, or nothing where that message has no content or there is none.
pub open spec fn prompt_of(turns: Seq<ChatTurn>) -> Seq<char>
    decreases turns.len(),
{
    if turns.len() == 0 {
        Seq::empty()
    } else if is_user(turns.last()) {
        match turns.last().content {
            Some(c) => c@,
            None => Seq::empty(),
        }
    } else {
        prompt_of(turns.drop_last())
    }
}

/// The prompt of a chat request: the content of its last user message.
pub fn last_user_prompt(messages: &Vec<ChatTurn>) -> (prompt: String)
    ensures
        prompt@ == prompt_of(messages@),
{
    let mut i = messages.len();
    assert(messages@.take(i as int) =~= messages@);
    while i > 0
        invariant
            i <= messages@.len(),
            prompt_of(messages@) == prompt_of(messages@.take(i as int)),
        decreases i,
    {
        let t = &messages[i - 1];
        proof {
            reveal_strlit("user");
            assert("user"@ =~= seq!['u', 's', 'e', 'r']);
            assert(messages@.take(i as int).last() == messages@[i - 1]);
            assert(messages@.take(i as int).drop_last() =~= messages@.take(i - 1));
        }
        if str_equal(t.role.as_str(), "user") {
            return match &t.content {
                Some(c) => c.clone(),
                None => String::new(),
            };
        }
        i -= 1;
    }
    assert(messages@.take(0) =~= Seq::<ChatTurn>::empty());
    String::new()
}

} // verus!
