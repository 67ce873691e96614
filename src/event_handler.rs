use vstd::prelude::*;

use crate::text::chars_of;

verus! {

/// What to do about one incoming chat message.
pub struct MessageActions {
    /// Text to send back to the message's channel, if any.
    pub reply: Option<String>,
    /// Whether to shut the connection down afterwards.
    pub shutdown: bool,
}

/// Reacts to incoming chat messages.
pub struct Handler;

/// The command that stops the bot.
pub open spec fn stop_command() -> Seq<char> {
    "!stop"@
}

impl Handler {
    /// A message that starts with `!stop` is answered with `Stopping...`;
    /// after any message the connection shuts down.
    pub fn message(&self, content: &str) -> (r: MessageActions)
        ensures
            r.shutdown,
            match r.reply {
                Some(t) => content@.len() >= 5 && content@.subrange(0, 5) == stop_command()
                    && t@ == "Stopping..."@,
                None => !(content@.len() >= 5 && content@.subrange(0, 5) == stop_command()),
            },
    {
        let c = chars_of(content);
        let stop = chars_of("!stop");
        proof {
            reveal_strlit("!stop");
            reveal_strlit("Stopping...");
        }
        assert(stop@.len() == 5);
        let mut starts = c.len() >= stop.len();
        let mut i: usize = 0;
        while starts && i < stop.len()
            invariant
                stop@ == stop_command(),
                stop@.len() == 5,
                starts ==> c.len() >= stop.len(),
                i <= stop.len(),
                starts ==> forall|k: int| 0 <= k < i ==> c@[k] == stop@[k],
                !starts ==> !(c@.len() >= 5 && c@.subrange(0, 5) == stop_command()),
            decreases stop.len() - i,
        {
            if c[i] != stop[i] {
                assert(c@.subrange(0, 5)[i as int] == c@[i as int]);
                starts = false;
            }
            i += 1;
        }
        if starts {
            assert(c@.subrange(0, 5) =~= stop_command());
            MessageActions { reply: Some(String::from_str("Stopping...")), shutdown: true }
        } else {
            MessageActions { reply: None, shutdown: true }
        }
    }
}

} // verus!
