use vstd::prelude::*;

verus! {

/// The command keyword selected by the first whitespace-delimited token of a
/// line of client input. Any token other than the five recognized keywords,
/// and a line with no token at all, counts as a plain chat message.
#[derive(Clone, Copy, PartialEq, Eq, Structural, Debug)]
pub enum MessageOptions {
    ROOMS,
    JOIN,
    LEAVE,
    MESSAGE,
    WHICH,
    QUIT,
}

/// Which command a first token selects: exact keyword match only, no prefix
/// matching and no case folding.
pub open spec fn spec_option_of(s: Seq<char>) -> MessageOptions {
    if s == "/rooms"@ {
        MessageOptions::ROOMS
    } else if s == "/join"@ {
        MessageOptions::JOIN
    } else if s == "/leave"@ {
        MessageOptions::LEAVE
    } else if s == "/which"@ {
        MessageOptions::WHICH
    } else if s == "/quit"@ {
        MessageOptions::QUIT
    } else {
        MessageOptions::MESSAGE
    }
}

/// String equality by content, usable on string slices.
pub fn str_eq(a: &str, b: &str) -> (r: bool)
    ensures
        r == (a@ == b@),
{
    let sa = a.to_owned();
    let sb = b.to_owned();
    sa == sb
}

impl MessageOptions {
    /// Map a first token to the command it selects.
    pub fn get_option(option: &str) -> (r: MessageOptions)
        ensures
            r == spec_option_of(option@),
    {
        if str_eq(option, "/rooms") {
            MessageOptions::ROOMS
        } else if str_eq(option, "/join") {
            MessageOptions::JOIN
        } else if str_eq(option, "/leave") {
            MessageOptions::LEAVE
        } else if str_eq(option, "/which") {
            MessageOptions::WHICH
        } else if str_eq(option, "/quit") {
            MessageOptions::QUIT
        } else {
            MessageOptions::MESSAGE
        }
    }
}

} // verus!
