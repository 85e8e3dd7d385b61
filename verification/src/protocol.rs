use vstd::prelude::*;
use vstd::string::StringExecFns;

use crate::directory::default_name;
use crate::directory::Directory;
use crate::directory::Session;
use crate::text::newline;

verus! {

/// The prompt the server writes to a fresh connection.
pub open spec fn nickname_prompt_line() -> Seq<char> {
    "Please enter your nickname!\n"@
}

/// The greeting written once the nickname is known.
pub open spec fn welcome_line_of(nick: Seq<char>) -> Seq<char> {
    "Welcome to the chat "@ + nick + newline()
}

pub fn nickname_prompt() -> (r: String)
    ensures
        r@ == nickname_prompt_line(),
{
    "Please enter your nickname!\n".to_owned()
}

pub fn welcome_line(nick: &str) -> (r: String)
    ensures
        r@ == welcome_line_of(nick@),
{
    "Welcome to the chat ".to_owned().concat(nick).concat("\n")
}

/// Register a fresh connection into the default room under its nickname.
/// Refused, with no state change, for an identity already registered.
pub fn register_client(dir: &mut Directory, id: u64, nickname: String) -> (ok: bool)
    requires
        old(dir).wf(),
    ensures
        final(dir).wf(),
        ok == !old(dir).is_registered(id),
        !ok ==> *final(dir) == *old(dir),
        ok ==> {
            &&& final(dir).is_registered(id)
            &&& final(dir).room_of(id) == default_name()
            &&& final(dir).in_room(id, default_name())
            &&& final(dir).session_of(id) == (Session { id, nickname })
            &&& final(dir).members(default_name()) == old(dir).members(default_name()).push(
                (Session { id, nickname }),
            )
            &&& final(dir).room_names_seq() == old(dir).room_names_seq()
            &&& (forall|nm: Seq<char>| final(dir).has_room(nm) == old(dir).has_room(nm))
            &&& (forall|nm: Seq<char>|
                nm != default_name() && old(dir).has_room(nm) ==> final(dir).members(nm) == old(
                    dir,
                ).members(nm))
            &&& (forall|x: u64|
                x != id ==> final(dir).is_registered(x) == old(dir).is_registered(x))
            &&& (forall|x: u64|
                x != id && old(dir).is_registered(x) ==> final(dir).room_of(x) == old(dir).room_of(
                    x,
                ))
        },
{
    match dir.current_room(id) {
        Some(_) => false,
        None => {
            let s = Session::new(id, nickname);
            dir.add_member("default", s);
            true
        },
    }
}

} // verus!
