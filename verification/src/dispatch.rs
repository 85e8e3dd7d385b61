use vstd::prelude::*;
use vstd::string::StringExecFns;

use crate::directory::default_name;
use crate::directory::moved;
use crate::directory::removed;
use crate::directory::Directory;
use crate::directory::Session;
use crate::message::spec_option_of;
use crate::message::str_eq;
use crate::message::MessageOptions;
use crate::text::newline;
use crate::text::split_tokens;
use crate::text::tokens_of;

verus! {

/// The error line sent back for a `/join` with the wrong argument count.
pub open spec fn join_usage_line() -> Seq<char> {
    "invalid usage for /join: expected usage /join <room_name>\n"@
}

/// The error line sent back for `/leave` issued from the default room.
pub open spec fn cannot_leave_line() -> Seq<char> {
    "cannot leave from default room, call /quit instead\n"@
}

/// A broadcast chat line: the sender's nickname, a separator, and the raw
/// line as it arrived, trailing newline included.
pub open spec fn chat_line_of(nick: Seq<char>, line: Seq<char>) -> Seq<char> {
    nick + ": "@ + line
}

/// The lines answering `/rooms`: every known room name, each on its own line.
pub open spec fn room_lines(d: Directory) -> Seq<Seq<char>> {
    d.room_names_seq().map_values(|nm: Seq<char>| nm + newline())
}

/// The shape of one parsed line of client input.
pub enum LineClass {
    Rooms,
    Join(Seq<char>),
    JoinUsage,
    Leave,
    Which,
    Quit,
    Chat,
}

/// How one line of input is read: the first whitespace-delimited token picks
/// the command; `/join` demands exactly one argument; anything else,
/// including a line with no token at all, is a plain chat message.
pub open spec fn classify(line: Seq<char>) -> LineClass {
    let toks = tokens_of(line);
    if toks.len() == 0 {
        LineClass::Chat
    } else {
        match spec_option_of(toks[0]) {
            MessageOptions::ROOMS => LineClass::Rooms,
            MessageOptions::JOIN => if toks.len() == 2 {
                LineClass::Join(toks[1])
            } else {
                LineClass::JoinUsage
            },
            MessageOptions::LEAVE => LineClass::Leave,
            MessageOptions::WHICH => LineClass::Which,
            MessageOptions::QUIT => LineClass::Quit,
            MessageOptions::MESSAGE => LineClass::Chat,
        }
    }
}

/// One parsed line of client input.
pub enum Command {
    Rooms,
    Join(String),
    JoinUsage,
    Leave,
    Which,
    Quit,
    Chat,
}

impl View for Command {
    type V = LineClass;

    open spec fn view(&self) -> LineClass {
        match self {
            Command::Rooms => LineClass::Rooms,
            Command::Join(s) => LineClass::Join(s@),
            Command::JoinUsage => LineClass::JoinUsage,
            Command::Leave => LineClass::Leave,
            Command::Which => LineClass::Which,
            Command::Quit => LineClass::Quit,
            Command::Chat => LineClass::Chat,
        }
    }
}

/// Parse one line of client input into the command it selects.
pub fn parse_command(line: &str) -> (c: Command)
    ensures
        c@ == classify(line@),
{
    let toks = split_tokens(line);
    let ghost tspec = tokens_of(line@);
    proof {
        assert(toks@.map_values(|t: String| t@).len() == tspec.len());
    }
    if toks.len() == 0 {
        Command::Chat
    } else {
        proof {
            assert(toks@.map_values(|t: String| t@)[0] == tspec[0]);
        }
        match MessageOptions::get_option(toks[0].as_str()) {
            MessageOptions::ROOMS => Command::Rooms,
            MessageOptions::JOIN => {
                if toks.len() == 2 {
                    proof {
                        assert(toks@.map_values(|t: String| t@)[1] == tspec[1]);
                    }
                    Command::Join(toks[1].clone())
                } else {
                    Command::JoinUsage
                }
            },
            MessageOptions::LEAVE => Command::Leave,
            MessageOptions::WHICH => Command::Which,
            MessageOptions::QUIT => Command::Quit,
            MessageOptions::MESSAGE => Command::Chat,
        }
    }
}

/// The identities of a member list, the one given left out. Broadcast goes
/// to these, so a sender never receives its own chat line echoed back.
pub open spec fn ids_except(members: Seq<Session>, id: u64) -> Seq<u64>
    decreases members.len(),
{
    if members.len() == 0 {
        Seq::empty()
    } else {
        let rest = ids_except(members.drop_last(), id);
        if members.last().id == id {
            rest
        } else {
            rest.push(members.last().id)
        }
    }
}

/// Law: a broadcast never targets its sender, and it targets every other
/// member of the member list it was computed from.
pub proof fn lemma_broadcast_targets(members: Seq<Session>, id: u64)
    ensures
        forall|k: int|
            0 <= k < ids_except(members, id).len() ==> ids_except(members, id)[k] != id,
        forall|m: int|
            0 <= m < members.len() && members[m].id != id ==> ids_except(members, id).contains(
                members[m].id,
            ),
    decreases members.len(),
{
    if members.len() > 0 {
        lemma_broadcast_targets(members.drop_last(), id);
        let rest = ids_except(members.drop_last(), id);
        assert forall|m: int|
            0 <= m < members.len() && members[m].id != id implies ids_except(
            members,
            id,
        ).contains(members[m].id) by {
            if m < members.len() - 1 {
                assert(members.drop_last()[m] == members[m]);
                let k = choose|k: int| 0 <= k < rest.len() && rest[k] == members[m].id;
                assert(ids_except(members, id)[k] == members[m].id);
            } else {
                assert(ids_except(members, id).last() == members[m].id);
            }
        }
    }
}

/// Everything one line of input asks the connection handler to do: lines to
/// write back to the sender, a line to broadcast with its recipients, and
/// whether the read loop must end.
pub struct Outcome {
    pub replies: Vec<String>,
    pub recipients: Vec<u64>,
    pub message: Option<String>,
    pub quit: bool,
}

/// Execute one line of client input against the directory on behalf of the
/// registered client `id`.
pub fn dispatch(dir: &mut Directory, id: u64, line: &str) -> (out: Outcome)
    requires
        old(dir).wf(),
        old(dir).is_registered(id),
    ensures
        final(dir).wf(),
        match classify(line@) {
            LineClass::Rooms => {
                &&& *final(dir) == *old(dir)
                &&& out.replies@.map_values(|s: String| s@) == room_lines(*old(dir))
                &&& out.recipients@.len() == 0
                &&& out.message is None
                &&& !out.quit
            },
            LineClass::Join(nm) => {
                &&& moved(*old(dir), *final(dir), id, nm)
                &&& out.replies@.len() == 0
                &&& out.recipients@.len() == 0
                &&& out.message is None
                &&& !out.quit
            },
            LineClass::JoinUsage => {
                &&& *final(dir) == *old(dir)
                &&& out.replies@.map_values(|s: String| s@) == seq![join_usage_line()]
                &&& out.recipients@.len() == 0
                &&& out.message is None
                &&& !out.quit
            },
            LineClass::Leave => {
                &&& (old(dir).room_of(id) == default_name() ==> *final(dir) == *old(dir)
                    && out.replies@.map_values(|s: String| s@) == seq![cannot_leave_line()])
                &&& (old(dir).room_of(id) != default_name() ==> moved(
                    *old(dir),
                    *final(dir),
                    id,
                    default_name(),
                ) && out.replies@.len() == 0)
                &&& out.recipients@.len() == 0
                &&& out.message is None
                &&& !out.quit
            },
            LineClass::Which => {
                &&& *final(dir) == *old(dir)
                &&& out.replies@.map_values(|s: String| s@) == seq![
                    old(dir).room_of(id) + newline(),
                ]
                &&& out.recipients@.len() == 0
                &&& out.message is None
                &&& !out.quit
            },
            LineClass::Quit => {
                &&& removed(*old(dir), *final(dir), id)
                &&& out.replies@.len() == 0
                &&& out.recipients@.len() == 0
                &&& out.message is None
                &&& out.quit
            },
            LineClass::Chat => {
                &&& *final(dir) == *old(dir)
                &&& out.recipients@ == ids_except(old(dir).members(old(dir).room_of(id)), id)
                &&& out.message matches Some(m) && m@ == chat_line_of(
                    old(dir).session_of(id).nickname@,
                    line@,
                )
                &&& out.replies@.len() == 0
                &&& !out.quit
            },
        },
{
    let cmd = parse_command(line);
    match cmd {
        Command::Rooms => {
            let names = dir.room_names();
            let mut replies: Vec<String> = Vec::new();
            let mut i: usize = 0;
            while i < names.len()
                invariant
                    i <= names@.len(),
                    replies@.len() == i,
                    names@.map_values(|s: String| s@) == dir.room_names_seq(),
                    forall|k: int| 0 <= k < i ==> replies@[k]@ == names@[k]@ + newline(),
                decreases names@.len() - i,
            {
                replies.push(names[i].clone().concat("\n"));
                i = i + 1;
            }
            proof {
                assert(replies@.map_values(|s: String| s@) =~= room_lines(*dir));
            }
            Outcome { replies, recipients: Vec::new(), message: None, quit: false }
        },
        Command::JoinUsage => {
            let mut replies: Vec<String> = Vec::new();
            replies.push("invalid usage for /join: expected usage /join <room_name>\n".to_owned());
            proof {
                assert(replies@.map_values(|s: String| s@) =~= seq![join_usage_line()]);
            }
            Outcome { replies, recipients: Vec::new(), message: None, quit: false }
        },
        Command::Join(name) => {
            dir.move_member(id, name.as_str());
            Outcome { replies: Vec::new(), recipients: Vec::new(), message: None, quit: false }
        },
        Command::Leave => {
            let cur = dir.current_room(id).unwrap();
            if str_eq(cur.as_str(), "default") {
                let mut replies: Vec<String> = Vec::new();
                replies.push("cannot leave from default room, call /quit instead\n".to_owned());
                proof {
                    assert(replies@.map_values(|s: String| s@) =~= seq![cannot_leave_line()]);
                }
                Outcome { replies, recipients: Vec::new(), message: None, quit: false }
            } else {
                dir.move_member(id, "default");
                Outcome { replies: Vec::new(), recipients: Vec::new(), message: None, quit: false }
            }
        },
        Command::Which => {
            let cur = dir.current_room(id).unwrap();
            let mut replies: Vec<String> = Vec::new();
            replies.push(cur.concat("\n"));
            proof {
                assert(replies@.map_values(|s: String| s@) =~= seq![dir.room_of(id) + newline()]);
            }
            Outcome { replies, recipients: Vec::new(), message: None, quit: false }
        },
        Command::Quit => {
            let _ = dir.deregister(id);
            Outcome { replies: Vec::new(), recipients: Vec::new(), message: None, quit: true }
        },
        Command::Chat => {
            let cur = dir.current_room(id).unwrap();
            let nick = dir.nickname_of(id);
            proof {
                crate::directory::lemma_membership_consistent(*dir, id);
            }
            let members = dir.members_of(cur.as_str());
            let mut recipients: Vec<u64> = Vec::new();
            let mut i: usize = 0;
            while i < members.len()
                invariant
                    i <= members@.len(),
                    recipients@ == ids_except(members@.take(i as int), id),
                decreases members@.len() - i,
            {
                proof {
                    assert(members@.take(i as int + 1).drop_last() =~= members@.take(i as int));
                    assert(members@.take(i as int + 1).last() == members@[i as int]);
                }
                if members[i].id != id {
                    recipients.push(members[i].id);
                }
                i = i + 1;
            }
            proof {
                assert(members@.take(members@.len() as int) =~= members@);
            }
            let msg = nick.concat(": ").concat(line);
            Outcome { replies: Vec::new(), recipients, message: Some(msg), quit: false }
        },
    }
}

} // verus!
