//! The per-connection session state machine: handshake, relay loop, teardown.
//! Each accepted connection owns one `Session`; the session is the only
//! trigger for directory inserts and removals and for the join/part
//! announcements. The caller performs the reads and writes and hands the
//! session plain lines; every decision is made here.
use crate::codec;
use crate::directory::{dir_excluding, dir_has, dir_name_of, dir_names, Directory, Entry};
use vstd::prelude::*;

verus! {

#[derive(PartialEq, Eq, Structural, Clone, Copy, Debug)]
pub enum SessionState {
    Connecting,
    AwaitingName,
    Joined,
    Closed,
}

pub struct Session {
    pub id: u64,
    pub state: SessionState,
}

/// One line to deliver, and the recipients to deliver it to, each named by
/// identity and display name.
pub struct Outgoing {
    pub line: String,
    pub recipients: Vec<(u64, String)>,
}

/// Everything a successful handshake produces: the roster line owed to the
/// joiner, and the join announcement owed to everyone else.
pub struct JoinReply {
    pub roster: String,
    pub announcement: Outgoing,
}

/// The recipient set of a broadcast: every directory entry except the sender.
pub open spec fn recipients_of(d: Seq<Entry>, sender: u64) -> Seq<Entry> {
    dir_excluding(d, sender)
}

/// The sender name used on a chat line: the registered name, or the empty
/// name if the sender is no longer present.
pub open spec fn sender_name(d: Seq<Entry>, id: u64) -> Seq<char> {
    dir_name_of(d, id)
}

impl Session {
    pub fn new(id: u64) -> (s: Session)
        ensures
            s.id == id,
            s.state is Connecting,
    {
        Session { id, state: SessionState::Connecting }
    }

    /// The first transition: greet the connection with the handshake prompt.
    pub fn greet(&mut self) -> (prompt: String)
        requires
            old(self).state is Connecting,
        ensures
            final(self).id == old(self).id,
            final(self).state is AwaitingName,
            prompt@ == codec::prompt_line(),
    {
        self.state = SessionState::AwaitingName;
        codec::format_prompt()
    }

    /// The handshake: validate the submitted name. On success the session is
    /// joined: the roster is captured before the insertion, the directory
    /// gains this connection, and a join announcement is owed to everyone
    /// who was present before. On failure the session closes, the directory
    /// is untouched, and nothing is broadcast.
    pub fn handle_name(&mut self, dir: &mut Directory, line: &str) -> (r: Option<JoinReply>)
        requires
            old(self).state is AwaitingName,
            old(dir).wf(),
            !old(dir).has(old(self).id),
        ensures
            final(self).id == old(self).id,
            final(dir).wf(),
            codec::valid_name(line@) ==> {
                &&& final(self).state is Joined
                &&& final(dir)@ == old(dir)@.push((old(self).id, line@))
                &&& r matches Some(reply) && reply.roster@ == codec::roster_line(
                    dir_names(old(dir)@),
                ) && reply.announcement.line@ == codec::join_announcement(line@)
                    && reply.announcement.recipients.deep_view() == old(dir)@
            },
            !codec::valid_name(line@) ==> {
                &&& final(self).state is Closed
                &&& final(dir)@ == old(dir)@
                &&& r is None
            },
    {
        if !codec::validate_name(line) {
            self.state = SessionState::Closed;
            return None;
        }
        let roster_names = dir.lookup_roster();
        let roster = codec::format_roster_line(&roster_names);
        let recipients = dir.snapshot_recipients(self.id);
        proof {
            crate::directory::lemma_dir_excluding_absent(dir@, self.id);
        }
        dir.insert(self.id, String::from_str(line));
        self.state = SessionState::Joined;
        let announcement = Outgoing { line: codec::format_join_announcement(line), recipients };
        Some(JoinReply { roster, announcement })
    }

    /// The relay loop: one received line. A non-empty line becomes a chat
    /// broadcast attributed to this session, addressed to every other
    /// directory entry; an empty line produces nothing.
    pub fn handle_chat(&self, dir: &Directory, line: &str) -> (r: Option<Outgoing>)
        requires
            self.state is Joined,
            dir.wf(),
        ensures
            line@.len() == 0 ==> r is None,
            line@.len() > 0 ==> (r matches Some(out) && out.line@ == codec::chat_line(
                sender_name(dir@, self.id),
                line@,
            ) && out.recipients.deep_view() == recipients_of(dir@, self.id)),
    {
        if line.is_empty() {
            return None;
        }
        let name = match dir.get_name(self.id) {
            Some(n) => n,
            None => String::new(),
        };
        let out_line = codec::format_chat_line(name.as_str(), line);
        let recipients = dir.snapshot_recipients(self.id);
        Some(Outgoing { line: out_line, recipients })
    }

    /// Teardown: run on read failure or end-of-stream. Only a joined session
    /// touches the directory or broadcasts; the departure sequence runs at
    /// most once, since the session is Closed afterwards.
    pub fn handle_disconnect(&mut self, dir: &mut Directory) -> (r: Option<Outgoing>)
        requires
            old(dir).wf(),
        ensures
            final(self).id == old(self).id,
            final(self).state is Closed,
            final(dir).wf(),
            old(self).state is Joined ==> {
                &&& final(dir)@ == recipients_of(old(dir)@, old(self).id)
                &&& !dir_has(final(dir)@, old(self).id)
                &&& (r matches Some(out) ==> out.line@ == codec::part_announcement(
                    sender_name(old(dir)@, old(self).id),
                ) && out.recipients.deep_view() == recipients_of(old(dir)@, old(self).id))
                &&& (r is Some <==> dir_has(old(dir)@, old(self).id))
            },
            !(old(self).state is Joined) ==> {
                &&& final(dir)@ == old(dir)@
                &&& r is None
            },
    {
        let was_joined = match self.state {
            SessionState::Joined => true,
            _ => false,
        };
        self.state = SessionState::Closed;
        if !was_joined {
            return None;
        }
        let name = match dir.get_name(self.id) {
            Some(n) => n,
            None => {
                proof {
                    crate::directory::lemma_dir_excluding_absent(dir@, self.id);
                }
                return None;
            },
        };
        let line = codec::format_part_announcement(name.as_str());
        let recipients = dir.snapshot_recipients(self.id);
        dir.remove(self.id);
        Some(Outgoing { line, recipients })
    }
}

} // verus!
