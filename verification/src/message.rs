//! The messages the broker consumes.

use vstd::prelude::*;

verus! {

/// One unit of work for the broker.
#[derive(Debug, PartialEq, Eq)]
pub enum Message {
    /// Log in (and later re-log-in) with the given role.
    Login(String),
    /// Fetch or refresh the secret at the given path text; the flag says
    /// whether a changed value triggers template generation.
    GetSecret(String, bool),
    /// Evaluate the named template and write its files.
    GenerateTemplate(String),
}

/// Model of a message over character sequences.
pub enum MsgV {
    Login(Seq<char>),
    GetSecret(Seq<char>, bool),
    GenerateTemplate(Seq<char>),
}

impl View for Message {
    type V = MsgV;

    open spec fn view(&self) -> MsgV {
        match self {
            Message::Login(role) => MsgV::Login(role@),
            Message::GetSecret(path, trigger) => MsgV::GetSecret(path@, *trigger),
            Message::GenerateTemplate(tmpl) => MsgV::GenerateTemplate(tmpl@),
        }
    }
}

/// The views of a queue of messages.
pub open spec fn msg_views(q: Seq<Message>) -> Seq<MsgV> {
    q.map_values(|m: Message| m@)
}

} // verus!
