//! What commands print, by channel.

use vstd::prelude::*;

verus! {

/// A line for one of the channels.
#[derive(Debug)]
pub enum Message {
    Run(String),
    Result(String),
    Verify(String),
    Bench(String),
    Error(String),
}

/// The contents of a [`Message`].
pub ghost enum MessageView {
    Run(Seq<char>),
    Result(Seq<char>),
    Verify(Seq<char>),
    Bench(Seq<char>),
    Error(Seq<char>),
}

impl View for Message {
    type V = MessageView;

    open spec fn view(&self) -> MessageView {
        match self {
            Message::Run(t) => MessageView::Run(t@),
            Message::Result(t) => MessageView::Result(t@),
            Message::Verify(t) => MessageView::Verify(t@),
            Message::Bench(t) => MessageView::Bench(t@),
            Message::Error(t) => MessageView::Error(t@),
        }
    }
}

/// The contents of a list of messages.
pub open spec fn message_views(v: Seq<Message>) -> Seq<MessageView> {
    v.map_values(|m: Message| m@)
}

/// Adds a message to a list.
pub fn push_message(out: &mut Vec<Message>, m: Message)
    ensures
        message_views(final(out)@) == message_views(old(out)@).push(m@),
{
    out.push(m);
    assert(message_views(out@) =~= message_views(old(out)@).push(m@));
}

} // verus!
