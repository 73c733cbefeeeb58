//! The host-facing request surface: chat and bounded-generation requests on
//! their way to the dispatcher, and the handle of the dialog conduit the
//! host currently reads answers from.
//!
//! The surrounding runtime owns the real channel endpoints; here a conduit
//! is a plain handle, and the pending requests are an ordered outbox that
//! the runtime drains into the command stream in submission order.

use vstd::prelude::*;
use crate::session::ChannelId;

verus! {

/// A request submitted by the host application: an open-ended chat turn, or
/// a generation bounded to a maximum number of steps.  Each carries the
/// prompt text and the handle of the conduit that receives the answer
/// pieces.
#[derive(Clone, Debug)]
pub enum ChatRequest {
    Chat(String, ChannelId),
    Generate(String, ChannelId, usize),
}

/// The host-side channel state: requests not yet forwarded, in submission
/// order, and the dialog conduit the host currently reads from, if any.
pub struct Channels {
    pub pending: Vec<ChatRequest>,
    pub dialog: Option<ChannelId>,
}

impl Channels {
    /// Freshly initialized: nothing pending, no dialog conduit.
    pub fn new() -> (c: Channels)
        ensures
            c.pending@ == Seq::<ChatRequest>::empty(),
            c.dialog is None,
    {
        Channels { pending: Vec::new(), dialog: None }
    }
}

/// Submit a chat turn: appended to the outbox, behind every earlier
/// request; nothing else changes.
pub fn chat(channels: &mut Channels, prompt: String, sender: ChannelId)
    ensures
        final(channels).pending@ == old(channels).pending@.push(
            ChatRequest::Chat(prompt, sender),
        ),
        final(channels).dialog == old(channels).dialog,
{
    channels.pending.push(ChatRequest::Chat(prompt, sender));
}

/// Submit a bounded generation of at most `max_steps` pieces: appended to
/// the outbox, behind every earlier request; nothing else changes.
pub fn generate(channels: &mut Channels, prompt: String, sender: ChannelId, max_steps: usize)
    ensures
        final(channels).pending@ == old(channels).pending@.push(
            ChatRequest::Generate(prompt, sender, max_steps),
        ),
        final(channels).dialog == old(channels).dialog,
{
    channels.pending.push(ChatRequest::Generate(prompt, sender, max_steps));
}

/// The dialog conduit the host currently reads from, if one is installed.
pub fn dialog(channels: &Channels) -> (r: Option<ChannelId>)
    ensures
        r == channels.dialog,
{
    channels.dialog
}

/// Install the conduit of a freshly started chat or generation as the one
/// the host reads from, returning the handle it replaces.
pub fn set_dialog(channels: &mut Channels, receiver: ChannelId) -> (prev: Option<ChannelId>)
    ensures
        final(channels).dialog == Some(receiver),
        final(channels).pending == old(channels).pending,
        prev == old(channels).dialog,
{
    let prev = channels.dialog;
    channels.dialog = Some(receiver);
    prev
}

/// The display form of a streamed answer piece: the backend's two-character
/// newline escape becomes a real newline; every other piece is passed
/// through unchanged.
pub fn piece_text(piece: String) -> (r: String)
    ensures
        piece@ == "\\n"@ ==> r@ == "\n"@,
        piece@ != "\\n"@ ==> r == piece,
{
    if piece == "\\n".to_owned() {
        "\n".to_owned()
    } else {
        piece
    }
}

/// Abort: drop the dialog conduit, so no further answer pieces are read.
pub fn take_dialog(channels: &mut Channels) -> (prev: Option<ChannelId>)
    ensures
        final(channels).dialog is None,
        final(channels).pending == old(channels).pending,
        prev == old(channels).dialog,
{
    let prev = channels.dialog;
    channels.dialog = None;
    prev
}

} // verus!
