//! The boundary to chat backends: the connection capability, the events
//! backends and the input reader produce, and the built-in client connection
//! that surfaces diagnostics and mentions.

use vstd::prelude::*;
use vstd::string::*;

verus! {

/// One chat message, addressed by server and channel name.
pub struct Message {
    pub server: String,
    pub channel: String,
    pub sender: String,
    pub contents: String,
}

/// A keyboard event, as the input reader reports it.
#[derive(Clone, Copy, PartialEq, Eq, Structural, Debug)]
pub enum Key {
    Char(char),
    Ctrl(char),
    Backspace,
    Up,
    Down,
    Left,
    Right,
    PageUp,
    PageDown,
    Other,
}

/// An event consumed by the main loop: keyboard input, a live message, a
/// historical message (which never marks unreads), a mention, an error line,
/// or notice that a channel's history finished loading.
pub enum Event {
    Input(Key),
    Message(Message),
    HistoryMessage(Message),
    Mention(Message),
    Error(String),
    HistoryLoaded { server: String, channel: String },
}

/// The capability a backend offers: a display name, the channel list at
/// registration time, best-effort sends, out-of-band commands and compose
/// completion.
pub trait Conn {
    fn name(&self) -> String;

    fn channels(&self) -> Vec<String>;

    fn send_channel_message(&mut self, channel: &str, contents: &str);

    fn handle_cmd(&mut self, cmd: String, args: Vec<String>);

    fn autocomplete(&self, word: &str) -> Option<String>;
}

/// The built-in client-side connection: it owns the diagnostics and mentions
/// channels and turns sends into events it queues for the main loop.
pub struct ClientConn {
    pub name: String,
    pub channel_names: Vec<String>,
    pub outbox: Vec<Event>,
}

impl ClientConn {
    /// Whether this connection still carries its fixed identity.
    pub open spec fn wf(self) -> bool {
        &&& self.name@ == "Client"@
        &&& self.channel_names.deep_view() == seq!["Errors"@, "Mentions"@]
    }

    pub fn new() -> (c: Self)
        ensures
            c.wf(),
            c.outbox@.len() == 0,
    {
        let mut channel_names: Vec<String> = Vec::new();
        channel_names.push("Errors".to_owned());
        channel_names.push("Mentions".to_owned());
        let c = ClientConn { name: "Client".to_owned(), channel_names, outbox: Vec::new() };
        proof {
            assert(c.channel_names.deep_view() =~= seq!["Errors"@, "Mentions"@]);
        }
        c
    }

    /// Hands the queued events to the caller and empties the queue.
    pub fn take_events(&mut self) -> (events: Vec<Event>)
        ensures
            events == old(self).outbox,
            final(self).outbox@.len() == 0,
            final(self).name == old(self).name,
            final(self).channel_names == old(self).channel_names,
    {
        let mut events: Vec<Event> = Vec::new();
        core::mem::swap(&mut events, &mut self.outbox);
        events
    }
}

impl Conn for ClientConn {
    fn name(&self) -> String {
        self.name.clone()
    }

    fn channels(&self) -> Vec<String> {
        let mut out: Vec<String> = Vec::new();
        let mut i: usize = 0;
        while i < self.channel_names.len()
            invariant
                i <= self.channel_names@.len(),
            decreases self.channel_names@.len() - i,
        {
            out.push(self.channel_names[i].clone());
            i = i + 1;
        }
        out
    }

    fn send_channel_message(&mut self, channel: &str, contents: &str) {
        let message = Message {
            server: "Client".to_owned(),
            channel: channel.to_owned(),
            sender: String::new(),
            contents: contents.to_owned(),
        };
        self.outbox.push(Event::Message(message));
    }

    fn handle_cmd(&mut self, _cmd: String, _args: Vec<String>) {
    }

    fn autocomplete(&self, _word: &str) -> Option<String> {
        None
    }
}

} // verus!
