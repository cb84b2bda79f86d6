//! The main-loop step: one event goes in, the state changes, and out come
//! the screen regions that need repainting, an outgoing send if one was
//! composed, and whether the client should quit.

use vstd::prelude::*;
use vstd::string::*;
use crate::chars::{chars_to_string, push_char, str_to_chars, sub_chars};
use crate::conn::{Event, Key, Message};
use crate::tui::{
    Outgoing, TUI, chan_idx, message_recorded, next_unread_target, prev_unread_target,
    server_idx,
};
use crate::wrap::{fill_plain, fill_plain_spec};

verus! {

/// Which screen regions an event requires repainting.
#[derive(Clone, Copy, PartialEq, Eq, Structural, Debug)]
pub enum Redraw {
    Nothing,
    Full,
    MessageAreaOnly,
    ChannelsAndMessageArea,
    ServersAndMessageArea,
}

/// What handling one keyboard event produced.
pub struct InputOutcome {
    pub redraw: Redraw,
    pub outgoing: Option<Outgoing>,
}

/// What handling one event produced.
pub struct EventOutcome {
    pub redraw: Redraw,
    pub outgoing: Option<Outgoing>,
    pub quit: bool,
}

/// The state changed only by selecting channel `idx` of the current server.
pub open spec fn channel_selected(prev: TUI, next: TUI, idx: int) -> bool {
    &&& next.same_extras(prev)
    &&& next.current_server == prev.current_server
    &&& next.servers@.len() == prev.servers@.len()
    &&& forall|i: int|
        0 <= i < prev.servers@.len() && i != prev.current_server as int ==> next.servers@[i]
            == prev.servers@[i]
    &&& next.cur_server().name == prev.cur_server().name
    &&& next.cur_server().channels == prev.cur_server().channels
    &&& next.cur_server().has_unreads == prev.cur_server().has_unreads
    &&& next.cur_chan_idx() == idx
}

/// The state changed only by selecting server `idx`.
pub open spec fn server_selected(prev: TUI, next: TUI, idx: int) -> bool {
    &&& next.same_extras(prev)
    &&& next.servers == prev.servers
    &&& next.current_server as int == idx
}

/// The channel index one step forward, circularly.
pub open spec fn next_chan_target(t: TUI) -> int {
    if t.cur_chan_idx() + 1 < t.chan_count() {
        t.cur_chan_idx() + 1
    } else {
        0
    }
}

/// The channel index one step backward, circularly.
pub open spec fn prev_chan_target(t: TUI) -> int {
    if t.cur_chan_idx() > 0 {
        t.cur_chan_idx() - 1
    } else {
        t.chan_count() - 1
    }
}

/// The server index one step forward, circularly.
pub open spec fn next_server_target(t: TUI) -> int {
    if t.current_server as int + 1 < t.servers@.len() {
        t.current_server as int + 1
    } else {
        0
    }
}

/// The server index one step backward, circularly.
pub open spec fn prev_server_target(t: TUI) -> int {
    if t.current_server > 0 {
        t.current_server as int - 1
    } else {
        t.servers@.len() - 1
    }
}

/// Everything a keyboard event does, per key: Enter sends the compose
/// buffer, Backspace deletes one character, a character key extends the
/// buffer and rewraps it, the arrows navigate, page up and down jump to
/// unread channels, an interrupt asks to quit, anything else is ignored.
pub open spec fn input_post(
    prev: TUI,
    next: TUI,
    key: Key,
    width: u16,
    redraw: Redraw,
    outgoing: Option<Outgoing>,
) -> bool {
    match key {
        Key::Char(c) => if c == '\n' {
            &&& next.servers == prev.servers
            &&& next.current_server == prev.current_server
            &&& next.longest_channel_name == prev.longest_channel_name
            &&& next.shutdown == prev.shutdown
            &&& next.message_buffer@.len() == 0
            &&& next.message_area_formatted@.len() == 0
            &&& outgoing matches Some(out) && out.channel@ == prev.cur_server().channels@[
                prev.cur_chan_idx()
            ].name@ && out.contents@ == prev.message_buffer@
            &&& redraw == Redraw::Full
        } else {
            &&& next.servers == prev.servers
            &&& next.current_server == prev.current_server
            &&& next.longest_channel_name == prev.longest_channel_name
            &&& next.shutdown == prev.shutdown
            &&& next.message_buffer@ == prev.message_buffer@.push(c)
            &&& next.message_area_formatted.deep_view() == fill_plain_spec(
                prev.message_buffer@.push(c),
                (width - prev.longest_channel_name - 1) as nat,
            )
            &&& redraw == if next.message_area_formatted@.len()
                == prev.message_area_formatted@.len() {
                Redraw::MessageAreaOnly
            } else {
                Redraw::Full
            }
            &&& outgoing is None
        },
        Key::Backspace => {
            &&& next.servers == prev.servers
            &&& next.current_server == prev.current_server
            &&& next.longest_channel_name == prev.longest_channel_name
            &&& next.shutdown == prev.shutdown
            &&& next.message_area_formatted == prev.message_area_formatted
            &&& next.message_buffer@ == if prev.message_buffer@.len() > 0 {
                prev.message_buffer@.drop_last()
            } else {
                prev.message_buffer@
            }
            &&& redraw == Redraw::Full
            &&& outgoing is None
        },
        Key::Ctrl(c) => if c == 'c' {
            &&& next.servers == prev.servers
            &&& next.current_server == prev.current_server
            &&& next.message_buffer == prev.message_buffer
            &&& next.message_area_formatted == prev.message_area_formatted
            &&& next.longest_channel_name == prev.longest_channel_name
            &&& next.shutdown
            &&& redraw == Redraw::Nothing
            &&& outgoing is None
        } else {
            next == prev && redraw == Redraw::Nothing && outgoing is None
        },
        Key::Up => channel_selected(prev, next, prev_chan_target(prev)) && redraw == Redraw::Full
            && outgoing is None,
        Key::Down => channel_selected(prev, next, next_chan_target(prev)) && redraw
            == Redraw::Full && outgoing is None,
        Key::Left => server_selected(prev, next, prev_server_target(prev)) && redraw
            == Redraw::Full && outgoing is None,
        Key::Right => server_selected(prev, next, next_server_target(prev)) && redraw
            == Redraw::Full && outgoing is None,
        Key::PageUp => channel_selected(
            prev,
            next,
            prev_unread_target(prev.cur_server().channels@, prev.cur_chan_idx()),
        ) && redraw == Redraw::Full && outgoing is None,
        Key::PageDown => channel_selected(
            prev,
            next,
            next_unread_target(prev.cur_server().channels@, prev.cur_chan_idx()),
        ) && redraw == Redraw::Full && outgoing is None,
        Key::Other => next == prev && redraw == Redraw::Nothing && outgoing is None,
    }
}

impl TUI {
    /// Applies one keyboard event and says which regions to repaint and
    /// what, if anything, to send out.
    pub fn handle_input(&mut self, key: Key, width: u16) -> (r: InputOutcome)
        requires
            old(self).wf(),
            crate::render::chan_width_of(*old(self)) + 2 <= width,
        ensures
            final(self).wf(),
            input_post(*old(self), *final(self), key, width, r.redraw, r.outgoing),
    {
        match key {
            Key::Char(c) => {
                if c == '\n' {
                    let out = self.send_message();
                    InputOutcome { redraw: Redraw::Full, outgoing: Some(out) }
                } else {
                    let previous_num_lines = self.message_area_formatted.len();
                    push_char(&mut self.message_buffer, c);
                    let avail = width as usize - self.longest_channel_name - 1;
                    self.message_area_formatted = fill_plain(
                        self.message_buffer.as_str(),
                        avail,
                    );
                    let redraw = if previous_num_lines == self.message_area_formatted.len() {
                        Redraw::MessageAreaOnly
                    } else {
                        Redraw::Full
                    };
                    InputOutcome { redraw, outgoing: None }
                }
            },
            Key::Backspace => {
                let cs = str_to_chars(self.message_buffer.as_str());
                if cs.len() > 0 {
                    let cut = sub_chars(&cs, 0, cs.len() - 1);
                    self.message_buffer = chars_to_string(&cut);
                    proof {
                        assert(self.message_buffer@ =~= old(self).message_buffer@.drop_last());
                    }
                }
                InputOutcome { redraw: Redraw::Full, outgoing: None }
            },
            Key::Ctrl(c) => {
                if c == 'c' {
                    self.shutdown = true;
                }
                InputOutcome { redraw: Redraw::Nothing, outgoing: None }
            },
            Key::Up => {
                self.previous_channel();
                InputOutcome { redraw: Redraw::Full, outgoing: None }
            },
            Key::Down => {
                self.next_channel();
                InputOutcome { redraw: Redraw::Full, outgoing: None }
            },
            Key::Left => {
                self.previous_server();
                InputOutcome { redraw: Redraw::Full, outgoing: None }
            },
            Key::Right => {
                self.next_server();
                InputOutcome { redraw: Redraw::Full, outgoing: None }
            },
            Key::PageUp => {
                self.previous_channel_unread();
                InputOutcome { redraw: Redraw::Full, outgoing: None }
            },
            Key::PageDown => {
                self.next_channel_unread();
                InputOutcome { redraw: Redraw::Full, outgoing: None }
            },
            Key::Other => InputOutcome { redraw: Redraw::Nothing, outgoing: None },
        }
    }
}

/// An incoming message is recorded in its server and channel; when either
/// lookup misses, a diagnostic line lands in the client server's first
/// channel instead.
pub open spec fn recorded_or_diagnosed(prev: TUI, next: TUI, m: Message, set_unread: bool) -> bool {
    match server_idx(prev.servers@, m.server@, 0) {
        None => message_recorded(
            prev,
            next,
            0,
            0,
            "Client"@,
            "Got a message from an unknown server"@,
            true,
        ),
        Some(si) => match chan_idx(prev.servers@[si].channels@, m.channel@, 0) {
            None => message_recorded(
                prev,
                next,
                0,
                0,
                "Client"@,
                "Got a message from an unknown channel"@,
                true,
            ),
            Some(ci) => message_recorded(prev, next, si, ci, m.sender@, m.contents@, set_unread),
        },
    }
}

/// Which regions a live message repaints: everything when it lands in the
/// viewed channel, the channel list when it lands elsewhere on the viewed
/// server, only the server bar otherwise.
pub open spec fn message_redraw(prev: TUI, m: Message) -> Redraw {
    if m.server@ == prev.cur_server().name@ && m.channel@ == prev.cur_server().channels@[
        prev.cur_chan_idx()
    ].name@ {
        Redraw::Full
    } else if m.server@ == prev.cur_server().name@ {
        Redraw::ChannelsAndMessageArea
    } else {
        Redraw::ServersAndMessageArea
    }
}

/// Which regions a client-side insertion repaints: everything when the user
/// is viewing that diagnostics channel, the channel list when viewing the
/// client server, nothing otherwise.
pub open spec fn client_redraw(prev: TUI, channel_name: Seq<char>) -> Redraw {
    if prev.cur_server().name@ == "Client"@ && prev.cur_server().channels@[
        prev.cur_chan_idx()
    ].name@ == channel_name {
        Redraw::Full
    } else if prev.cur_server().name@ == "Client"@ {
        Redraw::ChannelsAndMessageArea
    } else {
        Redraw::Nothing
    }
}

/// Everything one event does to the state, and the repaint, send and quit
/// decisions it yields.
pub open spec fn event_post(
    prev: TUI,
    next: TUI,
    ev: Event,
    width: u16,
    r: EventOutcome,
) -> bool {
    match ev {
        Event::Input(k) => input_post(prev, next, k, width, r.redraw, r.outgoing) && r.quit
            == next.shutdown,
        Event::Message(m) => recorded_or_diagnosed(prev, next, m, true) && r.redraw
            == message_redraw(prev, m) && r.outgoing is None && r.quit == prev.shutdown,
        Event::HistoryMessage(m) => recorded_or_diagnosed(prev, next, m, false) && r.redraw
            == Redraw::Nothing && r.outgoing is None && r.quit == prev.shutdown,
        Event::Mention(m) => message_recorded(
            prev,
            next,
            0,
            1,
            m.sender@ + "@"@ + m.channel@ + ":"@ + m.server@,
            m.contents@,
            true,
        ) && r.redraw == client_redraw(prev, "Mentions"@) && r.outgoing is None && r.quit
            == prev.shutdown,
        Event::Error(text) => message_recorded(prev, next, 0, 0, "Client"@, text@, true)
            && r.redraw == client_redraw(prev, "Errors"@) && r.outgoing is None && r.quit
            == prev.shutdown,
        Event::HistoryLoaded { server, channel } => next == prev && r.redraw == (
        if server@ == prev.cur_server().name@ && channel@ == prev.cur_server().channels@[
            prev.cur_chan_idx()
        ].name@ {
            Redraw::Full
        } else {
            Redraw::Nothing
        }) && r.outgoing is None && r.quit == prev.shutdown,
    }
}

impl TUI {
    /// Consumes one event: mutates the state as the event demands and
    /// returns the repaint choice, an outgoing send if one was composed,
    /// and whether to quit.
    pub fn handle_event(&mut self, event: Event, width: u16) -> (r: EventOutcome)
        requires
            old(self).wf(),
            crate::render::chan_width_of(*old(self)) + 2 <= width,
        ensures
            final(self).wf(),
            event_post(*old(self), *final(self), event, width, r),
    {
        let cs = self.current_server;
        let cc = self.servers[cs].current_channel;
        match event {
            Event::Input(key) => {
                let o = self.handle_input(key, width);
                EventOutcome { redraw: o.redraw, outgoing: o.outgoing, quit: self.shutdown }
            },
            Event::Message(m) => {
                let on_server = self.servers[cs].name == m.server;
                let on_channel = on_server && self.servers[cs].channels[cc].name == m.channel;
                match self.add_message(&m, true) {
                    Ok(()) => {},
                    Err(e) => {
                        let text = e.message();
                        self.add_client_message(text.as_str());
                    },
                }
                let redraw = if on_channel {
                    Redraw::Full
                } else if on_server {
                    Redraw::ChannelsAndMessageArea
                } else {
                    Redraw::ServersAndMessageArea
                };
                EventOutcome { redraw, outgoing: None, quit: self.shutdown }
            },
            Event::HistoryMessage(m) => {
                match self.add_message(&m, false) {
                    Ok(()) => {},
                    Err(e) => {
                        let text = e.message();
                        self.add_client_message(text.as_str());
                    },
                }
                EventOutcome { redraw: Redraw::Nothing, outgoing: None, quit: self.shutdown }
            },
            Event::Mention(m) => {
                let client = "Client".to_owned();
                let mentions = "Mentions".to_owned();
                let on_client = self.servers[cs].name == client;
                let on_mentions = on_client && self.servers[cs].channels[cc].name == mentions;
                self.add_mention_message(&m);
                let redraw = if on_mentions {
                    Redraw::Full
                } else if on_client {
                    Redraw::ChannelsAndMessageArea
                } else {
                    Redraw::Nothing
                };
                EventOutcome { redraw, outgoing: None, quit: self.shutdown }
            },
            Event::Error(text) => {
                let client = "Client".to_owned();
                let errors = "Errors".to_owned();
                let on_client = self.servers[cs].name == client;
                let on_errors = on_client && self.servers[cs].channels[cc].name == errors;
                self.add_client_message(text.as_str());
                let redraw = if on_errors {
                    Redraw::Full
                } else if on_client {
                    Redraw::ChannelsAndMessageArea
                } else {
                    Redraw::Nothing
                };
                EventOutcome { redraw, outgoing: None, quit: self.shutdown }
            },
            Event::HistoryLoaded { server, channel } => {
                let on_server = self.servers[cs].name == server;
                let on_channel = on_server && self.servers[cs].channels[cc].name == channel;
                let redraw = if on_channel {
                    Redraw::Full
                } else {
                    Redraw::Nothing
                };
                EventOutcome { redraw, outgoing: None, quit: self.shutdown }
            },
        }
    }
}

} // verus!
