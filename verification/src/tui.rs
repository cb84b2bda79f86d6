//! The state store: servers, their channels and messages, the current
//! selection, unread flags, and the operations the main loop drives —
//! circular navigation, message recording and the outgoing send.

use vstd::prelude::*;
use vstd::string::*;
use crate::chars::{sort_names, sorted_lex};
use crate::conn::{Conn, Message};
use crate::wrap::{wrap_message, wrap_message_spec};

verus! {

/// Why an incoming event could not be recorded.
#[derive(Clone, Copy, PartialEq, Eq, Structural, Debug)]
pub enum TuiError {
    UnknownChannel,
    UnknownServer,
}

impl TuiError {
    /// The diagnostic line recorded for this error.
    pub fn message(&self) -> (text: String)
        ensures
            *self == TuiError::UnknownChannel ==> text@
                == "Got a message from an unknown channel"@,
            *self == TuiError::UnknownServer ==> text@ == "Got a message from an unknown server"@,
    {
        match self {
            TuiError::UnknownChannel => "Got a message from an unknown channel".to_owned(),
            TuiError::UnknownServer => "Got a message from an unknown server".to_owned(),
        }
    }
}

/// One message of a channel: the raw text as it arrived, plus a cache of
/// display lines wrapped for a particular width.
pub struct ChanMessage {
    pub raw: String,
    pub sender: String,
    pub contents: Vec<String>,
    pub wrapped_for_width: Option<usize>,
}

impl ChanMessage {
    /// The cache holds exactly the wrap of the raw text at the cached width.
    pub open spec fn cache_valid(self) -> bool {
        match self.wrapped_for_width {
            Some(w) => self.contents.deep_view() == wrap_message_spec(
                self.sender@.len(),
                self.raw@,
                w as nat,
            ),
            None => true,
        }
    }

    pub fn new(sender: String, contents: String) -> (m: Self)
        ensures
            m.sender == sender,
            m.raw == contents,
            m.wrapped_for_width is None,
            m.contents@.len() == 0,
            m.cache_valid(),
    {
        ChanMessage { raw: contents, sender, contents: Vec::new(), wrapped_for_width: None }
    }

    /// Wraps the message for the given width, reusing the cache when the
    /// width is unchanged.
    pub fn format(&mut self, width: usize)
        requires
            old(self).cache_valid(),
        ensures
            final(self).raw == old(self).raw,
            final(self).sender == old(self).sender,
            final(self).wrapped_for_width == Some(width),
            final(self).cache_valid(),
            final(self).contents.deep_view() == wrap_message_spec(
                old(self).sender@.len(),
                old(self).raw@,
                width as nat,
            ),
    {
        match self.wrapped_for_width {
            Some(w) if w == width => {
                return ;
            },
            _ => {},
        }
        self.contents = wrap_message(self.sender.as_str(), self.raw.as_str(), width);
        self.wrapped_for_width = Some(width);
    }
}

/// A named message stream within a server.
pub struct Channel {
    pub name: String,
    pub messages: Vec<ChanMessage>,
    pub has_unreads: bool,
}

impl Channel {
    pub open spec fn wf(self) -> bool {
        forall|i: int| 0 <= i < self.messages@.len() ==> (#[trigger] self.messages@[i]).cache_valid()
    }
}

/// One workspace: its channels, the selected channel and the unread flag.
pub struct Server {
    pub name: String,
    pub channels: Vec<Channel>,
    pub current_channel: usize,
    pub has_unreads: bool,
}

impl Server {
    pub open spec fn wf(self) -> bool {
        &&& self.channels@.len() >= 1
        &&& (self.current_channel as int) < self.channels@.len()
        &&& forall|i: int| 0 <= i < self.channels@.len() ==> (#[trigger] self.channels@[i]).wf()
    }
}

/// The length of the longest channel name among `channels[i..]`.
pub open spec fn max_chan_len(channels: Seq<Channel>, i: int) -> nat
    decreases channels.len() - i,
{
    if i < 0 || i >= channels.len() {
        0
    } else {
        let rest = max_chan_len(channels, i + 1);
        if channels[i].name@.len() >= rest {
            channels[i].name@.len()
        } else {
            rest
        }
    }
}

/// The length of the longest channel name among all servers from `i` on.
pub open spec fn max_name_len(servers: Seq<Server>, i: int) -> nat
    decreases servers.len() - i,
{
    if i < 0 || i >= servers.len() {
        0
    } else {
        let here = max_chan_len(servers[i].channels@, 0);
        let rest = max_name_len(servers, i + 1);
        if here >= rest {
            here
        } else {
            rest
        }
    }
}

/// Channel lists that agree on their names.
pub open spec fn chan_names_eq(a: Seq<Channel>, b: Seq<Channel>) -> bool {
    a.len() == b.len() && forall|k: int| 0 <= k < a.len() ==> a[k].name == b[k].name
}

/// Server lists that agree on every channel name.
pub open spec fn server_names_eq(a: Seq<Server>, b: Seq<Server>) -> bool {
    a.len() == b.len() && forall|j: int|
        0 <= j < a.len() ==> chan_names_eq(#[trigger] a[j].channels@, b[j].channels@)
}

/// The longest channel name depends only on the names.
pub proof fn lemma_max_chan_names(a: Seq<Channel>, b: Seq<Channel>, i: int)
    requires
        chan_names_eq(a, b),
    ensures
        max_chan_len(a, i) == max_chan_len(b, i),
    decreases a.len() - i,
{
    if 0 <= i < a.len() {
        lemma_max_chan_names(a, b, i + 1);
    }
}

/// The longest channel name over all servers depends only on the names.
pub proof fn lemma_max_name_names(a: Seq<Server>, b: Seq<Server>, i: int)
    requires
        server_names_eq(a, b),
    ensures
        max_name_len(a, i) == max_name_len(b, i),
    decreases a.len() - i,
{
    if 0 <= i < a.len() {
        lemma_max_chan_names(a[i].channels@, b[i].channels@, 0);
        lemma_max_name_names(a, b, i + 1);
    }
}

/// The whole client state: every server, the selection, the compose buffer
/// and its wrapped form, and the width of the channel column.
pub struct TUI {
    pub servers: Vec<Server>,
    pub current_server: usize,
    pub message_buffer: String,
    pub message_area_formatted: Vec<String>,
    pub longest_channel_name: usize,
    pub shutdown: bool,
}

impl TUI {
    /// The structural invariant: at least one server, every index in bounds,
    /// the client server first with its two fixed channels, every message
    /// cache valid, and the channel-column width current.
    pub open spec fn wf(self) -> bool {
        &&& self.servers@.len() >= 1
        &&& (self.current_server as int) < self.servers@.len()
        &&& forall|i: int| 0 <= i < self.servers@.len() ==> (#[trigger] self.servers@[i]).wf()
        &&& self.servers@[0].channels@.len() >= 2
        &&& self.longest_channel_name as nat == max_name_len(self.servers@, 0)
    }

    /// The currently selected server.
    pub open spec fn cur_server(self) -> Server {
        self.servers@[self.current_server as int]
    }

    /// The index of the currently selected channel within the current server.
    pub open spec fn cur_chan_idx(self) -> int {
        self.cur_server().current_channel as int
    }

    /// How many channels the current server has.
    pub open spec fn chan_count(self) -> int {
        self.cur_server().channels@.len() as int
    }

    /// Everything but the server list and the selection is unchanged.
    pub open spec fn same_extras(self, other: TUI) -> bool {
        &&& self.message_buffer == other.message_buffer
        &&& self.message_area_formatted == other.message_area_formatted
        &&& self.longest_channel_name == other.longest_channel_name
        &&& self.shutdown == other.shutdown
    }

    /// A fresh state holding only the built-in client server with its
    /// diagnostics and mentions channels.
    pub fn new() -> (tui: Self)
        ensures
            tui.wf(),
            tui.servers@.len() == 1,
            tui.current_server == 0,
            tui.servers@[0].name@ == "Client"@,
            tui.servers@[0].channels@.len() == 2,
            tui.servers@[0].channels@[0].name@ == "Errors"@,
            tui.servers@[0].channels@[1].name@ == "Mentions"@,
            tui.servers@[0].channels@[0].messages@.len() == 0,
            tui.servers@[0].channels@[1].messages@.len() == 0,
            tui.servers@[0].current_channel == 0,
            !tui.servers@[0].has_unreads,
            !tui.servers@[0].channels@[0].has_unreads,
            !tui.servers@[0].channels@[1].has_unreads,
            tui.message_buffer@.len() == 0,
            !tui.shutdown,
    {
        let errors = Channel { name: "Errors".to_owned(), messages: Vec::new(), has_unreads: false };
        let mentions = Channel {
            name: "Mentions".to_owned(),
            messages: Vec::new(),
            has_unreads: false,
        };
        let mut channels: Vec<Channel> = Vec::new();
        channels.push(errors);
        channels.push(mentions);
        let client = Server {
            name: "Client".to_owned(),
            channels,
            current_channel: 0,
            has_unreads: false,
        };
        let mut servers: Vec<Server> = Vec::new();
        servers.push(client);
        let tui = TUI {
            servers,
            current_server: 0,
            message_buffer: String::new(),
            message_area_formatted: Vec::new(),
            longest_channel_name: 8,
            shutdown: false,
        };
        proof {
            reveal_strlit("Errors");
            reveal_strlit("Mentions");
            assert(max_chan_len(tui.servers@[0].channels@, 2) == 0);
            assert(max_chan_len(tui.servers@[0].channels@, 1) == 8);
            assert(max_chan_len(tui.servers@[0].channels@, 0) == 8);
            assert(max_name_len(tui.servers@, 1) == 0);
            assert(max_name_len(tui.servers@, 0) == 8);
        }
        tui
    }

    /// Selects the next server, wrapping past the end.
    pub fn next_server(&mut self)
        requires
            old(self).wf(),
        ensures
            final(self).wf(),
            final(self).servers == old(self).servers,
            final(self).same_extras(*old(self)),
            final(self).current_server as int == if old(self).current_server as int + 1
                < old(self).servers@.len() {
                old(self).current_server as int + 1
            } else {
                0
            },
    {
        let n = self.servers.len();
        if self.current_server >= n - 1 {
            self.current_server = 0;
        } else {
            self.current_server = self.current_server + 1;
        }
    }

    /// Selects the previous server, wrapping past the start.
    pub fn previous_server(&mut self)
        requires
            old(self).wf(),
        ensures
            final(self).wf(),
            final(self).servers == old(self).servers,
            final(self).same_extras(*old(self)),
            final(self).current_server as int == if old(self).current_server > 0 {
                old(self).current_server as int - 1
            } else {
                old(self).servers@.len() - 1
            },
    {
        if self.current_server > 0 {
            self.current_server = self.current_server - 1;
        } else {
            self.current_server = self.servers.len() - 1;
        }
    }

    /// Selects the next channel of the current server, wrapping past the end.
    pub fn next_channel(&mut self)
        requires
            old(self).wf(),
        ensures
            final(self).wf(),
            final(self).same_extras(*old(self)),
            final(self).current_server == old(self).current_server,
            final(self).servers@.len() == old(self).servers@.len(),
            forall|i: int|
                0 <= i < old(self).servers@.len() && i != old(self).current_server as int
                    ==> final(self).servers@[i] == old(self).servers@[i],
            final(self).cur_server().name == old(self).cur_server().name,
            final(self).cur_server().channels == old(self).cur_server().channels,
            final(self).cur_server().has_unreads == old(self).cur_server().has_unreads,
            final(self).cur_chan_idx() == if old(self).cur_chan_idx() + 1 < old(
                self,
            ).chan_count() {
                old(self).cur_chan_idx() + 1
            } else {
                0
            },
    {
        let cs = self.current_server;
        let count = self.servers[cs].channels.len();
        let cc = self.servers[cs].current_channel;
        if cc >= count - 1 {
            self.servers[cs].current_channel = 0;
        } else {
            self.servers[cs].current_channel = cc + 1;
        }
        proof {
            assert(server_names_eq(self.servers@, old(self).servers@));
            lemma_max_name_names(self.servers@, old(self).servers@, 0);
        }
    }

    /// Selects the previous channel of the current server, wrapping past the
    /// start.
    pub fn previous_channel(&mut self)
        requires
            old(self).wf(),
        ensures
            final(self).wf(),
            final(self).same_extras(*old(self)),
            final(self).current_server == old(self).current_server,
            final(self).servers@.len() == old(self).servers@.len(),
            forall|i: int|
                0 <= i < old(self).servers@.len() && i != old(self).current_server as int
                    ==> final(self).servers@[i] == old(self).servers@[i],
            final(self).cur_server().name == old(self).cur_server().name,
            final(self).cur_server().channels == old(self).cur_server().channels,
            final(self).cur_server().has_unreads == old(self).cur_server().has_unreads,
            final(self).cur_chan_idx() == if old(self).cur_chan_idx() > 0 {
                old(self).cur_chan_idx() - 1
            } else {
                old(self).chan_count() - 1
            },
    {
        let cs = self.current_server;
        let count = self.servers[cs].channels.len();
        let cc = self.servers[cs].current_channel;
        if cc > 0 {
            self.servers[cs].current_channel = cc - 1;
        } else {
            self.servers[cs].current_channel = count - 1;
        }
        proof {
            assert(server_names_eq(self.servers@, old(self).servers@));
            lemma_max_name_names(self.servers@, old(self).servers@, 0);
        }
    }
}

/// The first channel in `[lo, hi)` with unreads, if any.
pub open spec fn first_unread_in(chs: Seq<Channel>, lo: int, hi: int) -> Option<int>
    decreases hi - lo,
{
    if lo < 0 || lo >= hi || hi > chs.len() {
        None
    } else if chs[lo].has_unreads {
        Some(lo)
    } else {
        first_unread_in(chs, lo + 1, hi)
    }
}

/// The last channel in `[lo, hi)` with unreads, if any.
pub open spec fn last_unread_in(chs: Seq<Channel>, lo: int, hi: int) -> Option<int>
    decreases hi - lo,
{
    if lo < 0 || lo >= hi || hi > chs.len() {
        None
    } else if chs[hi - 1].has_unreads {
        Some(hi - 1)
    } else {
        last_unread_in(chs, lo, hi - 1)
    }
}

/// Where a forward unread scan from just past `cc` lands: the first unread
/// channel after `cc`, else the first unread from the start up to and
/// including `cc`, else `cc` itself.
pub open spec fn next_unread_target(chs: Seq<Channel>, cc: int) -> int {
    match first_unread_in(chs, cc + 1, chs.len() as int) {
        Some(i) => i,
        None => match first_unread_in(chs, 0, cc + 1) {
            Some(i) => i,
            None => cc,
        },
    }
}

/// Where a backward unread scan from just before `cc` lands.
pub open spec fn prev_unread_target(chs: Seq<Channel>, cc: int) -> int {
    match last_unread_in(chs, 0, cc) {
        Some(i) => i,
        None => match last_unread_in(chs, cc, chs.len() as int) {
            Some(i) => i,
            None => cc,
        },
    }
}

/// The first index at or after `i` whose server has the given name.
pub open spec fn server_idx(servers: Seq<Server>, name: Seq<char>, i: int) -> Option<int>
    decreases servers.len() - i,
{
    if i < 0 || i >= servers.len() {
        None
    } else if servers[i].name@ == name {
        Some(i)
    } else {
        server_idx(servers, name, i + 1)
    }
}

/// The first index at or after `i` whose channel has the given name.
pub open spec fn chan_idx(chs: Seq<Channel>, name: Seq<char>, i: int) -> Option<int>
    decreases chs.len() - i,
{
    if i < 0 || i >= chs.len() {
        None
    } else if chs[i].name@ == name {
        Some(i)
    } else {
        chan_idx(chs, name, i + 1)
    }
}

/// The names of a channel list, in order.
pub open spec fn chan_names(chs: Seq<Channel>) -> Seq<Seq<char>> {
    Seq::new(chs.len(), |i: int| chs[i].name@)
}

/// Finds the first unread channel in `[lo, hi)`.
fn find_first_unread(chs: &Vec<Channel>, lo: usize, hi: usize) -> (r: Option<usize>)
    requires
        hi <= chs@.len(),
    ensures
        ({
            let f = first_unread_in(chs@, lo as int, hi as int);
            match r {
                Some(i) => lo <= i < hi && f == Some(i as int),
                None => f is None,
            }
        }),
{
    let mut j = lo;
    while j < hi
        invariant
            lo <= j,
            hi <= chs@.len(),
            first_unread_in(chs@, lo as int, hi as int) == first_unread_in(
                chs@,
                j as int,
                hi as int,
            ),
        decreases hi - j,
    {
        if chs[j].has_unreads {
            return Some(j);
        }
        j = j + 1;
    }
    None
}

/// Finds the last unread channel in `[lo, hi)`.
fn find_last_unread(chs: &Vec<Channel>, lo: usize, hi: usize) -> (r: Option<usize>)
    requires
        hi <= chs@.len(),
    ensures
        ({
            let f = last_unread_in(chs@, lo as int, hi as int);
            match r {
                Some(i) => lo <= i < hi && f == Some(i as int),
                None => f is None,
            }
        }),
{
    let mut j = hi;
    while j > lo
        invariant
            j <= hi <= chs@.len(),
            last_unread_in(chs@, lo as int, hi as int) == last_unread_in(
                chs@,
                lo as int,
                j as int,
            ),
        decreases j,
    {
        j = j - 1;
        if chs[j].has_unreads {
            return Some(j);
        }
    }
    None
}

impl TUI {
    /// Selects the first unread channel after the current one, scanning
    /// circularly; with no unread channel the selection stays.
    pub fn next_channel_unread(&mut self)
        requires
            old(self).wf(),
        ensures
            final(self).wf(),
            final(self).same_extras(*old(self)),
            final(self).current_server == old(self).current_server,
            final(self).servers@.len() == old(self).servers@.len(),
            forall|i: int|
                0 <= i < old(self).servers@.len() && i != old(self).current_server as int
                    ==> final(self).servers@[i] == old(self).servers@[i],
            final(self).cur_server().name == old(self).cur_server().name,
            final(self).cur_server().channels == old(self).cur_server().channels,
            final(self).cur_server().has_unreads == old(self).cur_server().has_unreads,
            final(self).cur_chan_idx() == next_unread_target(
                old(self).cur_server().channels@,
                old(self).cur_chan_idx(),
            ),
    {
        let cs = self.current_server;
        let count = self.servers[cs].channels.len();
        let cc = self.servers[cs].current_channel;
        let forward = find_first_unread(&self.servers[cs].channels, cc + 1, count);
        let target = match forward {
            Some(i) => Some(i),
            None => find_first_unread(&self.servers[cs].channels, 0, cc + 1),
        };
        if let Some(i) = target {
            self.servers[cs].current_channel = i;
            proof {
                assert(server_names_eq(self.servers@, old(self).servers@));
                lemma_max_name_names(self.servers@, old(self).servers@, 0);
            }
        }
    }

    /// Selects the first unread channel before the current one, scanning
    /// circularly; with no unread channel the selection stays.
    pub fn previous_channel_unread(&mut self)
        requires
            old(self).wf(),
        ensures
            final(self).wf(),
            final(self).same_extras(*old(self)),
            final(self).current_server == old(self).current_server,
            final(self).servers@.len() == old(self).servers@.len(),
            forall|i: int|
                0 <= i < old(self).servers@.len() && i != old(self).current_server as int
                    ==> final(self).servers@[i] == old(self).servers@[i],
            final(self).cur_server().name == old(self).cur_server().name,
            final(self).cur_server().channels == old(self).cur_server().channels,
            final(self).cur_server().has_unreads == old(self).cur_server().has_unreads,
            final(self).cur_chan_idx() == prev_unread_target(
                old(self).cur_server().channels@,
                old(self).cur_chan_idx(),
            ),
    {
        let cs = self.current_server;
        let count = self.servers[cs].channels.len();
        let cc = self.servers[cs].current_channel;
        let backward = find_last_unread(&self.servers[cs].channels, 0, cc);
        let target = match backward {
            Some(i) => Some(i),
            None => find_last_unread(&self.servers[cs].channels, cc, count),
        };
        if let Some(i) = target {
            self.servers[cs].current_channel = i;
            proof {
                assert(server_names_eq(self.servers@, old(self).servers@));
                lemma_max_name_names(self.servers@, old(self).servers@, 0);
            }
        }
    }

    /// Registers a server under the given name with the given channels: the
    /// channel list is sorted once, every channel starts empty and read, and
    /// the channel-column width is recomputed.
    pub fn add_server_with(&mut self, name: String, channel_names: Vec<String>)
        requires
            old(self).wf(),
            channel_names@.len() >= 1,
        ensures
            final(self).wf(),
            final(self).servers@.len() == old(self).servers@.len() + 1,
            forall|i: int|
                0 <= i < old(self).servers@.len() ==> final(self).servers@[i] == old(
                    self,
                ).servers@[i],
            final(self).current_server == old(self).current_server,
            final(self).message_buffer == old(self).message_buffer,
            final(self).message_area_formatted == old(self).message_area_formatted,
            final(self).shutdown == old(self).shutdown,
            ({
                let s = final(self).servers@.last();
                &&& s.name == name
                &&& s.current_channel == 0
                &&& !s.has_unreads
                &&& s.channels@.len() == channel_names@.len()
                &&& sorted_lex(chan_names(s.channels@))
                &&& chan_names(s.channels@).to_multiset()
                    == channel_names.deep_view().to_multiset()
                &&& forall|j: int|
                    0 <= j < s.channels@.len() ==> (#[trigger] s.channels@[j]).messages@.len()
                        == 0 && !s.channels@[j].has_unreads
            }),
    {
        let sorted = sort_names(channel_names);
        let mut channels: Vec<Channel> = Vec::new();
        let mut k: usize = 0;
        while k < sorted.len()
            invariant
                k <= sorted@.len(),
                channels@.len() == k,
                forall|m: int|
                    0 <= m < k ==> (#[trigger] channels@[m]).name@ == sorted.deep_view()[m]
                        && channels@[m].messages@.len() == 0 && !channels@[m].has_unreads,
            decreases sorted@.len() - k,
        {
            let cname = sorted[k].clone();
            proof {
                assert(cname@ == sorted.deep_view()[k as int]);
            }
            channels.push(Channel { name: cname, messages: Vec::new(), has_unreads: false });
            k = k + 1;
        }
        let server = Server { name, channels, current_channel: 0, has_unreads: false };
        self.servers.push(server);
        let longest = compute_longest(&self.servers);
        self.longest_channel_name = longest;
        proof {
            let s = self.servers@.last();
            assert(chan_names(s.channels@) =~= sorted.deep_view());
        }
    }

    /// Registers a connection: its name and channel list become a new server.
    /// A connection that reports no channels is refused, since every server
    /// must keep at least one channel.
    pub fn add_server<C: Conn>(&mut self, conn: &C) -> (added: bool)
        requires
            old(self).wf(),
        ensures
            final(self).wf(),
            !added ==> *final(self) == *old(self),
            added ==> final(self).servers@.len() == old(self).servers@.len() + 1,
            added ==> forall|i: int|
                0 <= i < old(self).servers@.len() ==> final(self).servers@[i] == old(
                    self,
                ).servers@[i],
            added ==> final(self).current_server == old(self).current_server,
            added ==> ({
                let s = final(self).servers@.last();
                &&& s.current_channel == 0
                &&& !s.has_unreads
                &&& s.channels@.len() >= 1
                &&& sorted_lex(chan_names(s.channels@))
            }),
    {
        let name = conn.name();
        let names = conn.channels();
        if names.len() == 0 {
            return false;
        }
        self.add_server_with(name, names);
        true
    }

    /// Records an incoming message in its server and channel, or reports
    /// which lookup failed; a live message also raises both unread flags.
    pub fn add_message(&mut self, message: &Message, set_unread: bool) -> (r: Result<
        (),
        TuiError,
    >)
        requires
            old(self).wf(),
        ensures
            final(self).wf(),
            ({
                let servers = old(self).servers@;
                match server_idx(servers, message.server@, 0) {
                    None => r == Err::<(), TuiError>(TuiError::UnknownServer)
                        && *final(self) == *old(self),
                    Some(si) => match chan_idx(servers[si].channels@, message.channel@, 0) {
                        None => r == Err::<(), TuiError>(TuiError::UnknownChannel)
                            && *final(self) == *old(self),
                        Some(ci) => r == Ok::<(), TuiError>(()) && message_recorded(
                            *old(self),
                            *final(self),
                            si,
                            ci,
                            message.sender@,
                            message.contents@,
                            set_unread,
                        ),
                    },
                }
            }),
    {
        let found_server = find_server_index(&self.servers, &message.server);
        let si = match found_server {
            Some(si) => si,
            None => {
                return Err(TuiError::UnknownServer);
            },
        };
        let found_chan = find_chan_index(&self.servers[si].channels, &message.channel);
        let ci = match found_chan {
            Some(ci) => ci,
            None => {
                return Err(TuiError::UnknownChannel);
            },
        };
        let msg = ChanMessage::new(message.sender.clone(), message.contents.clone());
        self.servers[si].channels[ci].messages.push(msg);
        if set_unread {
            self.servers[si].channels[ci].has_unreads = true;
            self.servers[si].has_unreads = true;
        }
        proof {
            assert(server_names_eq(self.servers@, old(self).servers@));
            lemma_max_name_names(self.servers@, old(self).servers@, 0);
        }
        Ok(())
    }

    /// Appends a diagnostic line to the client server's first channel and
    /// marks both unread.
    pub fn add_client_message(&mut self, message: &str)
        requires
            old(self).wf(),
        ensures
            final(self).wf(),
            final(self).same_extras(*old(self)),
            final(self).current_server == old(self).current_server,
            message_recorded(
                *old(self),
                *final(self),
                0,
                0,
                "Client"@,
                message@,
                true,
            ),
    {
        let msg = ChanMessage::new("Client".to_owned(), message.to_owned());
        self.servers[0].channels[0].messages.push(msg);
        self.servers[0].channels[0].has_unreads = true;
        self.servers[0].has_unreads = true;
        proof {
            assert(server_names_eq(self.servers@, old(self).servers@));
            lemma_max_name_names(self.servers@, old(self).servers@, 0);
        }
    }

    /// Appends a mention to the client server's second channel, labelled
    /// `sender@channel:server`, and marks both unread.
    pub fn add_mention_message(&mut self, message: &Message)
        requires
            old(self).wf(),
        ensures
            final(self).wf(),
            final(self).same_extras(*old(self)),
            final(self).current_server == old(self).current_server,
            message_recorded(
                *old(self),
                *final(self),
                0,
                1,
                message.sender@ + "@"@ + message.channel@ + ":"@ + message.server@,
                message.contents@,
                true,
            ),
    {
        let mut label = message.sender.clone();
        label.append("@");
        label.append(message.channel.as_str());
        label.append(":");
        label.append(message.server.as_str());
        let msg = ChanMessage::new(label, message.contents.clone());
        self.servers[0].channels[1].messages.push(msg);
        self.servers[0].channels[1].has_unreads = true;
        self.servers[0].has_unreads = true;
        proof {
            assert(server_names_eq(self.servers@, old(self).servers@));
            lemma_max_name_names(self.servers@, old(self).servers@, 0);
        }
    }

    /// Takes the compose buffer as an outgoing send for the currently
    /// selected channel and clears it; the caller forwards the result to the
    /// current server's connection.
    pub fn send_message(&mut self) -> (out: Outgoing)
        requires
            old(self).wf(),
        ensures
            final(self).wf(),
            final(self).servers == old(self).servers,
            final(self).current_server == old(self).current_server,
            final(self).longest_channel_name == old(self).longest_channel_name,
            final(self).shutdown == old(self).shutdown,
            out.channel@ == old(self).cur_server().channels@[old(self).cur_chan_idx()].name@,
            out.contents@ == old(self).message_buffer@,
            final(self).message_buffer@.len() == 0,
            final(self).message_area_formatted@.len() == 0,
    {
        let cs = self.current_server;
        let ci = self.servers[cs].current_channel;
        let channel = self.servers[cs].channels[ci].name.clone();
        let mut contents = String::new();
        core::mem::swap(&mut contents, &mut self.message_buffer);
        self.message_area_formatted = Vec::new();
        Outgoing { channel, contents }
    }
}

/// An outgoing send: the channel it is addressed to and the text.
pub struct Outgoing {
    pub channel: String,
    pub contents: String,
}

/// Exactly one message was appended: channel `ci` of server `si` gains one
/// entry with the given sender and text and an empty wrap cache; with
/// `set_unread` that channel's and that server's unread flags are raised;
/// nothing else changes.
pub open spec fn message_recorded(
    prev: TUI,
    next: TUI,
    si: int,
    ci: int,
    sender: Seq<char>,
    contents: Seq<char>,
    set_unread: bool,
) -> bool {
    &&& next.servers@.len() == prev.servers@.len()
    &&& 0 <= si < prev.servers@.len()
    &&& 0 <= ci < prev.servers@[si].channels@.len()
    &&& forall|i: int|
        0 <= i < prev.servers@.len() && i != si ==> next.servers@[i] == prev.servers@[i]
    &&& next.servers@[si].name == prev.servers@[si].name
    &&& next.servers@[si].current_channel == prev.servers@[si].current_channel
    &&& next.servers@[si].has_unreads == (prev.servers@[si].has_unreads || set_unread)
    &&& next.servers@[si].channels@.len() == prev.servers@[si].channels@.len()
    &&& forall|j: int|
        0 <= j < prev.servers@[si].channels@.len() && j != ci
            ==> next.servers@[si].channels@[j] == prev.servers@[si].channels@[j]
    &&& next.servers@[si].channels@[ci].name == prev.servers@[si].channels@[ci].name
    &&& next.servers@[si].channels@[ci].has_unreads == (
    prev.servers@[si].channels@[ci].has_unreads || set_unread)
    &&& next.servers@[si].channels@[ci].messages@.len() == prev.servers@[si].channels@[
        ci
    ].messages@.len() + 1
    &&& forall|m: int|
        0 <= m < prev.servers@[si].channels@[ci].messages@.len()
            ==> next.servers@[si].channels@[ci].messages@[m] == prev.servers@[si].channels@[
            ci
        ].messages@[m]
    &&& next.servers@[si].channels@[ci].messages@.last().sender@ == sender
    &&& next.servers@[si].channels@[ci].messages@.last().raw@ == contents
    &&& next.servers@[si].channels@[ci].messages@.last().wrapped_for_width is None
    &&& next.servers@[si].channels@[ci].messages@.last().contents@.len() == 0
    &&& next.current_server == prev.current_server
    &&& next.message_buffer == prev.message_buffer
    &&& next.message_area_formatted == prev.message_area_formatted
    &&& next.longest_channel_name == prev.longest_channel_name
    &&& next.shutdown == prev.shutdown
}

/// The length of the longest channel name across all servers.
fn compute_longest(servers: &Vec<Server>) -> (m: usize)
    ensures
        m as nat == max_name_len(servers@, 0),
{
    let mut m: usize = 0;
    let mut i: usize = servers.len();
    while i > 0
        invariant
            i <= servers@.len(),
            m as nat == max_name_len(servers@, i as int),
        decreases i,
    {
        i = i - 1;
        let here = compute_longest_chan(&servers[i].channels);
        if here >= m {
            m = here;
        }
    }
    m
}

/// The length of the longest channel name in one list.
fn compute_longest_chan(channels: &Vec<Channel>) -> (m: usize)
    ensures
        m as nat == max_chan_len(channels@, 0),
{
    let mut m: usize = 0;
    let mut i: usize = channels.len();
    while i > 0
        invariant
            i <= channels@.len(),
            m as nat == max_chan_len(channels@, i as int),
        decreases i,
    {
        i = i - 1;
        let here = channels[i].name.as_str().unicode_len();
        if here >= m {
            m = here;
        }
    }
    m
}

/// Finds the first server with the given name.
fn find_server_index(servers: &Vec<Server>, name: &String) -> (r: Option<usize>)
    ensures
        ({
            let f = server_idx(servers@, name@, 0);
            match r {
                Some(i) => i < servers@.len() && f == Some(i as int),
                None => f is None,
            }
        }),
{
    let mut i: usize = 0;
    while i < servers.len()
        invariant
            i <= servers@.len(),
            server_idx(servers@, name@, 0) == server_idx(servers@, name@, i as int),
        decreases servers@.len() - i,
    {
        if servers[i].name == *name {
            return Some(i);
        }
        i = i + 1;
    }
    None
}

/// Finds the first channel with the given name.
fn find_chan_index(chs: &Vec<Channel>, name: &String) -> (r: Option<usize>)
    ensures
        ({
            let f = chan_idx(chs@, name@, 0);
            match r {
                Some(i) => i < chs@.len() && f == Some(i as int),
                None => f is None,
            }
        }),
{
    let mut i: usize = 0;
    while i < chs.len()
        invariant
            i <= chs@.len(),
            chan_idx(chs@, name@, 0) == chan_idx(chs@, name@, i as int),
        decreases chs@.len() - i,
    {
        if chs[i].name == *name {
            return Some(i);
        }
        i = i + 1;
    }
    None
}

} // verus!
