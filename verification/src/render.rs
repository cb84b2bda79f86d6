//! The renderer: it turns the state into terminal escape output. The server
//! bar, the channel list, the message area and the full redraw each produce
//! the byte-exact escape string, and drawing the selected server or channel
//! clears exactly that entity's unread flag.

use vstd::prelude::*;
use vstd::string::*;
use crate::color::{color_of_seq, sender_color};
use crate::tui::{Channel, ChanMessage, Server, TUI, lemma_max_name_names, server_names_eq};
use crate::wrap::{fill_plain, fill_plain_spec, wrap_message_spec};

verus! {

/// The decimal digit character for a value below ten.
pub open spec fn digit_char(d: int) -> char {
    if d == 0 {
        '0'
    } else if d == 1 {
        '1'
    } else if d == 2 {
        '2'
    } else if d == 3 {
        '3'
    } else if d == 4 {
        '4'
    } else if d == 5 {
        '5'
    } else if d == 6 {
        '6'
    } else if d == 7 {
        '7'
    } else if d == 8 {
        '8'
    } else {
        '9'
    }
}

/// The decimal digits of a nonnegative number, most significant first.
pub open spec fn dec_str(n: int) -> Seq<char>
    decreases n when n >= 0
{
    if n < 10 {
        seq![digit_char(n)]
    } else {
        dec_str(n / 10).push(digit_char(n % 10))
    }
}

/// A control sequence: the escape character, an opening bracket, the body.
pub open spec fn csi(body: Seq<char>) -> Seq<char> {
    seq!['\u{1b}', '['] + body
}

/// The escape sequence moving the cursor to column `x`, row `y` (one-based).
pub open spec fn goto_code(x: u16, y: u16) -> Seq<char> {
    csi(dec_str(y as int) + seq![';'] + dec_str(x as int) + seq!['H'])
}

/// The escape sequence clearing the whole screen.
pub open spec fn clear_all_code() -> Seq<char> {
    csi(seq!['2', 'J'])
}

/// The escape sequence starting bold text.
pub open spec fn bold_code() -> Seq<char> {
    csi(seq!['1', 'm'])
}

/// The escape sequence resetting text style.
pub open spec fn style_reset_code() -> Seq<char> {
    csi(seq!['m'])
}

/// The escape sequence selecting an ANSI 256-color foreground.
pub open spec fn fg_ansi_code(n: u8) -> Seq<char> {
    csi(seq!['3', '8', ';', '5', ';'] + dec_str(n as int) + seq!['m'])
}

/// The escape sequence selecting the red foreground.
pub open spec fn fg_red_code() -> Seq<char> {
    csi(seq!['3', '8', ';', '5', ';', '1', 'm'])
}

/// The escape sequence resetting the foreground color.
pub open spec fn fg_reset_code() -> Seq<char> {
    csi(seq!['3', '9', 'm'])
}

/// Relies on `termion::cursor::Goto`'s `Display` impl: it writes the
/// escape character, a bracket, the row, a semicolon, the column and `H`,
/// both coordinates in decimal. Coordinates are one-based; `Goto(0, 0)` is
/// rejected there.
#[verifier::external_body]
fn goto(x: u16, y: u16) -> (r: String)
    requires
        x >= 1,
        y >= 1,
    ensures
        r@ == goto_code(x, y),
{
    format!("{}", termion::cursor::Goto(x, y))
}

/// Relies on `termion::clear::All`'s `Display` impl: the clear-screen
/// control sequence.
#[verifier::external_body]
fn clear_all() -> (r: String)
    ensures
        r@ == clear_all_code(),
{
    format!("{}", termion::clear::All)
}

/// Relies on `termion::style::Bold`'s `Display` impl.
#[verifier::external_body]
fn bold() -> (r: String)
    ensures
        r@ == bold_code(),
{
    format!("{}", termion::style::Bold)
}

/// Relies on `termion::style::Reset`'s `Display` impl.
#[verifier::external_body]
fn style_reset() -> (r: String)
    ensures
        r@ == style_reset_code(),
{
    format!("{}", termion::style::Reset)
}

/// Relies on `termion::color::AnsiValue::fg_string`: the 256-color
/// foreground sequence with the value in decimal.
#[verifier::external_body]
fn fg_ansi(n: u8) -> (r: String)
    ensures
        r@ == fg_ansi_code(n),
{
    termion::color::AnsiValue(n).fg_string()
}

/// Relies on `termion::color::Red::fg_str`: the red foreground sequence.
#[verifier::external_body]
fn fg_red() -> (r: String)
    ensures
        r@ == fg_red_code(),
{
    termion::color::Red.fg_str().to_owned()
}

/// Relies on `termion::color::Reset::fg_str`: the reset-foreground sequence.
#[verifier::external_body]
fn fg_reset() -> (r: String)
    ensures
        r@ == fg_reset_code(),
{
    termion::color::Reset.fg_str().to_owned()
}

/// Relies on `termion::color::AnsiValue::rgb`: the color-cube value
/// `16 + 36r + 6g + b`; components above five are rejected there.
#[verifier::external_body]
fn ansi_rgb(r: u8, g: u8, b: u8) -> (v: u8)
    requires
        r <= 5,
        g <= 5,
        b <= 5,
    ensures
        v == 16 + 36 * r + 6 * g + b,
{
    termion::color::AnsiValue::rgb(r, g, b).0
}

/// The dimmed gray used for unselected, read entries.
pub open spec fn gray_value() -> u8 {
    145
}

/// The separator drawn between server names.
pub open spec fn server_delim() -> Seq<char> {
    seq![' ', '\u{2022}', ' ']
}

/// One server-bar entry: the name, bold when selected, red when unread,
/// gray otherwise, followed by the separator unless it is the last.
pub open spec fn server_entry(s: Server, current: bool, last: bool) -> Seq<char> {
    (if current {
        bold_code() + s.name@ + style_reset_code()
    } else if s.has_unreads {
        fg_red_code() + s.name@ + fg_reset_code()
    } else {
        fg_ansi_code(gray_value()) + s.name@ + fg_reset_code()
    }) + (if last {
        Seq::<char>::empty()
    } else {
        server_delim()
    })
}

/// The server-bar entries from `i` on.
pub open spec fn server_bar_from(servers: Seq<Server>, i: int, cur: int) -> Seq<char>
    decreases servers.len() - i,
{
    if i < 0 || i >= servers.len() {
        Seq::empty()
    } else {
        server_entry(servers[i], i == cur, i == servers.len() - 1) + server_bar_from(
            servers,
            i + 1,
            cur,
        )
    }
}

/// The column of the separator between the channel list and the messages.
pub open spec fn chan_width_of(t: TUI) -> int {
    t.longest_channel_name + 2
}

/// The whole server bar: the cursor moved to the top, right of the channel
/// column, then every entry.
pub open spec fn server_bar_spec(t: TUI) -> Seq<char> {
    goto_code((chan_width_of(t) + 1) as u16, 1) + server_bar_from(
        t.servers@,
        0,
        t.current_server as int,
    )
}

impl TUI {
    /// Renders the server bar and clears the selected server's unread flag —
    /// the one entity whose flag drawing it resolves; no other server, no
    /// channel and nothing else changes.
    pub fn draw_server_names(&mut self) -> (out: String)
        requires
            old(self).wf(),
            chan_width_of(*old(self)) + 1 <= u16::MAX,
        ensures
            final(self).wf(),
            out@ == server_bar_spec(*old(self)),
            final(self).same_extras(*old(self)),
            final(self).current_server == old(self).current_server,
            final(self).servers@.len() == old(self).servers@.len(),
            forall|i: int|
                0 <= i < old(self).servers@.len() && i != old(self).current_server as int
                    ==> final(self).servers@[i] == old(self).servers@[i],
            final(self).cur_server().name == old(self).cur_server().name,
            final(self).cur_server().channels == old(self).cur_server().channels,
            final(self).cur_server().current_channel == old(self).cur_server().current_channel,
            !final(self).cur_server().has_unreads,
    {
        let cw = self.longest_channel_name + 2;
        let mut out = goto((cw + 1) as u16, 1);
        let n = self.servers.len();
        let mut i: usize = 0;
        proof {
            assert(out@ + server_bar_from(self.servers@, 0, self.current_server as int)
                =~= server_bar_spec(*self));
        }
        while i < n
            invariant
                i <= n,
                n == self.servers@.len(),
                self == old(self),
                out@ + server_bar_from(self.servers@, i as int, self.current_server as int)
                    == server_bar_spec(*old(self)),
            decreases n - i,
        {
            let ghost prev = out@;
            if i == self.current_server {
                out.append(bold().as_str());
                out.append(self.servers[i].name.as_str());
                out.append(style_reset().as_str());
            } else if self.servers[i].has_unreads {
                out.append(fg_red().as_str());
                out.append(self.servers[i].name.as_str());
                out.append(fg_reset().as_str());
            } else {
                let gray = ansi_rgb(3, 3, 3);
                out.append(fg_ansi(gray).as_str());
                out.append(self.servers[i].name.as_str());
                out.append(fg_reset().as_str());
            }
            if i + 1 < n {
                out.append(" \u{2022} ");
                proof {
                    reveal_strlit(" \u{2022} ");
                    assert(" \u{2022} "@ =~= server_delim());
                }
            }
            proof {
                assert(out@ =~= prev + server_entry(
                    self.servers@[i as int],
                    i == self.current_server,
                    i as int == self.servers@.len() - 1,
                ));
            }
            i = i + 1;
        }
        proof {
            assert(out@ =~= out@ + server_bar_from(
                self.servers@,
                n as int,
                self.current_server as int,
            ));
        }
        let cs = self.current_server;
        self.servers[cs].has_unreads = false;
        proof {
            assert(server_names_eq(self.servers@, old(self).servers@));
            lemma_max_name_names(self.servers@, old(self).servers@, 0);
        }
        out
    }
}

/// A channel name cut to the column width.
pub open spec fn trunc_name(name: Seq<char>, w: int) -> Seq<char> {
    if name.len() <= w {
        name
    } else {
        name.take(w)
    }
}

/// One channel-list entry: the cursor moved to its row, then the truncated
/// name, bold when selected, red when unread, gray otherwise.
pub open spec fn channel_entry(ch: Channel, c: int, current: bool, w: int) -> Seq<char> {
    goto_code(1, (c + 1) as u16) + (if current {
        bold_code() + trunc_name(ch.name@, w) + style_reset_code()
    } else if ch.has_unreads {
        fg_red_code() + trunc_name(ch.name@, w) + fg_reset_code()
    } else {
        fg_ansi_code(gray_value()) + trunc_name(ch.name@, w) + fg_reset_code()
    })
}

/// The channel-list entries from `c` up to `limit`.
pub open spec fn channel_list_from(
    chs: Seq<Channel>,
    c: int,
    limit: int,
    cur: int,
    w: int,
) -> Seq<char>
    decreases limit - c,
{
    if c < 0 || c >= limit {
        Seq::empty()
    } else {
        channel_entry(chs[c], c, c == cur, w) + channel_list_from(chs, c + 1, limit, cur, w)
    }
}

/// How many channels fit on the screen: at most one per row.
pub open spec fn channel_limit(t: TUI, height: u16) -> int {
    if t.cur_server().channels@.len() <= height {
        t.cur_server().channels@.len() as int
    } else {
        height as int
    }
}

/// The whole channel list of the current server.
pub open spec fn channel_list_spec(t: TUI, height: u16) -> Seq<char> {
    channel_list_from(
        t.cur_server().channels@,
        0,
        channel_limit(t, height),
        t.cur_chan_idx(),
        chan_width_of(t) - 1,
    )
}

impl TUI {
    /// Renders the channel list of the current server and, when the selected
    /// channel is on screen, clears exactly its unread flag; no other
    /// channel, no server flag and nothing else changes.
    pub fn draw_channel_names(&mut self, height: u16) -> (out: String)
        requires
            old(self).wf(),
            chan_width_of(*old(self)) + 1 <= u16::MAX,
        ensures
            final(self).wf(),
            out@ == channel_list_spec(*old(self), height),
            final(self).same_extras(*old(self)),
            final(self).current_server == old(self).current_server,
            final(self).servers@.len() == old(self).servers@.len(),
            forall|i: int|
                0 <= i < old(self).servers@.len() && i != old(self).current_server as int
                    ==> final(self).servers@[i] == old(self).servers@[i],
            final(self).cur_server().name == old(self).cur_server().name,
            final(self).cur_server().current_channel == old(self).cur_server().current_channel,
            final(self).cur_server().has_unreads == old(self).cur_server().has_unreads,
            final(self).cur_server().channels@.len() == old(self).cur_server().channels@.len(),
            forall|j: int|
                0 <= j < old(self).cur_server().channels@.len() && j != old(self).cur_chan_idx()
                    ==> final(self).cur_server().channels@[j] == old(
                    self,
                ).cur_server().channels@[j],
            final(self).cur_server().channels@[old(self).cur_chan_idx()].name == old(
                self,
            ).cur_server().channels@[old(self).cur_chan_idx()].name,
            final(self).cur_server().channels@[old(self).cur_chan_idx()].messages == old(
                self,
            ).cur_server().channels@[old(self).cur_chan_idx()].messages,
            final(self).cur_server().channels@[old(self).cur_chan_idx()].has_unreads == (
            old(self).cur_server().channels@[old(self).cur_chan_idx()].has_unreads
                && !(old(self).cur_chan_idx() < channel_limit(*old(self), height))),
    {
        let cs = self.current_server;
        let count = self.servers[cs].channels.len();
        let limit: usize = if count <= height as usize {
            count
        } else {
            height as usize
        };
        let w = self.longest_channel_name + 1;
        let mut out = String::new();
        let mut c: usize = 0;
        proof {
            assert(out@ + channel_list_spec(*self, height) =~= channel_list_spec(*self, height));
        }
        while c < limit
            invariant
                c <= limit,
                self == old(self),
                cs == self.current_server,
                limit == channel_limit(*self, height),
                limit <= self.servers@[cs as int].channels@.len(),
                cs < self.servers@.len(),
                w == chan_width_of(*self) - 1,
                out@ + channel_list_from(
                    self.cur_server().channels@,
                    c as int,
                    limit as int,
                    self.cur_chan_idx(),
                    w as int,
                ) == channel_list_spec(*old(self), height),
            decreases limit - c,
        {
            let ghost prev = out@;
            out.append(goto(1, (c + 1) as u16).as_str());
            let name_chars = crate::chars::str_to_chars(self.servers[cs].channels[c].name.as_str());
            let shortened = if name_chars.len() <= w {
                crate::chars::chars_to_string(&name_chars)
            } else {
                let cut = crate::chars::sub_chars(&name_chars, 0, w);
                crate::chars::chars_to_string(&cut)
            };
            proof {
                assert(shortened@ == trunc_name(
                    self.cur_server().channels@[c as int].name@,
                    w as int,
                ));
            }
            let is_current = c == self.servers[cs].current_channel;
            if is_current {
                out.append(bold().as_str());
                out.append(shortened.as_str());
                out.append(style_reset().as_str());
            } else if self.servers[cs].channels[c].has_unreads {
                out.append(fg_red().as_str());
                out.append(shortened.as_str());
                out.append(fg_reset().as_str());
            } else {
                let gray = ansi_rgb(3, 3, 3);
                out.append(fg_ansi(gray).as_str());
                out.append(shortened.as_str());
                out.append(fg_reset().as_str());
            }
            proof {
                assert(out@ =~= prev + channel_entry(
                    self.cur_server().channels@[c as int],
                    c as int,
                    c as int == self.cur_chan_idx(),
                    w as int,
                ));
            }
            c = c + 1;
        }
        let cc = self.servers[cs].current_channel;
        if cc < limit {
            self.servers[cs].channels[cc].has_unreads = false;
            proof {
                assert(server_names_eq(self.servers@, old(self).servers@));
                lemma_max_name_names(self.servers@, old(self).servers@, 0);
            }
        }
        out
    }
}

/// The first screen row of the compose area: with a multi-line compose
/// buffer the area grows upward, within the screen.
pub open spec fn area_top(lines: int, height: u16) -> int {
    if 1 < lines && lines <= height {
        height - lines + 1
    } else {
        height as int
    }
}

/// The compose lines from `l` on, each at its row, as long as rows remain.
pub open spec fn compose_lines_from(
    lines: Seq<Seq<char>>,
    l: int,
    top: int,
    height: u16,
    left: u16,
) -> Seq<char>
    decreases lines.len() - l,
{
    if l < 0 || l >= lines.len() || top + l > height {
        Seq::empty()
    } else {
        goto_code(left, (top + l) as u16) + lines[l] + compose_lines_from(
            lines,
            l + 1,
            top,
            height,
            left,
        )
    }
}

/// The whole compose area: every stored line at the bottom of the screen,
/// and with an empty compose buffer the cursor parked on the last row.
pub open spec fn message_area_spec(t: TUI, height: u16) -> Seq<char> {
    let lines = t.message_area_formatted.deep_view();
    let top = area_top(lines.len() as int, height);
    compose_lines_from(lines, 0, top, height, (chan_width_of(t) + 1) as u16) + (
    if t.message_buffer@.len() == 0 {
        goto_code((chan_width_of(t) + 1) as u16, height)
    } else {
        Seq::<char>::empty()
    })
}

impl TUI {
    /// Renders the compose area from the stored wrapped compose buffer.
    pub fn draw_message_area(&self, height: u16) -> (out: String)
        requires
            self.wf(),
            height >= 1,
            chan_width_of(*self) + 1 <= u16::MAX,
    ensures
            out@ == message_area_spec(*self, height),
    {
        let lines = &self.message_area_formatted;
        let n = lines.len();
        let top: usize = if 1 < n && n <= height as usize {
            height as usize - n + 1
        } else {
            height as usize
        };
        let left = (self.longest_channel_name + 2 + 1) as u16;
        let mut out = String::new();
        let mut l: usize = 0;
        let ghost linesv = self.message_area_formatted.deep_view();
        proof {
            assert(out@ + compose_lines_from(linesv, 0, top as int, height, left)
                =~= compose_lines_from(linesv, 0, top as int, height, left));
        }
        while l < n && l <= height as usize - top
            invariant
                1 <= top <= height,
                l <= n,
                n == linesv.len(),
                linesv == self.message_area_formatted.deep_view(),
                top == area_top(linesv.len() as int, height),
                left == chan_width_of(*self) + 1,
                chan_width_of(*self) + 1 <= u16::MAX,
                out@ + compose_lines_from(linesv, l as int, top as int, height, left)
                    == compose_lines_from(linesv, 0, top as int, height, left),
            decreases n - l,
        {
            let ghost prev = out@;
            out.append(goto(left, (top + l) as u16).as_str());
            out.append(self.message_area_formatted[l].as_str());
            proof {
                assert(out@ =~= prev + (goto_code(left, (top + l) as u16) + linesv[l as int]));
            }
            l = l + 1;
        }
        proof {
            if l < n {
                assert(top + l > height);
            }
            assert(l >= n || top + l > height);
            assert(out@ =~= out@ + compose_lines_from(
                linesv,
                l as int,
                top as int,
                height,
                left,
            ));
        }
        if self.message_buffer.as_str().unicode_len() == 0 {
            out.append(goto(left, height).as_str());
        }
        out
    }
}

/// The display lines of one message, drawn from line `j` upward at
/// descending rows; the first display line carries the colored sender
/// label. Drawing stops with the line that lands on row 2.
pub open spec fn lines_region(
    lines: Seq<Seq<char>>,
    sender: Seq<char>,
    j: int,
    row: int,
    left: u16,
) -> Seq<char>
    decreases j + 1 when j >= -1
{
    if j < 0 || j >= lines.len() || row < 2 {
        Seq::empty()
    } else {
        let body = if j == 0 {
            fg_ansi_code(color_of_seq(sender)) + sender + fg_reset_code() + seq![':', ' ']
                + lines[j]
        } else {
            lines[j]
        };
        goto_code(left, row as u16) + body + (if row == 2 {
            Seq::<char>::empty()
        } else {
            lines_region(lines, sender, j - 1, row - 1, left)
        })
    }
}

/// The bottom-up message region: messages from the newest backward, each
/// wrapped at the text width `w`, until the rows above the compose area run
/// out; `row` is the next free row.
pub open spec fn messages_region(
    msgs: Seq<ChanMessage>,
    mi: int,
    row: int,
    left: u16,
    w: nat,
) -> Seq<char>
    decreases mi + 1 when mi >= -1
{
    if mi < 0 || mi >= msgs.len() || row < 2 {
        Seq::empty()
    } else {
        let lines = wrap_message_spec(msgs[mi].sender@.len(), msgs[mi].raw@, w);
        lines_region(lines, msgs[mi].sender@, lines.len() - 1, row, left) + (
        if lines.len() < row - 1 {
            messages_region(msgs, mi - 1, row - lines.len(), left, w)
        } else {
            Seq::<char>::empty()
        })
    }
}

/// What is left to draw while one message's lines are under way: its lines
/// from `j` down, then the older messages if rows remain for them.
pub open spec fn msg_tail(
    msgs: Seq<ChanMessage>,
    mi: int,
    lines: Seq<Seq<char>>,
    j: int,
    row: int,
    left: u16,
    w: nat,
) -> Seq<char> {
    lines_region(lines, msgs[mi].sender@, j, row, left) + (if j + 1 < row - 1 {
        messages_region(msgs, mi - 1, row - (j + 1), left, w)
    } else {
        Seq::<char>::empty()
    })
}

/// Renders a channel's messages bottom-up from row `row_start`, wrapping
/// each at width `w` (and caching the wrap), stopping at row 2.
#[verifier::rlimit(60)]
fn render_messages(channel: &mut Channel, row_start: u16, left: u16, w: usize) -> (out: String)
    requires
        old(channel).wf(),
        left >= 1,
        row_start >= 2,
    ensures
        final(channel).wf(),
        final(channel).name == old(channel).name,
        final(channel).has_unreads == old(channel).has_unreads,
        final(channel).messages@.len() == old(channel).messages@.len(),
        forall|m: int|
            0 <= m < old(channel).messages@.len()
                ==> (#[trigger] final(channel).messages@[m]).raw
                == old(channel).messages@[m].raw
                && final(channel).messages@[m].sender == old(channel).messages@[m].sender,
        out@ == messages_region(
            old(channel).messages@,
            old(channel).messages@.len() - 1,
            row_start as int,
            left,
            w as nat,
        ),
{
    let ghost old_msgs = old(channel).messages@;
    let ghost total = messages_region(
        old_msgs,
        old_msgs.len() - 1,
        row_start as int,
        left,
        w as nat,
    );
    let mut out = String::new();
    let n = channel.messages.len();
    let mut mi = n;
    let mut row = row_start;
    proof {
        assert(out@ + total =~= total);
    }
    while mi > 0
        invariant
            mi <= n,
            n == channel.messages@.len(),
            n == old_msgs.len(),
            old_msgs == old(channel).messages@,
            2 <= row <= row_start,
            left >= 1,
            channel.wf(),
            channel.name == old(channel).name,
            channel.has_unreads == old(channel).has_unreads,
            forall|m: int|
                0 <= m < n ==> (#[trigger] channel.messages@[m]).raw == old_msgs[m].raw
                    && channel.messages@[m].sender == old_msgs[m].sender,
            total == messages_region(
                old_msgs,
                old_msgs.len() - 1,
                row_start as int,
                left,
                w as nat,
            ),
            out@ + messages_region(old_msgs, mi - 1, row as int, left, w as nat) == total,
        decreases mi,
    {
        mi = mi - 1;
        self_format(channel, mi, w);
        let ghost lines = wrap_message_spec(
            old_msgs[mi as int].sender@.len(),
            old_msgs[mi as int].raw@,
            w as nat,
        );
        proof {
            assert(channel.messages@[mi as int].contents.deep_view() == lines);
            assert(messages_region(old_msgs, mi as int, row as int, left, w as nat)
                =~= msg_tail(
                old_msgs,
                mi as int,
                lines,
                lines.len() - 1,
                row as int,
                left,
                w as nat,
            ));
        }
        let lines_count = channel.messages[mi].contents.len();
        let mut j = lines_count;
        while j > 0
            invariant
                j <= lines_count,
                mi < n,
                n == channel.messages@.len(),
                n == old_msgs.len(),
                old_msgs == old(channel).messages@,
                2 <= row <= row_start,
                left >= 1,
                channel.wf(),
                channel.name == old(channel).name,
                channel.has_unreads == old(channel).has_unreads,
                forall|m: int|
                    0 <= m < n ==> (#[trigger] channel.messages@[m]).raw == old_msgs[m].raw
                        && channel.messages@[m].sender == old_msgs[m].sender,
                lines_count == lines.len(),
                channel.messages@[mi as int].contents.deep_view() == lines,
                channel.messages@[mi as int].sender@ == old_msgs[mi as int].sender@,
                total == messages_region(
                    old_msgs,
                    old_msgs.len() - 1,
                    row_start as int,
                    left,
                    w as nat,
                ),
                out@ + msg_tail(old_msgs, mi as int, lines, j - 1, row as int, left, w as nat)
                    == total,
            decreases j,
        {
            j = j - 1;
            let ghost prev = out@;
            out.append(goto(left, row).as_str());
            if j == 0 {
                let color = sender_color(channel.messages[mi].sender.as_str());
                out.append(fg_ansi(color).as_str());
                out.append(channel.messages[mi].sender.as_str());
                out.append(fg_reset().as_str());
                out.append(": ");
                proof {
                    reveal_strlit(": ");
                    assert(": "@ =~= seq![':', ' ']);
                }
            }
            out.append(channel.messages[mi].contents[j].as_str());
            proof {
                assert(channel.messages@[mi as int].contents@[j as int]@ == lines[j as int]);
                if j == 0 {
                    assert(out@ =~= prev + (goto_code(left, row) + (fg_ansi_code(
                        color_of_seq(old_msgs[mi as int].sender@),
                    ) + old_msgs[mi as int].sender@ + fg_reset_code() + seq![':', ' ']
                        + lines[0])));
                } else {
                    assert(out@ =~= prev + (goto_code(left, row) + lines[j as int]));
                }
            }
            if row == 2 {
                proof {
                    assert(out@ =~= total);
                }
                return out;
            }
            row = row - 1;
        }
        proof {
            assert(msg_tail(old_msgs, mi as int, lines, -1, row as int, left, w as nat)
                =~= messages_region(old_msgs, mi - 1, row as int, left, w as nat));
        }
    }
    proof {
        assert(out@ =~= total);
    }
    out
}

/// Wraps message `mi` of the channel at width `w`, keeping the channel
/// well formed.
fn self_format(channel: &mut Channel, mi: usize, w: usize)
    requires
        old(channel).wf(),
        mi < old(channel).messages@.len(),
    ensures
        final(channel).wf(),
        final(channel).name == old(channel).name,
        final(channel).has_unreads == old(channel).has_unreads,
        final(channel).messages@.len() == old(channel).messages@.len(),
        forall|m: int|
            0 <= m < old(channel).messages@.len() && m != mi ==> final(channel).messages@[m]
                == old(channel).messages@[m],
        final(channel).messages@[mi as int].raw == old(channel).messages@[mi as int].raw,
        final(channel).messages@[mi as int].sender == old(channel).messages@[mi as int].sender,
        final(channel).messages@[mi as int].contents.deep_view() == wrap_message_spec(
            old(channel).messages@[mi as int].sender@.len(),
            old(channel).messages@[mi as int].raw@,
            w as nat,
        ),
{
    channel.messages[mi].format(w);
}

/// The vertical separator between the channel column and the message area:
/// one bar per row.
pub open spec fn sep_region(x: u16, i: int, height: u16) -> Seq<char>
    decreases height - i + 1 when i >= 1
{
    if i < 1 || i > height {
        Seq::empty()
    } else {
        goto_code(x, i as u16) + seq!['|'] + sep_region(x, i + 1, height)
    }
}

/// The compose area of a full redraw: the compose buffer wrapped freshly at
/// the width right of the separator.
pub open spec fn draw_compose_spec(t: TUI, width: u16, height: u16) -> Seq<char> {
    let lines = fill_plain_spec(t.message_buffer@, (width - chan_width_of(t) - 1) as nat);
    let top = area_top(lines.len() as int, height);
    compose_lines_from(lines, 0, top, height, (chan_width_of(t) + 1) as u16) + (
    if t.message_buffer@.len() == 0 {
        goto_code((chan_width_of(t) + 1) as u16, height)
    } else {
        Seq::<char>::empty()
    })
}

/// The message rows of a full redraw: the current channel bottom-up from
/// just above the compose area.
pub open spec fn draw_messages_spec(t: TUI, width: u16, height: u16) -> Seq<char> {
    let lines = fill_plain_spec(t.message_buffer@, (width - chan_width_of(t) - 1) as nat);
    let top = area_top(lines.len() as int, height);
    if top >= 3 {
        messages_region(
            t.cur_server().channels@[t.cur_chan_idx()].messages@,
            t.cur_server().channels@[t.cur_chan_idx()].messages@.len() - 1,
            top - 1,
            (chan_width_of(t) + 1) as u16,
            (width - chan_width_of(t)) as nat,
        )
    } else {
        Seq::empty()
    }
}

/// A full redraw: clear, the separator column, the server bar, the channel
/// list, the messages bottom-up, the compose area, and the cursor parked on
/// the last row when nothing is being composed.
pub open spec fn draw_spec(t: TUI, width: u16, height: u16) -> Seq<char> {
    clear_all_code() + sep_region(chan_width_of(t) as u16, 1, height) + server_bar_spec(t)
        + channel_list_spec(t, height) + draw_messages_spec(t, width, height)
        + draw_compose_spec(t, width, height)
}

impl TUI {
    /// Redraws the whole screen for the given terminal size. The selected
    /// server's and, when on screen, the selected channel's unread flags are
    /// cleared, the visible messages' wrap caches are refreshed, and nothing
    /// else changes.
    #[verifier::rlimit(60)]
    pub fn draw(&mut self, width: u16, height: u16) -> (out: String)
        requires
            old(self).wf(),
            height >= 2,
            chan_width_of(*old(self)) + 2 <= width,
        ensures
            final(self).wf(),
            out@ == draw_spec(*old(self), width, height),
            final(self).same_extras(*old(self)),
            final(self).current_server == old(self).current_server,
            final(self).servers@.len() == old(self).servers@.len(),
            forall|i: int|
                0 <= i < old(self).servers@.len() && i != old(self).current_server as int
                    ==> final(self).servers@[i] == old(self).servers@[i],
            final(self).cur_server().name == old(self).cur_server().name,
            final(self).cur_server().current_channel == old(self).cur_server().current_channel,
            !final(self).cur_server().has_unreads,
            final(self).cur_server().channels@.len() == old(self).cur_server().channels@.len(),
            forall|j: int|
                0 <= j < old(self).cur_server().channels@.len() && j != old(self).cur_chan_idx()
                    ==> final(self).cur_server().channels@[j] == old(
                    self,
                ).cur_server().channels@[j],
            final(self).cur_server().channels@[old(self).cur_chan_idx()].name == old(
                self,
            ).cur_server().channels@[old(self).cur_chan_idx()].name,
            final(self).cur_server().channels@[old(self).cur_chan_idx()].has_unreads == (
            old(self).cur_server().channels@[old(self).cur_chan_idx()].has_unreads
                && !(old(self).cur_chan_idx() < channel_limit(*old(self), height))),
            final(self).cur_server().channels@[old(self).cur_chan_idx()].messages@.len()
                == old(self).cur_server().channels@[old(self).cur_chan_idx()].messages@.len(),
            forall|m: int|
                0 <= m < old(self).cur_server().channels@[old(self).cur_chan_idx()].messages@.len()
                    ==> (#[trigger] final(self).cur_server().channels@[old(
                    self,
                ).cur_chan_idx()].messages@[m]).raw == old(self).cur_server().channels@[old(
                    self,
                ).cur_chan_idx()].messages@[m].raw
                    && final(self).cur_server().channels@[old(
                    self,
                ).cur_chan_idx()].messages@[m].sender == old(self).cur_server().channels@[old(
                    self,
                ).cur_chan_idx()].messages@[m].sender,
    {
        let cw_us = self.longest_channel_name + 2;
        let cw = cw_us as u16;
        let mut out = clear_all();
        let mut i: usize = 1;
        proof {
            assert(out@ + sep_region(cw, 1, height) =~= clear_all_code() + sep_region(
                cw,
                1,
                height,
            ));
        }
        while i <= height as usize
            invariant
                1 <= i,
                i <= height as usize + 1,
                cw >= 1,
                out@ + sep_region(cw, i as int, height) == clear_all_code() + sep_region(
                    cw,
                    1,
                    height,
                ),
            decreases height as usize - i + 1,
        {
            let ghost prev = out@;
            out.append(goto(cw, i as u16).as_str());
            out.append("|");
            proof {
                reveal_strlit("|");
                assert("|"@ =~= seq!['|']);
                assert(out@ =~= prev + (goto_code(cw, i as u16) + seq!['|']));
            }
            i = i + 1;
        }
        proof {
            assert(out@ =~= out@ + sep_region(cw, i as int, height));
        }
        let ghost t0 = *self;
        let bar = self.draw_server_names();
        out.append(bar.as_str());
        let ghost t1 = *self;
        let list = self.draw_channel_names(height);
        proof {
            assert(channel_list_spec(t1, height) =~= channel_list_spec(t0, height));
        }
        out.append(list.as_str());
        let ghost t2 = *self;
        let compose = fill_plain(
            self.message_buffer.as_str(),
            width as usize - cw_us - 1,
        );
        let n_compose = compose.len();
        let top: usize = if 1 < n_compose && n_compose <= height as usize {
            height as usize - n_compose + 1
        } else {
            height as usize
        };
        let ghost compose_lines = fill_plain_spec(
            t0.message_buffer@,
            (width - chan_width_of(t0) - 1) as nat,
        );
        proof {
            assert(compose.deep_view() == compose_lines);
            assert(top as int == area_top(compose_lines.len() as int, height));
        }
        if top >= 3 {
            let cs = self.current_server;
            let cc = self.servers[cs].current_channel;
            let ghost pre_msgs = self.servers@[cs as int].channels@[cc as int].messages@;
            let msgs_out = render_messages(
                &mut self.servers[cs].channels[cc],
                (top - 1) as u16,
                cw + 1,
                width as usize - cw_us,
            );
            proof {
                assert(pre_msgs == t0.cur_server().channels@[t0.cur_chan_idx()].messages@)
                    by {
                    assert(t2.cur_server().channels@[t2.cur_chan_idx()].messages@
                        == t0.cur_server().channels@[t0.cur_chan_idx()].messages@);
                }
                assert(msgs_out@ == draw_messages_spec(t0, width, height));
                assert(server_names_eq(self.servers@, t2.servers@));
                lemma_max_name_names(self.servers@, t2.servers@, 0);
            }
            out.append(msgs_out.as_str());
        } else {
            proof {
                assert(draw_messages_spec(t0, width, height) =~= Seq::<char>::empty());
                assert(out@ =~= out@ + draw_messages_spec(t0, width, height));
            }
        }
        let left = cw + 1;
        let mut l: usize = 0;
        let ghost before_compose = out@;
        proof {
            assert(out@ + compose_lines_from(compose_lines, 0, top as int, height, left)
                =~= before_compose + compose_lines_from(
                compose_lines,
                0,
                top as int,
                height,
                left,
            ));
        }
        while l < n_compose && l <= height as usize - top
            invariant
                1 <= top <= height,
                l <= n_compose,
                n_compose == compose_lines.len(),
                compose.deep_view() == compose_lines,
                left >= 1,
                out@ + compose_lines_from(compose_lines, l as int, top as int, height, left)
                    == before_compose + compose_lines_from(
                    compose_lines,
                    0,
                    top as int,
                    height,
                    left,
                ),
            decreases n_compose - l,
        {
            let ghost prev = out@;
            out.append(goto(left, (top + l) as u16).as_str());
            out.append(compose[l].as_str());
            proof {
                assert(out@ =~= prev + (goto_code(left, (top + l) as u16)
                    + compose_lines[l as int]));
            }
            l = l + 1;
        }
        proof {
            if l < n_compose {
                assert(top + l > height);
            }
            assert(out@ =~= out@ + compose_lines_from(
                compose_lines,
                l as int,
                top as int,
                height,
                left,
            ));
        }
        if self.message_buffer.as_str().unicode_len() == 0 {
            out.append(goto(left, height).as_str());
        }
        proof {
            assert(out@ =~= draw_spec(t0, width, height));
        }
        out
    }
}

} // verus!
