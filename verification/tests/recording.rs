use omnichat::conn::{Event, Key, Message};
use omnichat::events::Redraw;
use omnichat::tui::{TUI, TuiError};

fn msg(server: &str, channel: &str, sender: &str, contents: &str) -> Message {
    Message {
        server: server.to_string(),
        channel: channel.to_string(),
        sender: sender.to_string(),
        contents: contents.to_string(),
    }
}

fn with_team() -> TUI {
    let mut t = TUI::new();
    t.add_server_with(
        "Team-A".to_string(),
        vec!["general".to_string(), "random".to_string()],
    );
    t
}

#[test]
fn live_message_sets_exactly_its_unread_flags() {
    let mut t = with_team();
    let r = t.add_message(&msg("Team-A", "general", "bob", "hi"), true);
    assert!(r.is_ok());
    assert!(t.servers[1].has_unreads);
    assert!(t.servers[1].channels[0].has_unreads);
    assert!(!t.servers[1].channels[1].has_unreads);
    assert!(!t.servers[0].has_unreads);
    assert!(!t.servers[0].channels[0].has_unreads);
    assert!(!t.servers[0].channels[1].has_unreads);
    assert_eq!(t.servers[1].channels[0].messages.len(), 1);
    assert_eq!(t.servers[1].channels[0].messages[0].sender, "bob");
    assert_eq!(t.servers[1].channels[0].messages[0].raw, "hi");
}

#[test]
fn historical_message_sets_no_unread_flags() {
    let mut t = with_team();
    let r = t.add_message(&msg("Team-A", "general", "bob", "old news"), false);
    assert!(r.is_ok());
    assert!(!t.servers[1].has_unreads);
    assert!(!t.servers[1].channels[0].has_unreads);
    assert_eq!(t.servers[1].channels[0].messages.len(), 1);
}

#[test]
fn unknown_server_is_reported() {
    let mut t = with_team();
    let r = t.add_message(&msg("Ghost", "general", "bob", "hi"), true);
    assert_eq!(r, Err(TuiError::UnknownServer));
    assert_eq!(t.servers[1].channels[0].messages.len(), 0);
}

#[test]
fn unknown_channel_is_reported() {
    let mut t = with_team();
    let r = t.add_message(&msg("Team-A", "nowhere", "bob", "hi"), true);
    assert_eq!(r, Err(TuiError::UnknownChannel));
}

#[test]
fn ghost_server_event_adds_one_diagnostic_line() {
    let mut t = with_team();
    assert_eq!(t.servers[0].channels[0].messages.len(), 0);
    let outcome = t.handle_event(Event::Message(msg("Ghost", "general", "bob", "hi")), 80);
    assert_eq!(t.servers[0].channels[0].messages.len(), 1);
    assert_eq!(
        t.servers[0].channels[0].messages[0].raw,
        "Got a message from an unknown server"
    );
    assert_eq!(t.servers[0].channels[0].messages[0].sender, "Client");
    assert!(t.servers[0].has_unreads);
    assert!(t.servers[0].channels[0].has_unreads);
    assert!(!outcome.quit);
}

#[test]
fn error_messages_name_the_failing_lookup() {
    assert_eq!(
        TuiError::UnknownServer.message(),
        "Got a message from an unknown server"
    );
    assert_eq!(
        TuiError::UnknownChannel.message(),
        "Got a message from an unknown channel"
    );
}

#[test]
fn message_on_other_server_while_viewing_client() {
    // Viewing Client/Errors; a live message for Team-A/general arrives.
    let mut t = with_team();
    let outcome = t.handle_event(Event::Message(msg("Team-A", "general", "bob", "hi")), 80);
    assert!(t.servers[1].has_unreads);
    assert!(t.servers[1].channels[0].has_unreads);
    // The viewed channel's content is unchanged.
    assert_eq!(t.servers[0].channels[0].messages.len(), 0);
    assert_eq!(t.current_server, 0);
    assert_eq!(t.servers[0].current_channel, 0);
    assert_eq!(outcome.redraw, Redraw::ServersAndMessageArea);
}

#[test]
fn message_redraw_depends_on_what_is_viewed() {
    let mut t = with_team();
    t.next_server();
    let on_viewed = t.handle_event(Event::Message(msg("Team-A", "general", "b", "x")), 80);
    assert_eq!(on_viewed.redraw, Redraw::Full);
    let same_server = t.handle_event(Event::Message(msg("Team-A", "random", "b", "x")), 80);
    assert_eq!(same_server.redraw, Redraw::ChannelsAndMessageArea);
    let other_server = t.handle_event(Event::Message(msg("Client", "Errors", "b", "x")), 80);
    assert_eq!(other_server.redraw, Redraw::ServersAndMessageArea);
}

#[test]
fn history_message_redraws_nothing() {
    let mut t = with_team();
    let outcome = t.handle_event(
        Event::HistoryMessage(msg("Team-A", "general", "bob", "old")),
        80,
    );
    assert_eq!(outcome.redraw, Redraw::Nothing);
    assert!(!t.servers[1].has_unreads);
}

#[test]
fn mention_lands_in_the_mentions_channel() {
    let mut t = with_team();
    t.handle_event(Event::Mention(msg("Team-A", "general", "bob", "ping")), 80);
    assert_eq!(t.servers[0].channels[1].messages.len(), 1);
    assert_eq!(
        t.servers[0].channels[1].messages[0].sender,
        "bob@general:Team-A"
    );
    assert!(t.servers[0].has_unreads);
    assert!(t.servers[0].channels[1].has_unreads);
}

#[test]
fn error_event_lands_in_the_errors_channel() {
    let mut t = with_team();
    let outcome = t.handle_event(Event::Error("backend fell over".to_string()), 80);
    assert_eq!(t.servers[0].channels[0].messages.len(), 1);
    assert_eq!(t.servers[0].channels[0].messages[0].raw, "backend fell over");
    // Viewing Client/Errors, so the whole screen is repainted.
    assert_eq!(outcome.redraw, Redraw::Full);
}

#[test]
fn typing_and_sending_round_trip() {
    let mut t = with_team();
    t.handle_input(Key::Char('h'), 80);
    t.handle_input(Key::Char('i'), 80);
    assert_eq!(t.message_buffer, "hi");
    t.handle_input(Key::Backspace, 80);
    assert_eq!(t.message_buffer, "h");
    let outcome = t.handle_input(Key::Char('\n'), 80);
    assert_eq!(t.message_buffer, "");
    let out = outcome.outgoing.expect("enter yields an outgoing send");
    assert_eq!(out.channel, "Errors");
    assert_eq!(out.contents, "h");
}

#[test]
fn interrupt_key_asks_to_quit() {
    let mut t = with_team();
    let outcome = t.handle_event(Event::Input(Key::Ctrl('c')), 80);
    assert!(outcome.quit);
    assert_eq!(outcome.redraw, Redraw::Nothing);
}

#[test]
fn history_loaded_redraws_only_the_viewed_channel() {
    let mut t = with_team();
    let elsewhere = t.handle_event(
        Event::HistoryLoaded { server: "Team-A".to_string(), channel: "general".to_string() },
        80,
    );
    assert_eq!(elsewhere.redraw, Redraw::Nothing);
    let viewed = t.handle_event(
        Event::HistoryLoaded { server: "Client".to_string(), channel: "Errors".to_string() },
        80,
    );
    assert_eq!(viewed.redraw, Redraw::Full);
}

#[test]
fn typing_repaints_only_the_compose_area_until_it_grows() {
    let mut t = with_team();
    let first = t.handle_input(Key::Char('a'), 80);
    // The compose area goes from no lines to one: everything repaints.
    assert_eq!(first.redraw, Redraw::Full);
    let second = t.handle_input(Key::Char('b'), 80);
    // Still one line: only the compose area repaints.
    assert_eq!(second.redraw, Redraw::MessageAreaOnly);
}
