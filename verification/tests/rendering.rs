use omnichat::tui::TUI;

const ESC: char = '\u{1b}';

fn with_team() -> TUI {
    let mut t = TUI::new();
    t.add_server_with(
        "Team-A".to_string(),
        vec!["general".to_string(), "random".to_string()],
    );
    t
}

#[test]
fn server_bar_is_exact_for_the_fresh_state() {
    // Longest channel name is "Mentions" (8), so the bar starts at column 11.
    let mut t = TUI::new();
    let out = t.draw_server_names();
    assert_eq!(out, format!("{ESC}[1;11H{ESC}[1mClient{ESC}[m"));
}

#[test]
fn server_bar_marks_unread_servers_red() {
    let mut t = with_team();
    t.servers[1].has_unreads = true;
    let out = t.draw_server_names();
    assert_eq!(
        out,
        format!(
            "{ESC}[1;11H{ESC}[1mClient{ESC}[m \u{2022} {ESC}[38;5;1mTeam-A{ESC}[39m"
        )
    );
}

#[test]
fn drawing_the_server_bar_clears_only_the_selected_servers_flag() {
    let mut t = with_team();
    t.servers[0].has_unreads = true;
    t.servers[1].has_unreads = true;
    t.servers[0].channels[0].has_unreads = true;
    t.draw_server_names();
    assert!(!t.servers[0].has_unreads, "selected server was cleared");
    assert!(t.servers[1].has_unreads, "other server kept its flag");
    assert!(t.servers[0].channels[0].has_unreads, "channel flags untouched");
}

#[test]
fn channel_list_is_exact_for_the_fresh_state() {
    let mut t = TUI::new();
    let out = t.draw_channel_names(24);
    assert_eq!(
        out,
        format!(
            "{ESC}[1;1H{ESC}[1mErrors{ESC}[m{ESC}[2;1H{ESC}[38;5;145mMentions{ESC}[39m"
        )
    );
}

#[test]
fn drawing_the_channel_list_clears_only_the_selected_channels_flag() {
    let mut t = with_team();
    t.servers[0].channels[0].has_unreads = true;
    t.servers[0].channels[1].has_unreads = true;
    t.servers[1].channels[0].has_unreads = true;
    t.servers[0].has_unreads = true;
    t.draw_channel_names(24);
    assert!(!t.servers[0].channels[0].has_unreads, "selected channel cleared");
    assert!(t.servers[0].channels[1].has_unreads, "other channel kept");
    assert!(t.servers[1].channels[0].has_unreads, "other server's channel kept");
    assert!(t.servers[0].has_unreads, "server flag untouched");
}

#[test]
fn channel_names_are_truncated_to_the_column() {
    let mut t = TUI::new();
    // Longest name stays 8, so names are cut to nine characters.
    t.add_server_with(
        "Team-A".to_string(),
        vec!["abcdefgh".to_string(), "ab".to_string()],
    );
    t.next_server();
    let out = t.draw_channel_names(24);
    assert!(out.contains("abcdefgh"));
}

#[test]
fn empty_compose_area_parks_the_cursor_on_the_last_row() {
    let t = TUI::new();
    let out = t.draw_message_area(5);
    assert_eq!(out, format!("{ESC}[5;11H"));
}

#[test]
fn full_draw_starts_by_clearing_and_ruling_the_screen() {
    let mut t = TUI::new();
    let out = t.draw(40, 3);
    let expected_start = format!(
        "{ESC}[2J{ESC}[1;10H|{ESC}[2;10H|{ESC}[3;10H|{ESC}[1;11H{ESC}[1mClient{ESC}[m"
    );
    assert!(out.starts_with(&expected_start), "got {out:?}");
    assert!(out.ends_with(&format!("{ESC}[3;11H")), "cursor parks at the bottom");
}

#[test]
fn full_draw_paints_a_message_with_the_sender_label() {
    let mut t = with_team();
    t.next_server();
    let r = t.add_message(
        &omnichat::conn::Message {
            server: "Team-A".to_string(),
            channel: "general".to_string(),
            sender: "bob".to_string(),
            contents: "hello".to_string(),
        },
        true,
    );
    assert!(r.is_ok());
    let out = t.draw(40, 10);
    let color = omnichat::color::sender_color("bob");
    assert!(
        out.contains(&format!("{ESC}[38;5;{color}mbob{ESC}[39m: hello")),
        "got {out:?}"
    );
}

#[test]
fn full_draw_works_at_the_smallest_height() {
    let mut t = TUI::new();
    let out = t.draw(40, 2);
    assert!(out.starts_with(&format!("{ESC}[2J")));
}
