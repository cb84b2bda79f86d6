use omnichat::tui::TUI;

fn two_servers() -> TUI {
    let mut t = TUI::new();
    t.add_server_with(
        "Team-A".to_string(),
        vec!["general".to_string(), "random".to_string()],
    );
    t
}

#[test]
fn starts_on_client_server() {
    let t = TUI::new();
    assert_eq!(t.servers.len(), 1);
    assert_eq!(t.current_server, 0);
    assert_eq!(t.servers[0].name, "Client");
    assert_eq!(t.servers[0].channels.len(), 2);
    assert_eq!(t.servers[0].channels[0].name, "Errors");
    assert_eq!(t.servers[0].channels[1].name, "Mentions");
}

#[test]
fn next_server_wraps_circularly() {
    let mut t = two_servers();
    assert_eq!(t.current_server, 0);
    t.next_server();
    assert_eq!(t.current_server, 1);
    t.next_server();
    assert_eq!(t.current_server, 0);
}

#[test]
fn previous_server_wraps_circularly() {
    let mut t = two_servers();
    t.previous_server();
    assert_eq!(t.current_server, 1);
    t.previous_server();
    assert_eq!(t.current_server, 0);
}

#[test]
fn next_channel_wraps_circularly() {
    let mut t = TUI::new();
    assert_eq!(t.servers[0].current_channel, 0);
    t.next_channel();
    assert_eq!(t.servers[0].current_channel, 1);
    t.next_channel();
    assert_eq!(t.servers[0].current_channel, 0);
}

#[test]
fn previous_channel_wraps_to_last() {
    let mut t = TUI::new();
    t.previous_channel();
    assert_eq!(t.servers[0].current_channel, 1);
    t.previous_channel();
    assert_eq!(t.servers[0].current_channel, 0);
}

#[test]
fn long_alternating_navigation_stays_in_bounds() {
    let mut t = two_servers();
    for i in 0..50 {
        if i % 3 == 0 {
            t.next_channel();
        } else if i % 3 == 1 {
            t.previous_channel();
        } else {
            t.next_server();
        }
        let s = &t.servers[t.current_server];
        assert!(t.current_server < t.servers.len());
        assert!(s.current_channel < s.channels.len());
    }
}

#[test]
fn next_unread_channel_finds_the_unread() {
    let mut t = TUI::new();
    t.add_server_with(
        "Team-A".to_string(),
        vec![
            "alpha".to_string(),
            "beta".to_string(),
            "gamma".to_string(),
        ],
    );
    t.next_server();
    t.servers[1].channels[2].has_unreads = true;
    t.next_channel_unread();
    assert_eq!(t.servers[1].current_channel, 2);
}

#[test]
fn next_unread_channel_with_none_stays_put() {
    let mut t = TUI::new();
    t.next_channel_unread();
    assert_eq!(t.servers[0].current_channel, 0);
}

#[test]
fn previous_unread_channel_scans_backward() {
    let mut t = TUI::new();
    t.add_server_with(
        "Team-A".to_string(),
        vec![
            "alpha".to_string(),
            "beta".to_string(),
            "gamma".to_string(),
        ],
    );
    t.next_server();
    t.servers[1].current_channel = 1;
    t.servers[1].channels[2].has_unreads = true;
    t.previous_channel_unread();
    assert_eq!(t.servers[1].current_channel, 2);
}

#[test]
fn add_server_sorts_channel_names() {
    let mut t = TUI::new();
    t.add_server_with(
        "Team-A".to_string(),
        vec![
            "zeta".to_string(),
            "alpha".to_string(),
            "mid".to_string(),
        ],
    );
    let names: Vec<&str> = t.servers[1]
        .channels
        .iter()
        .map(|c| c.name.as_str())
        .collect();
    assert_eq!(names, vec!["alpha", "mid", "zeta"]);
}

#[test]
fn add_server_reads_the_connection() {
    let mut t = TUI::new();
    let c = omnichat::conn::ClientConn::new();
    let added = t.add_server(&c);
    assert!(added);
    assert_eq!(t.servers.len(), 2);
    assert_eq!(t.servers[1].name, "Client");
    assert_eq!(t.servers[1].channels[0].name, "Errors");
    assert_eq!(t.servers[1].channels[1].name, "Mentions");
    assert_eq!(t.servers[1].current_channel, 0);
    assert!(!t.servers[1].has_unreads);
}
