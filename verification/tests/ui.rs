use switchdns::dns::{builtin_dns_options, DnsOption};
use switchdns::ui::{
    command_for, label_servers, layout_heights, Action, Command, Key, Selector, WriteRequest,
    CURRENT_HEIGHT, INLINE_HEIGHT, POLL_TIMEOUT_MS, STATUS_HEIGHT,
};

fn strings(items: &[&str]) -> Vec<String> {
    items.iter().map(|s| s.to_string()).collect()
}

fn selector() -> Selector {
    Selector::new(builtin_dns_options(), "9.9.9.9".to_string())
}

fn request(action: Action) -> WriteRequest {
    match action {
        Action::Write(request) => request,
        other => panic!("no write asked for: {:?}", other),
    }
}

#[test]
fn a_new_selector_highlights_the_first_entry() {
    let s = selector();
    assert_eq!(s.selected(), 0);
    assert_eq!(s.status(), None);
    assert_eq!(s.current_dns(), "9.9.9.9");
    assert_eq!(s.options().len(), 9);
    assert_eq!(s.options()[8].name, "Reset (Automatic/ISP)");
}

#[test]
fn the_selector_starts_from_the_files() {
    let lines = strings(&["Mine | 10.0.0.1", "nothing here"]);
    let s = Selector::start(&lines, "# x\nnameserver 10.0.0.1\n");
    assert_eq!(s.selected(), 0);
    assert_eq!(s.status(), None);
    assert_eq!(s.current_dns(), "10.0.0.1");
    assert_eq!(s.options().len(), 10);
    assert_eq!(s.options()[0].name, "Cloudflare");
    assert_eq!(s.options()[9].name, "Mine");
    assert_eq!(s.options()[9].servers, strings(&["10.0.0.1"]));
}

#[test]
fn the_selector_starts_without_files() {
    let s = Selector::start(&Vec::new(), "");
    assert_eq!(s.selected(), 0);
    assert_eq!(s.status(), None);
    assert_eq!(s.current_dns(), "Automatic/ISP");
    assert_eq!(s.options().len(), 9);
}

#[test]
fn up_stops_at_the_first_entry() {
    let mut s = selector();
    assert!(matches!(s.handle_key(Key::Up), Action::Stay));
    assert_eq!(s.selected(), 0);
    s.handle_key(Key::Down);
    s.handle_key(Key::Down);
    assert_eq!(s.selected(), 2);
    s.handle_key(Key::Up);
    assert_eq!(s.selected(), 1);
    s.handle_key(Key::Up);
    s.handle_key(Key::Up);
    assert_eq!(s.selected(), 0);
}

#[test]
fn down_stops_at_the_last_entry() {
    let mut s = selector();
    for expected in 1..9 {
        assert!(matches!(s.handle_key(Key::Down), Action::Stay));
        assert_eq!(s.selected(), expected);
    }
    s.handle_key(Key::Down);
    assert_eq!(s.selected(), 8);
    s.handle_key(Key::Down);
    assert_eq!(s.selected(), 8);
}

#[test]
fn a_catalog_of_one_keeps_its_highlight() {
    let only = DnsOption { name: "Only".to_string(), servers: strings(&["1.1.1.1"]) };
    let mut s = Selector::new(vec![only], "x".to_string());
    s.handle_key(Key::Down);
    assert_eq!(s.selected(), 0);
    s.handle_key(Key::Up);
    assert_eq!(s.selected(), 0);
}

#[test]
fn navigation_stays_within_the_catalog() {
    let mut s = selector();
    let mut state: u64 = 7;
    for _ in 0..10000 {
        state = state.wrapping_mul(6364136223846793005).wrapping_add(1442695040888963407);
        let key = if (state >> 40) % 2 == 0 { Key::Up } else { Key::Down };
        s.handle_key(key);
        assert!(s.selected() < s.options().len());
    }
}

#[test]
fn quit_asks_to_leave_and_changes_nothing() {
    let mut s = selector();
    s.handle_key(Key::Down);
    assert!(matches!(s.handle_key(Key::Char('q')), Action::Quit));
    assert_eq!(s.selected(), 1);
    assert_eq!(s.status(), None);
    assert_eq!(s.current_dns(), "9.9.9.9");
}

#[test]
fn other_keys_change_nothing() {
    let mut s = selector();
    s.handle_key(Key::Down);
    for key in [Key::Other, Key::Char('x'), Key::Char('Q'), Key::Char('R'), Key::Char(' ')] {
        assert!(matches!(s.handle_key(key), Action::Stay));
        assert_eq!(s.selected(), 1);
        assert_eq!(s.status(), None);
        assert_eq!(s.current_dns(), "9.9.9.9");
    }
}

#[test]
fn keys_are_bound_to_commands() {
    assert_eq!(command_for(Key::Char('q')), Command::Quit);
    assert_eq!(command_for(Key::Char('r')), Command::Reset);
    assert_eq!(command_for(Key::Up), Command::Up);
    assert_eq!(command_for(Key::Down), Command::Down);
    assert_eq!(command_for(Key::Enter), Command::Apply);
    assert_eq!(command_for(Key::Other), Command::Nothing);
    assert_eq!(command_for(Key::Char('Q')), Command::Nothing);
    assert_eq!(command_for(Key::Char('j')), Command::Nothing);
    assert_eq!(command_for(Key::Char('\n')), Command::Nothing);
}

#[test]
fn enter_asks_to_write_the_highlighted_provider() {
    let mut s = selector();
    s.handle_key(Key::Down);
    let asked = request(s.handle_key(Key::Enter));
    assert!(!asked.reset);
    assert_eq!(asked.provider.name, "Google");
    assert_eq!(asked.provider.servers, strings(&["8.8.8.8", "8.8.4.4"]));
    assert_eq!(s.selected(), 1);
    assert_eq!(s.status(), None);
    assert_eq!(s.current_dns(), "9.9.9.9");
}

#[test]
fn reset_asks_to_write_the_reset_provider() {
    let mut s = selector();
    s.handle_key(Key::Down);
    let asked = request(s.handle_key(Key::Char('r')));
    assert!(asked.reset);
    assert_eq!(asked.provider.name, "Reset (Automatic/ISP)");
    assert!(asked.provider.servers.is_empty());
    assert_eq!(s.selected(), 1);
}

#[test]
fn a_switch_that_succeeds_shows_the_new_servers() {
    let mut s = selector();
    s.handle_key(Key::Down);
    let asked = request(s.handle_key(Key::Enter));
    s.finish_write(&asked, true);
    assert_eq!(s.current_dns(), "8.8.8.8, 8.8.4.4");
    assert_eq!(s.status(), Some("Switched DNS to: Google"));
    assert_eq!(s.selected(), 1);
}

#[test]
fn a_switch_to_the_reset_entry_shows_automatic() {
    let mut s = selector();
    for _ in 0..8 {
        s.handle_key(Key::Down);
    }
    let asked = request(s.handle_key(Key::Enter));
    assert!(!asked.reset);
    s.finish_write(&asked, true);
    assert_eq!(s.current_dns(), "Automatic/ISP");
    assert_eq!(s.status(), Some("Switched DNS to: Reset (Automatic/ISP)"));
    assert_eq!(s.selected(), 8);
}

#[test]
fn a_switch_that_fails_leaves_display_and_highlight() {
    let mut s = selector();
    s.handle_key(Key::Down);
    s.handle_key(Key::Down);
    let asked = request(s.handle_key(Key::Enter));
    s.finish_write(&asked, false);
    assert_eq!(s.current_dns(), "9.9.9.9");
    assert_eq!(s.selected(), 2);
    assert_eq!(s.status(), Some("Failed to switch (are you root?)"));
}

#[test]
fn a_reset_that_succeeds_shows_automatic() {
    let mut s = selector();
    s.handle_key(Key::Down);
    let asked = request(s.handle_key(Key::Char('r')));
    s.finish_write(&asked, true);
    assert_eq!(s.current_dns(), "Automatic/ISP");
    assert_eq!(s.status(), Some("Reset DNS to Automatic/ISP"));
    assert_eq!(s.selected(), 1);
}

#[test]
fn a_reset_that_fails_leaves_display_and_highlight() {
    let mut s = selector();
    s.handle_key(Key::Down);
    let asked = request(s.handle_key(Key::Char('r')));
    s.finish_write(&asked, false);
    assert_eq!(s.current_dns(), "9.9.9.9");
    assert_eq!(s.selected(), 1);
    assert_eq!(s.status(), Some("Failed to reset (are you root?)"));
}

#[test]
fn a_new_message_replaces_the_old_one() {
    let mut s = selector();
    let first = request(s.handle_key(Key::Enter));
    s.finish_write(&first, true);
    assert_eq!(s.status(), Some("Switched DNS to: Cloudflare"));
    let second = request(s.handle_key(Key::Char('r')));
    s.finish_write(&second, false);
    assert_eq!(s.status(), Some("Failed to reset (are you root?)"));
    assert_eq!(s.current_dns(), "1.1.1.1, 1.0.0.1");
    s.handle_key(Key::Down);
    assert_eq!(s.status(), Some("Failed to reset (are you root?)"));
}

#[test]
fn heights_leave_the_rest_to_the_list() {
    assert_eq!(layout_heights(20, false), (3, 17, 0));
    assert_eq!(layout_heights(20, true), (3, 14, 3));
    assert_eq!(layout_heights(6, true), (3, 0, 3));
    assert_eq!(layout_heights(5, true), (3, 0, 3));
    assert_eq!(layout_heights(3, false), (3, 0, 0));
    assert_eq!(layout_heights(0, false), (3, 0, 0));
    assert_eq!(layout_heights(u16::MAX, true), (3, u16::MAX - 6, 3));
}

#[test]
fn servers_are_labelled_in_parentheses() {
    assert_eq!(label_servers(&strings(&[])), "(Automatic)");
    assert_eq!(label_servers(&strings(&["1.1.1.1"])), "(1.1.1.1)");
    assert_eq!(label_servers(&strings(&["1.1.1.1", "1.0.0.1"])), "(1.1.1.1, 1.0.0.1)");
}

#[test]
fn a_frame_without_message_has_no_status_region() {
    let mut s = selector();
    s.handle_key(Key::Down);
    let screen = s.screen(INLINE_HEIGHT);
    assert_eq!(screen.current, "Servers: 9.9.9.9");
    assert_eq!(screen.rows.len(), 9);
    assert_eq!(screen.rows[0].name, "Cloudflare");
    assert_eq!(screen.rows[0].servers, "(1.1.1.1, 1.0.0.1)");
    assert_eq!(screen.rows[8].name, "Reset (Automatic/ISP)");
    assert_eq!(screen.rows[8].servers, "(Automatic)");
    assert_eq!(screen.highlighted, 1);
    assert_eq!(screen.status, None);
    assert_eq!((screen.current_height, screen.list_height, screen.status_height), (3, 17, 0));
}

#[test]
fn a_frame_with_message_has_a_status_region() {
    let mut s = selector();
    let asked = request(s.handle_key(Key::Enter));
    s.finish_write(&asked, false);
    let screen = s.screen(INLINE_HEIGHT);
    assert_eq!(screen.status, Some("Failed to switch (are you root?)".to_string()));
    assert_eq!((screen.current_height, screen.list_height, screen.status_height), (3, 14, 3));
    assert_eq!(screen.current, "Servers: 9.9.9.9");
    assert_eq!(screen.highlighted, 0);
}

#[test]
fn the_fixed_sizes() {
    assert_eq!(POLL_TIMEOUT_MS, 300);
    assert_eq!(INLINE_HEIGHT, 20);
    assert_eq!(CURRENT_HEIGHT, 3);
    assert_eq!(STATUS_HEIGHT, 3);
}
