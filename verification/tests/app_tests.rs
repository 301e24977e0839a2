use bitchy::config::{Config, ServerConfig};
use bitchy::irc::channel::MessageKind;
use bitchy::irc::client::{ClientCommand, IrcEvent};
use bitchy::irc::message::IrcMessage;
use bitchy::ui::app::{App, AppEffect};
use bitchy::ui::input::InputAction;

fn config() -> Config {
    let mut c = Config::for_user(Some("me".to_string()));
    c.nick = "me".to_string();
    c
}

fn app() -> App {
    App::new(config())
}

fn msg(line: &str) -> IrcMessage {
    IrcMessage::parse(line).unwrap()
}

fn feed(app: &mut App, line: &str) -> Option<AppEffect> {
    app.handle_irc_message(msg(line), 0)
}

fn command(app: &mut App, cmd: &str, args: &[&str]) -> Option<AppEffect> {
    let args: Vec<String> = args.iter().map(|s| s.to_string()).collect();
    app.handle_input_action_at(InputAction::Command(cmd.to_string(), args), 0)
}

fn last_server_line(app: &App) -> (String, MessageKind) {
    let m = app.server_messages.last().unwrap();
    (m.content.clone(), m.kind)
}

#[test]
fn new_app_starts_empty_with_configured_nick() {
    let app = app();
    assert_eq!(app.nick, "me");
    assert_eq!(app.server, "localhost");
    assert_eq!(app.channels.len(), 0);
    assert!(app.active_channel.is_none());
    assert!(app.running);
    assert!(!app.is_away);
    assert_eq!(app.scroll_offset, 0);
    assert!(app.lag_ms.is_none());
}

#[test]
fn new_app_names_first_configured_server() {
    let mut c = config();
    c.servers.push(ServerConfig {
        host: "irc.libera.chat".to_string(),
        port: 6697,
        tls: true,
        password: None,
        sasl_user: None,
        sasl_pass: None,
    });
    let app = App::new(c);
    assert_eq!(app.server, "irc.libera.chat");
}

#[test]
fn own_join_opens_and_shows_channel() {
    let mut app = app();
    assert!(feed(&mut app, ":me!u@h JOIN #rust").is_none());
    assert_eq!(app.active_channel.as_deref(), Some("#rust"));
    let ch = app.channels.get("#rust").unwrap();
    assert!(ch.users.contains_key("me"));
    let last = ch.messages.last().unwrap();
    assert_eq!(last.kind, MessageKind::Join);
    assert_eq!(last.sender, "me");
    assert_eq!(last.content, "#rust");
}

#[test]
fn other_join_opens_channel_without_showing_it() {
    let mut app = app();
    feed(&mut app, ":alice!u@h JOIN #rust");
    assert!(app.active_channel.is_none());
    assert!(app.channels.get("#rust").unwrap().users.contains_key("alice"));
}

#[test]
fn channel_message_counts_unread_unless_shown() {
    let mut app = app();
    feed(&mut app, ":me!u@h JOIN #shown");
    feed(&mut app, ":alice!u@h JOIN #other");
    let eff = feed(&mut app, ":alice!u@h PRIVMSG #other :hello");
    assert!(matches!(eff, Some(AppEffect::Dispatch(ref s, ref t, ref m)) if s == "alice" && t == "#other" && m == "hello"));
    assert_eq!(app.channels.get("#other").unwrap().unread_count, 1);
    feed(&mut app, ":alice!u@h PRIVMSG #shown :hi");
    assert_eq!(app.channels.get("#shown").unwrap().unread_count, 0);
    let last = app.channels.get("#shown").unwrap().messages.last().unwrap().clone();
    assert_eq!(last.sender, "alice");
    assert_eq!(last.content, "hi");
    assert_eq!(last.kind, MessageKind::Normal);
}

#[test]
fn ctcp_action_shows_as_action() {
    let mut app = app();
    feed(&mut app, ":me!u@h JOIN #rust");
    feed(&mut app, ":alice!u@h PRIVMSG #rust :\x01ACTION waves\x01");
    let last = app.channels.get("#rust").unwrap().messages.last().unwrap().clone();
    assert_eq!(last.kind, MessageKind::Action);
    assert_eq!(last.content, "waves");
}

#[test]
fn private_message_goes_to_server_window() {
    let mut app = app();
    let eff = feed(&mut app, ":alice!u@h PRIVMSG me :psst");
    assert!(matches!(eff, Some(AppEffect::Dispatch(..))));
    assert_eq!(last_server_line(&app), ("<alice> psst".to_string(), MessageKind::Normal));
}

#[test]
fn own_part_closes_channel_and_shows_another() {
    let mut app = app();
    feed(&mut app, ":me!u@h JOIN #a");
    feed(&mut app, ":me!u@h JOIN #b");
    assert_eq!(app.active_channel.as_deref(), Some("#b"));
    feed(&mut app, ":me!u@h PART #b :bye");
    assert!(!app.channels.contains_key("#b"));
    assert_eq!(app.active_channel.as_deref(), Some("#a"));
    feed(&mut app, ":me!u@h PART #a");
    assert!(app.active_channel.is_none());
    assert_eq!(app.channels.len(), 0);
}

#[test]
fn other_part_leaves_a_line() {
    let mut app = app();
    feed(&mut app, ":me!u@h JOIN #a");
    feed(&mut app, ":bob!u@h JOIN #a");
    feed(&mut app, ":bob!u@h PART #a :later");
    let ch = app.channels.get("#a").unwrap();
    assert!(!ch.users.contains_key("bob"));
    let last = ch.messages.last().unwrap();
    assert_eq!(last.kind, MessageKind::Part);
    assert_eq!(last.content, "#a (later)");
}

#[test]
fn being_kicked_closes_channel() {
    let mut app = app();
    feed(&mut app, ":me!u@h JOIN #a");
    feed(&mut app, ":op!u@h KICK #a me :out");
    assert!(!app.channels.contains_key("#a"));
    assert!(app.active_channel.is_none());
}

#[test]
fn kick_of_other_leaves_a_line() {
    let mut app = app();
    feed(&mut app, ":me!u@h JOIN #a");
    feed(&mut app, ":bob!u@h JOIN #a");
    feed(&mut app, ":op!u@h KICK #a bob :rude");
    let ch = app.channels.get("#a").unwrap();
    assert!(!ch.users.contains_key("bob"));
    let last = ch.messages.last().unwrap();
    assert_eq!(last.kind, MessageKind::Kick);
    assert_eq!(last.sender, "bob");
    assert_eq!(last.content, "by op (rude)");
}

#[test]
fn quit_leaves_every_channel() {
    let mut app = app();
    feed(&mut app, ":me!u@h JOIN #a");
    feed(&mut app, ":me!u@h JOIN #b");
    feed(&mut app, ":bob!u@h JOIN #a");
    feed(&mut app, ":bob!u@h QUIT :gone");
    let a = app.channels.get("#a").unwrap();
    assert!(!a.users.contains_key("bob"));
    let last = a.messages.last().unwrap();
    assert_eq!(last.kind, MessageKind::Quit);
    assert_eq!(last.content, "gone");
    let b = app.channels.get("#b").unwrap();
    assert_eq!(b.messages.last().unwrap().kind, MessageKind::Join);
}

#[test]
fn nick_change_renames_everywhere() {
    let mut app = app();
    feed(&mut app, ":me!u@h JOIN #a");
    feed(&mut app, ":me!u@h NICK :myself");
    assert_eq!(app.nick, "myself");
    let a = app.channels.get("#a").unwrap();
    assert!(a.users.contains_key("myself"));
    assert!(!a.users.contains_key("me"));
    let last = a.messages.last().unwrap();
    assert_eq!(last.kind, MessageKind::Nick);
    assert_eq!(last.content, "myself");
}

#[test]
fn mode_lines_and_user_modes() {
    let mut app = app();
    feed(&mut app, ":me!u@h JOIN #a");
    feed(&mut app, ":op!u@h MODE #a +o bob");
    let last = app.channels.get("#a").unwrap().messages.last().unwrap().clone();
    assert_eq!(last.kind, MessageKind::Mode);
    assert_eq!(last.content, "+o bob");
    feed(&mut app, ":me MODE me :+i");
    assert_eq!(app.user_modes, "+i");
}

#[test]
fn topic_change_is_kept() {
    let mut app = app();
    feed(&mut app, ":me!u@h JOIN #a");
    feed(&mut app, ":op!u@h TOPIC #a :new topic");
    let ch = app.channels.get("#a").unwrap();
    assert_eq!(ch.topic.as_deref(), Some("new topic"));
    assert_eq!(ch.messages.last().unwrap().kind, MessageKind::Topic);
}

#[test]
fn notice_goes_to_server_window() {
    let mut app = app();
    feed(&mut app, ":irc.example.net NOTICE me :hello there");
    assert_eq!(last_server_line(&app), ("-*- hello there".to_string(), MessageKind::Notice));
    feed(&mut app, ":nickserv!s@h NOTICE me :identify");
    assert_eq!(last_server_line(&app), ("-nickserv- identify".to_string(), MessageKind::Notice));
}

#[test]
fn names_reply_lists_users_with_prefixes() {
    let mut app = app();
    feed(&mut app, ":server 353 me = #a :@alice +bob carol");
    let ch = app.channels.get("#a").unwrap();
    assert_eq!(ch.users.get("alice").unwrap().prefix, Some('@'));
    assert_eq!(ch.users.get("bob").unwrap().prefix, Some('+'));
    assert_eq!(ch.users.get("carol").unwrap().prefix, None);
    assert!(app.active_channel.is_none());
}

#[test]
fn topic_reply_sets_topic() {
    let mut app = app();
    feed(&mut app, ":server 332 me #a :the topic");
    assert_eq!(app.channels.get("#a").unwrap().topic.as_deref(), Some("the topic"));
}

#[test]
fn other_messages_show_their_text() {
    let mut app = app();
    feed(&mut app, ":server 001 me :Welcome to IRC");
    assert_eq!(last_server_line(&app), ("Welcome to IRC".to_string(), MessageKind::System));
}

#[test]
fn connection_events_are_reported() {
    let mut app = app();
    app.handle_irc_event_at(IrcEvent::Connected, 0);
    assert_eq!(last_server_line(&app), ("Connected to server".to_string(), MessageKind::System));
    app.handle_irc_event_at(IrcEvent::Disconnected("Client quit".to_string()), 0);
    assert_eq!(last_server_line(&app), ("Disconnected: Client quit".to_string(), MessageKind::Error));
    app.handle_irc_event_at(IrcEvent::Error("boom".to_string()), 0);
    assert_eq!(last_server_line(&app), ("Error: boom".to_string(), MessageKind::Error));
    app.handle_irc_event_at(IrcEvent::LagUpdate(42), 0);
    assert_eq!(app.lag_ms, Some(42));
    app.handle_irc_event_at(IrcEvent::Message(msg(":me!u@h JOIN #a")), 0);
    assert!(app.channels.contains_key("#a"));
}

#[test]
fn typed_line_goes_to_channel_shown() {
    let mut app = app();
    feed(&mut app, ":me!u@h JOIN #a");
    app.scroll_offset = 10;
    let eff = app.handle_input_action_at(InputAction::SendMessage("hi all".to_string()), 7);
    assert!(matches!(eff, Some(AppEffect::Send(ClientCommand::Privmsg(ref t, ref m))) if t == "#a" && m == "hi all"));
    let last = app.channels.get("#a").unwrap().messages.last().unwrap().clone();
    assert_eq!(last.sender, "me");
    assert_eq!(last.content, "hi all");
    assert_eq!(last.timestamp, 7);
    assert_eq!(app.scroll_offset, 0);
}

#[test]
fn typed_line_without_channel_sends_nothing() {
    let mut app = app();
    let eff = app.handle_input_action_at(InputAction::SendMessage("hello".to_string()), 0);
    assert!(eff.is_none());
}

#[test]
fn commands_ask_the_connection() {
    let mut app = app();
    assert!(matches!(command(&mut app, "JOIN", &["#rust"]), Some(AppEffect::Send(ClientCommand::Join(ref c))) if c == "#rust"));
    assert!(matches!(command(&mut app, "J", &["#x"]), Some(AppEffect::Send(ClientCommand::Join(ref c))) if c == "#x"));
    assert!(command(&mut app, "JOIN", &[]).is_none());
    assert!(matches!(command(&mut app, "MSG", &["bob", "hello", "there"]), Some(AppEffect::Send(ClientCommand::Privmsg(ref t, ref m))) if t == "bob" && m == "hello there"));
    assert!(command(&mut app, "MSG", &["bob"]).is_none());
    assert!(matches!(command(&mut app, "NICK", &["newme"]), Some(AppEffect::Send(ClientCommand::Nick(ref n))) if n == "newme"));
    assert!(matches!(command(&mut app, "MODE", &["#a", "+o", "bob"]), Some(AppEffect::Send(ClientCommand::Mode(ref t, ref m))) if t == "#a" && m == "+o bob"));
    assert!(matches!(command(&mut app, "WHOIS", &["bob"]), Some(AppEffect::Send(ClientCommand::SendRaw(ref r))) if r == "WHOIS bob"));
    assert!(matches!(command(&mut app, "MOTD", &[]), Some(AppEffect::Send(ClientCommand::SendRaw(ref r))) if r == "MOTD"));
}

#[test]
fn part_topic_and_kick_use_channel_shown() {
    let mut app = app();
    assert!(command(&mut app, "PART", &[]).is_none());
    assert!(command(&mut app, "TOPIC", &["x"]).is_none());
    feed(&mut app, ":me!u@h JOIN #a");
    assert!(matches!(command(&mut app, "PART", &[]), Some(AppEffect::Send(ClientCommand::Part(ref c, None))) if c == "#a"));
    assert!(matches!(command(&mut app, "LEAVE", &["#b", "see", "you"]), Some(AppEffect::Send(ClientCommand::Part(ref c, Some(ref r)))) if c == "#b" && r == "see you"));
    assert!(matches!(command(&mut app, "TOPIC", &["new", "topic"]), Some(AppEffect::Send(ClientCommand::Topic(ref c, Some(ref t)))) if c == "#a" && t == "new topic"));
    assert!(matches!(command(&mut app, "TOPIC", &[]), Some(AppEffect::Send(ClientCommand::Topic(ref c, None))) if c == "#a"));
    assert!(matches!(command(&mut app, "KICK", &["bob", "bye"]), Some(AppEffect::Send(ClientCommand::Kick(ref c, ref n, Some(ref r)))) if c == "#a" && n == "bob" && r == "bye"));
    assert!(command(&mut app, "KICK", &[]).is_none());
}

#[test]
fn quit_stops_the_interface() {
    let mut app = app();
    let eff = command(&mut app, "QUIT", &["good", "night"]);
    assert!(matches!(eff, Some(AppEffect::Send(ClientCommand::Quit(Some(ref r)))) if r == "good night"));
    assert!(!app.running);
    let mut app2 = App::new(config());
    assert!(matches!(command(&mut app2, "EXIT", &[]), Some(AppEffect::Send(ClientCommand::Quit(None)))));
    assert!(!app2.running);
}

#[test]
fn away_marks_us_away_with_a_reason() {
    let mut app = app();
    assert!(matches!(command(&mut app, "AWAY", &["lunch"]), Some(AppEffect::Send(ClientCommand::Away(Some(ref r)))) if r == "lunch"));
    assert!(app.is_away);
    assert!(matches!(command(&mut app, "AWAY", &[]), Some(AppEffect::Send(ClientCommand::Away(None)))));
    assert!(!app.is_away);
}

#[test]
fn plugin_commands() {
    let mut app = app();
    assert!(matches!(command(&mut app, "LOADDLL", &["/tmp/p.so"]), Some(AppEffect::LoadPlugin(ref p)) if p == "/tmp/p.so"));
    assert!(command(&mut app, "LOADDLL", &[]).is_none());
    assert_eq!(last_server_line(&app), ("Usage: /loaddll <path>".to_string(), MessageKind::Error));
    assert!(matches!(command(&mut app, "UNLOADDLL", &["hello"]), Some(AppEffect::UnloadPlugin(ref n)) if n == "hello"));
    assert!(command(&mut app, "UNLOADDLL", &[]).is_none());
    assert_eq!(last_server_line(&app), ("Usage: /unloaddll <name>".to_string(), MessageKind::Error));
    assert!(matches!(command(&mut app, "LISTDLL", &[]), Some(AppEffect::ListPlugins)));
}

#[test]
fn plugin_reports() {
    let mut app = app();
    app.plugin_loaded(Ok("hello".to_string()));
    assert_eq!(last_server_line(&app), ("Plugin 'hello' loaded successfully".to_string(), MessageKind::System));
    app.plugin_loaded(Err("no such file".to_string()));
    assert_eq!(last_server_line(&app), ("Failed to load plugin: no such file".to_string(), MessageKind::Error));
    app.plugin_unloaded("hello", Ok(()));
    assert_eq!(last_server_line(&app), ("Plugin 'hello' unloaded successfully".to_string(), MessageKind::System));
    app.plugin_unloaded("x", Err("not loaded".to_string()));
    assert_eq!(last_server_line(&app), ("Failed to unload plugin: not loaded".to_string(), MessageKind::Error));
    app.plugins_listed(&Vec::new());
    assert_eq!(last_server_line(&app), ("No plugins loaded".to_string(), MessageKind::System));
    let before = app.server_messages.len();
    let list = vec![
        ("hello".to_string(), "1.0".to_string(), "Says hi".to_string(), "/p/hello.so".to_string()),
        ("greet".to_string(), "0.2".to_string(), "Greets".to_string(), "/p/greet.so".to_string()),
    ];
    app.plugins_listed(&list);
    assert_eq!(app.server_messages.len(), before + 3);
    assert_eq!(app.server_messages[before].content, "Loaded plugins (2):");
    assert_eq!(app.server_messages[before + 1].content, "  hello v1.0 - Says hi (/p/hello.so)");
    assert_eq!(app.server_messages[before + 2].content, "  greet v0.2 - Greets (/p/greet.so)");
}

#[test]
fn scrolling_moves_by_five_and_saturates() {
    let mut app = app();
    app.handle_input_action_at(InputAction::ScrollUp, 0);
    assert_eq!(app.scroll_offset, 5);
    app.handle_input_action_at(InputAction::ScrollDown, 0);
    app.handle_input_action_at(InputAction::ScrollDown, 0);
    assert_eq!(app.scroll_offset, 0);
    app.scroll_offset = usize::MAX - 2;
    app.handle_input_action_at(InputAction::ScrollUp, 0);
    assert_eq!(app.scroll_offset, usize::MAX);
}

#[test]
fn channel_list_is_by_lower_case_name() {
    let mut app = app();
    feed(&mut app, ":me!u@h JOIN #zeta");
    feed(&mut app, ":me!u@h JOIN #Alpha");
    feed(&mut app, ":me!u@h JOIN #beta");
    feed(&mut app, ":x!u@h PRIVMSG #zeta :hi");
    let list = app.channel_list();
    assert_eq!(
        list,
        vec![("#Alpha".to_string(), 0), ("#beta".to_string(), 0), ("#zeta".to_string(), 1)]
    );
}

#[test]
fn switching_channels_wraps_and_clears_unread() {
    let mut app = app();
    feed(&mut app, ":me!u@h JOIN #c");
    feed(&mut app, ":me!u@h JOIN #a");
    feed(&mut app, ":me!u@h JOIN #b");
    feed(&mut app, ":x!u@h PRIVMSG #c :hey");
    assert_eq!(app.active_channel.as_deref(), Some("#b"));
    app.scroll_offset = 3;
    app.handle_input_action_at(InputAction::NextChannel, 0);
    assert_eq!(app.active_channel.as_deref(), Some("#c"));
    assert_eq!(app.channels.get("#c").unwrap().unread_count, 0);
    assert_eq!(app.scroll_offset, 0);
    app.handle_input_action_at(InputAction::NextChannel, 0);
    assert_eq!(app.active_channel.as_deref(), Some("#a"));
    app.handle_input_action_at(InputAction::PreviousChannel, 0);
    assert_eq!(app.active_channel.as_deref(), Some("#c"));
}

#[test]
fn switching_there_and_back_returns() {
    let mut app = app();
    feed(&mut app, ":me!u@h JOIN #one");
    feed(&mut app, ":me!u@h JOIN #two");
    feed(&mut app, ":me!u@h JOIN #three");
    let shown = app.active_channel.clone();
    app.handle_input_action_at(InputAction::NextChannel, 0);
    assert_ne!(app.active_channel, shown);
    app.handle_input_action_at(InputAction::PreviousChannel, 0);
    assert_eq!(app.active_channel, shown);
}

#[test]
fn switching_with_no_channels_changes_nothing() {
    let mut app = app();
    app.scroll_offset = 4;
    app.handle_input_action_at(InputAction::NextChannel, 0);
    assert!(app.active_channel.is_none());
    assert_eq!(app.scroll_offset, 4);
}

#[test]
fn tab_complete_offers_matching_nicks() {
    let mut app = app();
    feed(&mut app, ":server 353 me = #a :@Alice +albert bob");
    feed(&mut app, ":me!u@h JOIN #a");
    for c in "hi al".chars() {
        app.input.insert_char(c);
    }
    app.handle_input_action_at(InputAction::TabComplete, 0);
    assert_eq!(app.input.tab_completions, vec!["Alice".to_string(), "albert".to_string()]);
    assert!(app.input.tab_index.is_none());
    app.input.next_completion();
    assert_eq!(app.input.buffer, "hi Alice");
}

#[test]
fn active_messages_and_users() {
    let mut app = app();
    feed(&mut app, ":server 001 me :Welcome");
    assert_eq!(app.active_messages().len(), 1);
    assert!(app.active_users().is_empty());
    feed(&mut app, ":server 353 me = #a :carol +bob @alice");
    feed(&mut app, ":me!u@h JOIN #a");
    let users: Vec<String> = app.active_users().iter().map(|u| u.nick.clone()).collect();
    assert_eq!(users, vec!["alice", "bob", "carol", "me"]);
    assert_eq!(app.active_messages().len(), 1);
    assert_eq!(app.active_messages()[0].kind, MessageKind::Join);
}

#[test]
fn auto_join_channels_are_opened() {
    let mut c = config();
    c.auto_join = vec!["#rust".to_string(), "#bitchx".to_string(), "#rust".to_string()];
    let mut app = App::new(c);
    app.open_auto_join_channels();
    assert_eq!(app.channels.len(), 2);
    assert!(app.channels.contains_key("#rust"));
    assert!(app.channels.contains_key("#bitchx"));
    assert!(app.active_channel.is_none());
}

#[test]
fn windows_keep_at_most_the_scrollback() {
    let mut c = config();
    c.ui.scrollback_lines = 3;
    let mut app = App::new(c);
    feed(&mut app, ":me!u@h JOIN #a");
    for i in 0..10 {
        feed(&mut app, &format!(":x!u@h PRIVMSG #a :line {i}"));
        feed(&mut app, &format!(":server 999 me :notice {i}"));
    }
    let ch = app.channels.get("#a").unwrap();
    assert_eq!(ch.messages.len(), 3);
    assert_eq!(ch.messages[2].content, "line 9");
    assert_eq!(ch.messages[0].content, "line 7");
    assert_eq!(app.server_messages.len(), 3);
    assert_eq!(app.server_messages[2].content, "notice 9");
}

#[test]
fn clock_stamped_steps_stamp_lines_now() {
    let mut app = app();
    app.handle_irc_event(IrcEvent::Connected);
    let stamp = app.server_messages.last().unwrap().timestamp;
    assert!(stamp > 1_600_000_000_000);
    app.handle_irc_event(IrcEvent::Message(msg(":me!u@h JOIN #a")));
    let eff = app.handle_input_action(InputAction::SendMessage("hi".to_string()));
    assert!(matches!(eff, Some(AppEffect::Send(ClientCommand::Privmsg(ref t, _))) if t == "#a"));
    let last = app.channels.get("#a").unwrap().messages.last().unwrap().clone();
    assert!(last.timestamp >= stamp);
}
