use bitchy::irc::channel::{ChannelUser, ChatMessage, MessageKind};
use bitchy::ui::theme::{NickColor, StyleColor, Theme};
use bitchy::ui::widgets::{
    clock_text, input_prompt, nick_list_title, ChatWidget, InputBarWidget, NickListWidget, NickStyle,
    StatusBarWidget, TabStyle,
};

fn chat(kind: MessageKind, sender: &str, content: &str) -> ChatMessage {
    ChatMessage {
        timestamp: 0,
        sender: sender.to_string(),
        content: content.to_string(),
        kind,
    }
}

#[test]
fn clock_stamps_are_utc_hours_and_minutes() {
    assert_eq!(clock_text(0), "[00:00] ");
    assert_eq!(clock_text(((13 * 60 + 7) * 60 + 59) * 1000 + 999), "[13:07] ");
    assert_eq!(clock_text(86_400_000 + 5 * 60_000), "[00:05] ");
    assert_eq!(clock_text(-1), "[23:59] ");
    assert_eq!(clock_text(-60_001), "[23:58] ");
    assert_eq!(clock_text(1_700_000_000_000), "[22:13] ");
}

#[test]
fn message_lines_by_kind() {
    let msgs: Vec<ChatMessage> = Vec::new();
    let w = ChatWidget::new(&msgs).show_timestamps(false);
    let cases = [
        (MessageKind::Normal, Some("<bob>"), " hi"),
        (MessageKind::Action, None, "* bob hi"),
        (MessageKind::Notice, None, "-bob- hi"),
        (MessageKind::Join, None, "--> bob has joined hi"),
        (MessageKind::Part, None, "<-- bob has left hi"),
        (MessageKind::Quit, None, "<-- bob has quit (hi)"),
        (MessageKind::Kick, None, "<<< bob was kicked: hi"),
        (MessageKind::Mode, None, "*** bob sets mode hi"),
        (MessageKind::Topic, None, "*** bob changed the topic to: hi"),
        (MessageKind::Nick, None, "*** bob is now known as hi"),
        (MessageKind::System, None, "*** hi"),
        (MessageKind::Error, None, "!!! hi"),
    ];
    for (kind, nick, text) in cases {
        let line = w.format_message(&chat(kind, "bob", "hi"));
        assert_eq!(line.nick.as_deref(), nick);
        assert_eq!(line.text, text);
        assert!(line.timestamp.is_none());
        assert_eq!(line.kind, kind);
    }
}

#[test]
fn message_lines_carry_time_stamps_by_default() {
    let msgs: Vec<ChatMessage> = Vec::new();
    let w = ChatWidget::new(&msgs);
    let mut m = chat(MessageKind::System, "", "up");
    m.timestamp = 60_000 * 61;
    let line = w.format_message(&m);
    assert_eq!(line.timestamp.as_deref(), Some("[01:01] "));
}

#[test]
fn visible_window_follows_scroll() {
    let msgs: Vec<ChatMessage> = (0..10).map(|i| chat(MessageKind::System, "", &i.to_string())).collect();
    let w = ChatWidget::new(&msgs);
    assert_eq!(w.visible_range(4), (6, 10));
    let w = ChatWidget::new(&msgs).scroll_offset(3);
    assert_eq!(w.visible_range(4), (3, 7));
    let w = ChatWidget::new(&msgs).scroll_offset(50);
    assert_eq!(w.visible_range(4), (0, 0));
    let w = ChatWidget::new(&msgs).scroll_offset(8);
    assert_eq!(w.visible_range(4), (0, 2));
    let w = ChatWidget::new(&msgs).scroll_offset(3).show_timestamps(false);
    let lines = w.visible_lines(4);
    let texts: Vec<String> = lines.iter().map(|l| l.text.clone()).collect();
    assert_eq!(texts, vec!["*** 3", "*** 4", "*** 5", "*** 6"]);
}

#[test]
fn status_line_pieces() {
    let chans = vec![("#a".to_string(), 0usize), ("#b".to_string(), 3usize)];
    let bar = StatusBarWidget {
        nick: "me",
        channel: Some("#a"),
        user_count: 12,
        lag_ms: Some(250),
        is_away: true,
        server: "irc.libera.chat",
        modes: "i",
        channels: &chans,
    };
    assert_eq!(
        bar.status_text("12:34"),
        "[12:34] [me(+i)] [#a(12)] [Lag: 250ms] [irc.libera.chat] [Away]"
    );
    let bare = StatusBarWidget {
        nick: "me",
        channel: None,
        user_count: 0,
        lag_ms: None,
        is_away: false,
        server: "localhost",
        modes: "",
        channels: &chans,
    };
    assert_eq!(bare.status_text("00:00"), "[00:00] [me] [localhost]");
}

#[test]
fn channel_tabs_show_unread_and_shown() {
    let chans = vec![("#a".to_string(), 0usize), ("#b".to_string(), 3usize), ("#c".to_string(), 0usize)];
    let bar = StatusBarWidget {
        nick: "me",
        channel: Some("#c"),
        user_count: 0,
        lag_ms: None,
        is_away: false,
        server: "s",
        modes: "",
        channels: &chans,
    };
    assert_eq!(
        bar.tabs(),
        vec![
            ("#a".to_string(), TabStyle::Inactive),
            ("#b(3)".to_string(), TabStyle::Unread),
            ("#c".to_string(), TabStyle::Active),
        ]
    );
}

#[test]
fn nick_list_entries() {
    let op = ChannelUser { nick: "alice".to_string(), prefix: Some('@') };
    let half = ChannelUser { nick: "hal".to_string(), prefix: Some('%') };
    let voice = ChannelUser { nick: "bob".to_string(), prefix: Some('+') };
    let plain = ChannelUser { nick: "carol".to_string(), prefix: None };
    assert_eq!(NickListWidget::format_user(&op), "@alice");
    assert_eq!(NickListWidget::format_user(&plain), " carol");
    assert_eq!(NickListWidget::user_style(&op), NickStyle::Op);
    assert_eq!(NickListWidget::user_style(&half), NickStyle::Op);
    assert_eq!(NickListWidget::user_style(&voice), NickStyle::Voice);
    assert_eq!(NickListWidget::user_style(&plain), NickStyle::Normal);
    let users = vec![&op, &voice, &plain];
    let list = NickListWidget::new(&users, " #a (3) ");
    assert_eq!(
        list.entries(2),
        vec![("@alice".to_string(), NickStyle::Op), ("+bob".to_string(), NickStyle::Voice)]
    );
    assert_eq!(list.entries(10).len(), 3);
}

#[test]
fn titles_and_prompts() {
    assert_eq!(nick_list_title(Some("#rust"), 42), " #rust (42) ");
    assert_eq!(nick_list_title(None, 0), " Users ");
    assert_eq!(input_prompt(Some("#rust")), "[#rust] ");
    assert_eq!(input_prompt(None), "> ");
    let bar = InputBarWidget::new("hello", 5);
    assert_eq!(bar.display(), "> hello");
    let bar = InputBarWidget::new("hello", 5).prompt("[#a] ");
    assert_eq!(bar.display(), "[#a] hello");
    assert_eq!(bar.cursor_pos, 5);
}

#[test]
fn theme_styles() {
    let err = Theme::message_style(&MessageKind::Error);
    assert_eq!(err.fg, Some(StyleColor::Named(NickColor::Red)));
    assert!(err.bold);
    let quit = Theme::message_style(&MessageKind::Quit);
    assert!(quit.dim);
    assert!(quit.fg.is_none());
    assert_eq!(Theme::message_style(&MessageKind::Normal), Theme::input_bar());
    assert_eq!(Theme::message_style(&MessageKind::Action).fg, Some(StyleColor::Named(NickColor::Magenta)));
    let bar = Theme::status_bar();
    assert_eq!(bar.fg, Some(StyleColor::Reset));
    assert_eq!(bar.bg, Some(StyleColor::Named(NickColor::Blue)));
    assert!(Theme::channel_active().underlined);
    assert!(Theme::highlight().reversed);
    assert!(Theme::topic().italic);
}

#[test]
fn status_line_carries_the_time_of_day() {
    let chans: Vec<(String, usize)> = Vec::new();
    let bar = StatusBarWidget {
        nick: "me",
        channel: None,
        user_count: 0,
        lag_ms: None,
        is_away: false,
        server: "localhost",
        modes: "",
        channels: &chans,
    };
    let line = bar.status_line();
    assert_eq!(line.len(), "[00:00] [me] [localhost]".len());
    assert!(line.starts_with('['));
    assert_eq!(&line[3..4], ":");
    assert!(line.ends_with("] [me] [localhost]"));
}
