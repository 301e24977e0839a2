use bitchy::irc::channel::{Channel, ChannelUser, ChatMessage, MessageKind};

fn line(i: usize) -> ChatMessage {
    ChatMessage {
        timestamp: i as i64,
        sender: "x".to_string(),
        content: format!("m{i}"),
        kind: MessageKind::Normal,
    }
}

#[test]
fn new_channel_is_empty() {
    let ch = Channel::new("#rust".to_string());
    assert_eq!(ch.name, "#rust");
    assert!(ch.topic.is_none());
    assert_eq!(ch.users.len(), 0);
    assert!(ch.messages.is_empty());
    assert_eq!(ch.unread_count, 0);
    assert_eq!(ch.max_messages, 0);
}

#[test]
fn messages_keep_the_last_ones() {
    let mut ch = Channel::new("#a".to_string());
    ch.max_messages = 2;
    for i in 0..5 {
        ch.add_message(line(i));
    }
    assert_eq!(ch.messages.len(), 2);
    assert_eq!(ch.messages[0].content, "m3");
    assert_eq!(ch.messages[1].content, "m4");
}

#[test]
fn unlimited_channel_keeps_everything() {
    let mut ch = Channel::new("#a".to_string());
    for i in 0..5 {
        ch.add_message(line(i));
    }
    assert_eq!(ch.messages.len(), 5);
}

#[test]
fn users_sort_by_status_then_name() {
    let mut ch = Channel::new("#a".to_string());
    for (n, p) in [("zed", None), ("Bob", Some('+')), ("amy", None), ("carl", Some('@')), ("al", Some('+'))] {
        ch.users.insert(n.to_string(), ChannelUser { nick: n.to_string(), prefix: p });
    }
    let sorted: Vec<String> = ch.sorted_users().iter().map(|u| u.nick.clone()).collect();
    assert_eq!(sorted, vec!["carl", "al", "Bob", "amy", "zed"]);
}
