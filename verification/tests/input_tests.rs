use bitchy::ui::input::{
    InputAction, InputState, KeyCode, KeyPress, MODIFIER_CONTROL, MODIFIER_NONE,
};
fn key(code: KeyCode) -> KeyPress {
    KeyPress {
        code,
        modifiers: MODIFIER_NONE,
    }
}

fn ctrl_key(c: char) -> KeyPress {
    KeyPress {
        code: KeyCode::Char(c),
        modifiers: MODIFIER_CONTROL,
    }
}

#[test]
fn insert_characters() {
    let mut input = InputState::new();
    input.insert_char('h');
    input.insert_char('i');
    assert_eq!(input.buffer, "hi");
    assert_eq!(input.cursor, 2);
}

#[test]
fn insert_at_cursor_position() {
    let mut input = InputState::new();
    input.insert_char('a');
    input.insert_char('c');
    input.move_left();
    input.insert_char('b');
    assert_eq!(input.buffer, "abc");
    assert_eq!(input.cursor, 2);
}

#[test]
fn delete_char_backspace() {
    let mut input = InputState::new();
    input.insert_char('a');
    input.insert_char('b');
    input.insert_char('c');
    input.delete_char();
    assert_eq!(input.buffer, "ab");
    assert_eq!(input.cursor, 2);
}

#[test]
fn delete_char_at_start() {
    let mut input = InputState::new();
    input.insert_char('a');
    input.move_home();
    input.delete_char();
    assert_eq!(input.buffer, "a");
    assert_eq!(input.cursor, 0);
}

#[test]
fn delete_forward() {
    let mut input = InputState::new();
    input.insert_char('a');
    input.insert_char('b');
    input.move_home();
    input.delete_forward();
    assert_eq!(input.buffer, "b");
    assert_eq!(input.cursor, 0);
}

#[test]
fn delete_forward_at_end() {
    let mut input = InputState::new();
    input.insert_char('a');
    input.delete_forward();
    assert_eq!(input.buffer, "a");
}

#[test]
fn cursor_movement() {
    let mut input = InputState::new();
    input.insert_char('a');
    input.insert_char('b');
    input.insert_char('c');
    assert_eq!(input.cursor, 3);
    input.move_left();
    assert_eq!(input.cursor, 2);
    input.move_left();
    assert_eq!(input.cursor, 1);
    input.move_right();
    assert_eq!(input.cursor, 2);
}

#[test]
fn cursor_bounds() {
    let mut input = InputState::new();
    input.insert_char('a');
    input.move_left();
    input.move_left(); // should not go below 0
    assert_eq!(input.cursor, 0);
    input.move_end();
    input.move_right(); // should not go past len
    assert_eq!(input.cursor, 1);
}

#[test]
fn home_and_end() {
    let mut input = InputState::new();
    input.insert_char('a');
    input.insert_char('b');
    input.insert_char('c');
    input.move_home();
    assert_eq!(input.cursor, 0);
    input.move_end();
    assert_eq!(input.cursor, 3);
}

#[test]
fn delete_word() {
    let mut input = InputState::new();
    for c in "hello world".chars() {
        input.insert_char(c);
    }
    input.delete_word();
    assert_eq!(input.buffer, "hello ");
    input.delete_word();
    assert_eq!(input.buffer, "");
}

#[test]
fn delete_word_at_start() {
    let mut input = InputState::new();
    input.insert_char('a');
    input.move_home();
    input.delete_word();
    assert_eq!(input.buffer, "a");
}

#[test]
fn delete_to_end() {
    let mut input = InputState::new();
    for c in "hello world".chars() {
        input.insert_char(c);
    }
    input.cursor = 5;
    input.delete_to_end();
    assert_eq!(input.buffer, "hello");
}

#[test]
fn delete_to_start() {
    let mut input = InputState::new();
    for c in "hello world".chars() {
        input.insert_char(c);
    }
    input.cursor = 6;
    input.delete_to_start();
    assert_eq!(input.buffer, "world");
    assert_eq!(input.cursor, 0);
}

#[test]
fn submit_message() {
    let mut input = InputState::new();
    for c in "hello".chars() {
        input.insert_char(c);
    }
    let action = input.submit();
    assert_eq!(action, InputAction::SendMessage("hello".to_string()));
    assert!(input.buffer.is_empty());
    assert_eq!(input.cursor, 0);
}

#[test]
fn submit_empty() {
    let mut input = InputState::new();
    let action = input.submit();
    assert_eq!(action, InputAction::Nothing);
}

#[test]
fn submit_command() {
    let mut input = InputState::new();
    for c in "/join #test".chars() {
        input.insert_char(c);
    }
    let action = input.submit();
    assert_eq!(
        action,
        InputAction::Command("JOIN".to_string(), vec!["#test".to_string()])
    );
}

#[test]
fn submit_command_no_args() {
    let mut input = InputState::new();
    for c in "/quit".chars() {
        input.insert_char(c);
    }
    let action = input.submit();
    assert_eq!(action, InputAction::Command("QUIT".to_string(), vec![]));
}

#[test]
fn submit_adds_to_history() {
    let mut input = InputState::new();
    for c in "first".chars() {
        input.insert_char(c);
    }
    input.submit();
    for c in "second".chars() {
        input.insert_char(c);
    }
    input.submit();
    assert_eq!(input.history.len(), 2);
    assert_eq!(input.history[0], "first");
    assert_eq!(input.history[1], "second");
}

#[test]
fn history_navigation() {
    let mut input = InputState::new();
    for c in "first".chars() {
        input.insert_char(c);
    }
    input.submit();
    for c in "second".chars() {
        input.insert_char(c);
    }
    input.submit();

    // Type something new
    for c in "current".chars() {
        input.insert_char(c);
    }

    input.history_up();
    assert_eq!(input.buffer, "second");
    input.history_up();
    assert_eq!(input.buffer, "first");
    input.history_up(); // at top, should stay
    assert_eq!(input.buffer, "first");
    input.history_down();
    assert_eq!(input.buffer, "second");
    input.history_down();
    assert_eq!(input.buffer, "current"); // back to saved input
}

#[test]
fn history_empty() {
    let mut input = InputState::new();
    input.history_up();
    assert!(input.buffer.is_empty());
    input.history_down();
    assert!(input.buffer.is_empty());
}

#[test]
fn handle_key_chars() {
    let mut input = InputState::new();
    input.handle_key(key(KeyCode::Char('a')));
    input.handle_key(key(KeyCode::Char('b')));
    assert_eq!(input.buffer, "ab");
}

#[test]
fn handle_key_enter() {
    let mut input = InputState::new();
    input.handle_key(key(KeyCode::Char('h')));
    input.handle_key(key(KeyCode::Char('i')));
    let action = input.handle_key(key(KeyCode::Enter));
    assert_eq!(action, InputAction::SendMessage("hi".to_string()));
}

#[test]
fn handle_key_backspace() {
    let mut input = InputState::new();
    input.handle_key(key(KeyCode::Char('a')));
    input.handle_key(key(KeyCode::Char('b')));
    input.handle_key(key(KeyCode::Backspace));
    assert_eq!(input.buffer, "a");
}

#[test]
fn handle_key_ctrl_a_e() {
    let mut input = InputState::new();
    input.handle_key(key(KeyCode::Char('a')));
    input.handle_key(key(KeyCode::Char('b')));
    input.handle_key(ctrl_key('a'));
    assert_eq!(input.cursor, 0);
    input.handle_key(ctrl_key('e'));
    assert_eq!(input.cursor, 2);
}

#[test]
fn handle_key_ctrl_w() {
    let mut input = InputState::new();
    for c in "hello world".chars() {
        input.handle_key(key(KeyCode::Char(c)));
    }
    input.handle_key(ctrl_key('w'));
    assert_eq!(input.buffer, "hello ");
}

#[test]
fn handle_key_ctrl_k() {
    let mut input = InputState::new();
    for c in "hello".chars() {
        input.handle_key(key(KeyCode::Char(c)));
    }
    input.handle_key(ctrl_key('a'));
    input.handle_key(ctrl_key('k'));
    assert_eq!(input.buffer, "");
}

#[test]
fn handle_key_ctrl_u() {
    let mut input = InputState::new();
    for c in "hello".chars() {
        input.handle_key(key(KeyCode::Char(c)));
    }
    input.handle_key(ctrl_key('u'));
    assert_eq!(input.buffer, "");
    assert_eq!(input.cursor, 0);
}

#[test]
fn handle_key_pageup_down() {
    let mut input = InputState::new();
    assert_eq!(
        input.handle_key(key(KeyCode::PageUp)),
        InputAction::ScrollUp
    );
    assert_eq!(
        input.handle_key(key(KeyCode::PageDown)),
        InputAction::ScrollDown
    );
}

#[test]
fn tab_completions() {
    let mut input = InputState::new();
    for c in "he".chars() {
        input.insert_char(c);
    }
    input.set_tab_completions(vec!["hello".to_string(), "help".to_string()]);
    input.next_completion();
    assert_eq!(input.buffer, "hello");
    input.next_completion();
    assert_eq!(input.buffer, "help");
    input.next_completion();
    assert_eq!(input.buffer, "hello"); // wraps
}

#[test]
fn tab_completions_empty() {
    let mut input = InputState::new();
    input.next_completion();
    assert!(input.buffer.is_empty());
}

#[test]
fn unicode_handling() {
    let mut input = InputState::new();
    input.insert_char('é');
    input.insert_char('ñ');
    assert_eq!(input.buffer, "éñ");
    input.delete_char();
    assert_eq!(input.buffer, "é");
}

#[test]
fn history_three_up_three_down_restores_typed_line() {
    let mut input = InputState::new();
    for line in ["one", "two"] {
        for c in line.chars() {
            input.insert_char(c);
        }
        input.submit();
    }
    for c in "draft".chars() {
        input.insert_char(c);
    }
    for _ in 0..3 {
        input.history_up();
    }
    assert_eq!(input.buffer, "one");
    for _ in 0..3 {
        input.history_down();
    }
    assert_eq!(input.buffer, "draft");
    assert_eq!(input.cursor, 5);
    assert_eq!(input.history_index, None);
    assert_eq!(input.history.len(), 2);
}

#[test]
fn backspace_undoes_typed_multibyte_char() {
    let mut input = InputState::new();
    input.insert_char('é');
    input.insert_char('ñ');
    assert_eq!(input.buffer, "éñ");
    input.delete_char();
    assert_eq!(input.buffer, "é");
    assert_eq!(input.cursor, 2);
}
