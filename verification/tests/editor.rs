use dcsh::events::handle_key;
use dcsh::events::Key;
use dcsh::events::KeyOutcome;
use dcsh::history::History;
use dcsh::prompt::Prompt;

#[test]
fn insert_and_build() {
    let mut prompt = Prompt::new();
    prompt.add_char('l');
    prompt.add_char('s');
    assert_eq!(prompt.build(), "ls");
    assert_eq!(prompt.cursor(), 2);
}

#[test]
fn edit_roundtrip_restores_contents_and_cursor() {
    let mut prompt = Prompt::new();
    for c in ['h', 'e', 'l', 'l', 'o'] {
        prompt.add_char(c);
    }
    for _ in 0..3 {
        prompt.move_left_one();
    }
    for _ in 0..3 {
        prompt.move_right_one();
    }
    assert_eq!(prompt.build(), "hello");
    assert_eq!(prompt.cursor(), 5);
}

#[test]
fn edit_roundtrip_with_more_moves_than_characters() {
    let mut prompt = Prompt::new();
    prompt.add_char('a');
    prompt.add_char('b');
    for _ in 0..10 {
        prompt.move_left_one();
    }
    for _ in 0..10 {
        prompt.move_right_one();
    }
    assert_eq!(prompt.build(), "ab");
    assert_eq!(prompt.cursor(), 2);
}

#[test]
fn cursor_editing_in_the_middle() {
    let mut prompt = Prompt::new();
    for c in ['a', 'b', 'c'] {
        prompt.add_char(c);
    }
    prompt.move_left_one();
    prompt.add_char('x');
    assert_eq!(prompt.build(), "abxc");
    prompt.delete_one();
    assert_eq!(prompt.build(), "abx");
    prompt.backspace_one();
    assert_eq!(prompt.build(), "ab");
    assert_eq!(prompt.cursor(), 2);
}

#[test]
fn backspace_and_delete_at_the_edges_are_noops() {
    let mut prompt = Prompt::new();
    prompt.backspace_one();
    prompt.delete_one();
    prompt.move_left_one();
    prompt.move_right_one();
    assert_eq!(prompt.build(), "");
    assert_eq!(prompt.cursor(), 0);
}

#[test]
fn from_history_puts_cursor_at_the_end() {
    let prompt = Prompt::from_history("ls -al");
    assert_eq!(prompt.build(), "ls -al");
    assert_eq!(prompt.cursor(), 6);
}

#[test]
fn history_navigation() {
    let mut history = History::new();
    history.push("a".to_string());
    history.push("b".to_string());
    assert_eq!(history.up(), "b");
    assert_eq!(history.up(), "a");
    assert_eq!(history.down(), "b");
    assert_eq!(history.down(), "");
}

#[test]
fn history_up_clamps_at_the_first_line() {
    let mut history = History::new();
    history.push("a".to_string());
    assert_eq!(history.up(), "a");
    assert_eq!(history.up(), "a");
}

#[test]
fn history_down_on_fresh_history_is_empty() {
    let mut history = History::new();
    assert_eq!(history.down(), "");
}

#[test]
fn push_resets_browsing() {
    let mut history = History::new();
    history.push("a".to_string());
    assert_eq!(history.up(), "a");
    history.push("b".to_string());
    assert_eq!(history.up(), "b");
}

#[test]
fn control_d_exits_and_other_control_keys_are_ignored() {
    let mut prompt = Prompt::new();
    let mut history = History::new();
    assert_eq!(
        handle_key(&mut prompt, &mut history, Key::Char('d'), true),
        KeyOutcome::Exit
    );
    assert_eq!(
        handle_key(&mut prompt, &mut history, Key::Char('x'), true),
        KeyOutcome::Ignore
    );
    assert_eq!(prompt.build(), "");
}

#[test]
fn typing_and_committing_a_line() {
    let mut prompt = Prompt::new();
    let mut history = History::new();
    assert_eq!(
        handle_key(&mut prompt, &mut history, Key::Char('l'), false),
        KeyOutcome::Redraw
    );
    assert_eq!(
        handle_key(&mut prompt, &mut history, Key::Char('s'), false),
        KeyOutcome::Redraw
    );
    assert_eq!(
        handle_key(&mut prompt, &mut history, Key::Enter, false),
        KeyOutcome::Submit("ls".to_string())
    );
    assert_eq!(prompt.build(), "");
    assert_eq!(history.len(), 1);
    assert_eq!(
        handle_key(&mut prompt, &mut history, Key::Up, false),
        KeyOutcome::Redraw
    );
    assert_eq!(prompt.build(), "ls");
    assert_eq!(prompt.cursor(), 2);
}
