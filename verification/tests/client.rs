use floundr::screens::{
    screen_at, AppState, ClientRequest, InputEffect, InputType, Key, Mode, ScreenType, SCREENS,
};

#[test]
fn keys_move_between_screens_and_places() {
    let mut app = AppState::new(4);
    assert!(app.running);
    assert_eq!(app.mode, Mode::Normal);
    assert_eq!(screen_at(app.current_screen), ScreenType::Home);
    assert_eq!(app.handle_key(Key::Char('j'), ""), InputEffect::Keep);
    assert_eq!(app.cursor, 0);
    app.handle_key(Key::Char('h'), "");
    assert_eq!(app.current_screen, 0);
    app.handle_key(Key::Char('l'), "");
    assert_eq!(screen_at(app.current_screen), ScreenType::Repos);
    for _ in 0..6 {
        app.handle_key(Key::Down, "");
    }
    assert_eq!(app.cursor, 3);
    app.handle_key(Key::Char('k'), "");
    assert_eq!(app.cursor, 2);
    app.handle_key(Key::Enter, "");
    assert_eq!(app.selected, Some(2));
    app.handle_key(Key::Right, "");
    assert_eq!(screen_at(app.current_screen), ScreenType::Users);
    assert_eq!(app.cursor, 0);
    assert_eq!(app.selected, None);
    app.handle_key(Key::Right, "");
    assert_eq!(app.current_screen, SCREENS - 1);
    for _ in 0..5 {
        app.handle_key(Key::Char('j'), "");
    }
    assert_eq!(app.cursor, 2);
    app.handle_key(Key::Up, "");
    app.handle_key(Key::Up, "");
    app.handle_key(Key::Up, "");
    assert_eq!(app.cursor, 0);
    app.handle_key(Key::Left, "");
    app.handle_key(Key::Left, "");
    assert_eq!(app.current_screen, 0);
    app.handle_key(Key::Other, "");
    app.handle_key(Key::Char('x'), "");
    assert!(app.running);
    app.handle_key(Key::Char('q'), "");
    assert!(!app.running);
}

#[test]
fn deleting_needs_a_choice() {
    let mut app = AppState::new(2);
    app.handle_key(Key::Char('d'), "");
    assert_eq!(app.current_action, None);
    app.handle_key(Key::Enter, "");
    app.handle_key(Key::Char('d'), "");
    assert_eq!(app.current_action, None);
    assert_eq!(app.mode, Mode::Normal);
    app.handle_key(Key::Right, "");
    app.handle_key(Key::Char('d'), "");
    assert_eq!(app.current_action, None);
    app.handle_key(Key::Down, "");
    app.handle_key(Key::Enter, "");
    app.handle_key(Key::Char('d'), "");
    assert_eq!(app.current_action, Some(InputType::DeleteRepo));
    assert_eq!(app.mode, Mode::Insert);
    assert_eq!(app.handle_key(Key::Char('a'), "alph"), InputEffect::Forward);
    assert_eq!(app.handle_key(Key::Enter, "alpha"), InputEffect::Reset);
    assert_eq!(app.buffer, vec!["alpha"]);
    let request = app.handle_input(InputType::DeleteRepo);
    assert!(matches!(request, Some(ClientRequest::DeleteRepository { name }) if name == "alpha"));
    assert_eq!(app.current_action, None);
    assert_eq!(app.buffer.len(), 0);
    assert_eq!(app.handle_key(Key::Esc, "rest"), InputEffect::Keep);
    assert_eq!(app.mode, Mode::Normal);
    assert_eq!(app.selected, None);
    app.handle_key(Key::Right, "");
    app.handle_key(Key::Enter, "");
    app.handle_key(Key::Char('d'), "");
    assert_eq!(app.current_action, Some(InputType::DeleteUser));
}

#[test]
fn entered_lines_become_requests() {
    let mut app = AppState::new(0);
    app.handle_key(Key::Char('i'), "");
    assert_eq!(app.mode, Mode::Insert);
    app.handle_key(Key::Enter, "team/app");
    app.handle_key(Key::Enter, "Y");
    let repo = app.handle_input(InputType::NewRepo);
    assert!(matches!(repo, Some(ClientRequest::CreateRepository { name, public }) if name == "team/app" && public));
    assert_eq!(app.buffer.len(), 0);
    let empty = app.handle_input(InputType::NewRepo);
    assert!(matches!(empty, Some(ClientRequest::CreateRepository { name, public }) if name.is_empty() && !public));
    app.handle_key(Key::Enter, "u@example.com");
    let key = app.handle_input(InputType::CreateApiKey);
    assert!(matches!(key, Some(ClientRequest::CreateApiKey { name }) if name == "u@example.com"));
    let gone = app.handle_input(InputType::DeleteUser);
    assert!(matches!(gone, Some(ClientRequest::DeleteUser { email }) if email.is_empty()));

    app.set_action(InputType::NewUser);
    for line in ["new@example.com", "password1", "password1"] {
        app.handle_key(Key::Enter, line);
    }
    assert!(app.handle_input(InputType::NewUser).is_none());
    assert_eq!(app.buffer.len(), 3);
    app.handle_key(Key::Enter, "y");
    let user = app.handle_input(InputType::NewUser);
    match user {
        Some(ClientRequest::CreateUser(req)) => {
            assert_eq!(req.email, "new@example.com");
            assert_eq!(req.password, "password1");
            assert!(req.is_admin);
        }
        _ => panic!("no request"),
    }
    assert_eq!(app.buffer.len(), 0);
    for line in ["new@example.com", "password1", "password2", "n"] {
        app.handle_key(Key::Enter, line);
    }
    assert!(app.handle_input(InputType::NewUser).is_none());
    assert_eq!(app.buffer.len(), 4);
    app.clear_action();
    app.normal_mode();
    app.reset_cursor();
    app.insert_mode();
    assert_eq!(app.mode, Mode::Insert);
}
