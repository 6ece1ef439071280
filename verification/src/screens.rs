//! The screens of the terminal client and what its cursor can reach on each.

use crate::shared::{RegisterUserRequest, Repo};
use crate::text::{chars_of, lower, string_of, string_views, to_lower};
use vstd::prelude::*;

verus! {

/// The screens of the terminal client.
#[derive(Debug, Clone, Copy, PartialEq, Eq, Structural)]
pub enum ScreenType {
    Home,
    Users,
    Repos,
}

/// What the input line of the terminal client is for.
#[derive(Debug, Clone, Copy, PartialEq, Eq, Structural)]
pub enum InputType {
    NewRepo,
    CreateApiKey,
    NewUser,
    DeleteUser,
    DeleteRepo,
}

/// Whether keys move the cursor or are typed into the input line.
#[derive(Debug, Clone, Copy, PartialEq, Eq, Structural)]
pub enum Mode {
    Normal,
    Insert,
}

/// The repositories that the terminal client shows.
pub struct RepositoryList {
    pub repositories: Vec<Repo>,
}

impl ScreenType {
    /// The number of places that the cursor can take on the screen when `repositories`
    /// repositories are shown: none at home, one for each repository, three for the users.
    pub fn get_cursor_len(&self, repositories: usize) -> (out: usize)
        ensures
            out == match *self {
                ScreenType::Home => 0,
                ScreenType::Repos => repositories,
                ScreenType::Users => 3,
            },
    {
        match self {
            ScreenType::Home => 0,
            ScreenType::Repos => repositories,
            ScreenType::Users => 3,
        }
    }
}

/// Where the cursor stands after a step up from `cursor`.
pub fn cursor_up(cursor: usize) -> (out: usize)
    ensures
        out == (if cursor > 0 {
            (cursor - 1) as usize
        } else {
            0
        }),
{
    cursor.saturating_sub(1)
}

/// Where the cursor stands after a step down from `cursor` on a screen with `len` places:
/// one further, but not past the last place; where it stood on a screen without places.
pub fn cursor_down(cursor: usize, len: usize) -> (out: usize)
    ensures
        out == (if len == 0 {
            cursor
        } else if cursor + 1 >= len {
            (len - 1) as usize
        } else {
            (cursor + 1) as usize
        }),
{
    if len == 0 {
        cursor
    } else if cursor >= len - 1 {
        len - 1
    } else {
        cursor + 1
    }
}

/// The screen to the left of screen `current` among `screens` screens.
pub fn screen_left(current: usize, screens: usize) -> (out: usize)
    ensures
        out == (if current == 0 || current - 1 >= screens {
            0
        } else {
            (current - 1) as usize
        }),
{
    let next = current.saturating_sub(1);
    if next >= screens {
        0
    } else {
        next
    }
}

/// The screen to the right of screen `current` among `screens` screens, of which there is
/// at least one.
pub fn screen_right(current: usize, screens: usize) -> (out: usize)
    requires
        screens > 0,
    ensures
        out == (if current + 1 >= screens {
            (screens - 1) as usize
        } else {
            (current + 1) as usize
        }),
{
    if current >= screens - 1 {
        screens - 1
    } else {
        current + 1
    }
}

/// A key that was pressed.
#[derive(Debug, Clone, Copy, PartialEq, Eq, Structural)]
pub enum Key {
    Char(char),
    Left,
    Right,
    Up,
    Down,
    Esc,
    Enter,
    Other,
}

/// What is to be done with the input line after a key.
#[derive(Debug, Clone, Copy, PartialEq, Eq, Structural)]
pub enum InputEffect {
    /// The input line stays as it is.
    Keep,
    /// The input line is emptied.
    Reset,
    /// The key is for the input line to take.
    Forward,
}

/// What the client asks of the registry.
pub enum ClientRequest {
    CreateRepository { name: String, public: bool },
    CreateApiKey { name: String },
    DeleteUser { email: String },
    DeleteRepository { name: String },
    CreateUser(RegisterUserRequest),
}

/// The number of screens: home, repositories, users.
pub const SCREENS: usize = 3;

/// The screen at position `at`: home, repositories, users; users for any later position.
pub fn screen_at(at: usize) -> (out: ScreenType)
    ensures
        out == screen_of(at),
{
    if at == 0 {
        ScreenType::Home
    } else if at == 1 {
        ScreenType::Repos
    } else {
        ScreenType::Users
    }
}

/// The screen at position `at`.
pub open spec fn screen_of(at: usize) -> ScreenType {
    if at == 0 {
        ScreenType::Home
    } else if at == 1 {
        ScreenType::Repos
    } else {
        ScreenType::Users
    }
}

/// What the terminal client remembers between keys.
pub struct AppState {
    pub running: bool,
    pub cursor: usize,
    pub current_screen: usize,
    /// The place that was chosen with Enter.
    pub selected: Option<usize>,
    pub current_action: Option<InputType>,
    pub mode: Mode,
    /// The lines that were entered and not used yet.
    pub buffer: Vec<String>,
    /// The number of repositories that are shown.
    pub repositories: usize,
}

/// The view of `AppState`: the same value with every string as its characters.
pub struct AppModel {
    pub running: bool,
    pub cursor: usize,
    pub current_screen: usize,
    pub selected: Option<usize>,
    pub current_action: Option<InputType>,
    pub mode: Mode,
    pub buffer: Seq<Seq<char>>,
    pub repositories: usize,
}

impl View for AppState {
    type V = AppModel;

    open spec fn view(&self) -> AppModel {
        AppModel {
            running: self.running,
            cursor: self.cursor,
            current_screen: self.current_screen,
            selected: self.selected,
            current_action: self.current_action,
            mode: self.mode,
            buffer: string_views(self.buffer@),
            repositories: self.repositories,
        }
    }
}

impl AppModel {
    /// The state with cursor, choice and action taken back.
    pub open spec fn reset(self) -> AppModel {
        AppModel { current_action: None, selected: None, cursor: 0, ..self }
    }

    /// The number of places of the cursor on the current screen.
    pub open spec fn cursor_len(self) -> usize {
        match screen_of(self.current_screen) {
            ScreenType::Home => 0,
            ScreenType::Repos => self.repositories,
            ScreenType::Users => 3,
        }
    }

    /// The state after one step of the cursor down.
    pub open spec fn down(self) -> AppModel {
        let len = self.cursor_len();
        AppModel {
            cursor: if len == 0 {
                self.cursor
            } else if self.cursor + 1 >= len {
                (len - 1) as usize
            } else {
                (self.cursor + 1) as usize
            },
            ..self
        }
    }

    /// The state after one step of the cursor up.
    pub open spec fn up(self) -> AppModel {
        AppModel {
            cursor: if self.cursor > 0 {
                (self.cursor - 1) as usize
            } else {
                0
            },
            ..self
        }
    }

    /// The state on the screen to the left.
    pub open spec fn left(self) -> AppModel {
        AppModel {
            current_screen: if self.current_screen == 0 || self.current_screen - 1 >= SCREENS {
                0
            } else {
                (self.current_screen - 1) as usize
            },
            ..self.reset()
        }
    }

    /// The state on the screen to the right.
    pub open spec fn right(self) -> AppModel {
        AppModel {
            current_screen: if self.current_screen + 1 >= SCREENS {
                (SCREENS - 1) as usize
            } else {
                (self.current_screen + 1) as usize
            },
            ..self.reset()
        }
    }

    /// The state after the key for deleting: on the screens of users and of repositories,
    /// with a place chosen, the input line is opened for what is to be deleted.
    pub open spec fn delete_pressed(self) -> AppModel {
        if self.selected.is_some() {
            match screen_of(self.current_screen) {
                ScreenType::Users => AppModel {
                    mode: Mode::Insert,
                    current_action: Some(InputType::DeleteUser),
                    ..self
                },
                ScreenType::Repos => AppModel {
                    mode: Mode::Insert,
                    current_action: Some(InputType::DeleteRepo),
                    ..self
                },
                ScreenType::Home => self,
            }
        } else {
            self
        }
    }

    /// The state after `key`, with `input` on the input line. While keys move the cursor:
    /// `q` ends the client, `j` and `k` and the arrows up and down move the cursor, `h` and
    /// `l` and the arrows left and right change the screen, `i` opens the input line, `d`
    /// asks for a deletion, Esc takes everything back, Enter chooses the place of the
    /// cursor. While keys are typed: Esc closes the input line and takes everything back,
    /// Enter keeps the line that was typed.
    pub open spec fn after_key(self, key: Key, input: Seq<char>) -> AppModel {
        match self.mode {
            Mode::Normal => match key {
                Key::Char(c) => if c == 'q' {
                    AppModel { running: false, ..self }
                } else if c == 'j' {
                    self.down()
                } else if c == 'k' {
                    self.up()
                } else if c == 'h' {
                    self.left()
                } else if c == 'l' {
                    self.right()
                } else if c == 'i' {
                    AppModel { mode: Mode::Insert, ..self }
                } else if c == 'd' {
                    self.delete_pressed()
                } else {
                    self
                },
                Key::Left => self.left(),
                Key::Right => self.right(),
                Key::Up => self.up(),
                Key::Down => self.down(),
                Key::Esc => self.reset(),
                Key::Enter => AppModel { selected: Some(self.cursor), ..self },
                Key::Other => self,
            },
            Mode::Insert => match key {
                Key::Esc => AppModel { mode: Mode::Normal, ..self.reset() },
                Key::Enter => AppModel { buffer: self.buffer.push(input), ..self },
                _ => self,
            },
        }
    }

    /// What is to be done with the input line after `key`.
    pub open spec fn input_effect(self, key: Key) -> InputEffect {
        match self.mode {
            Mode::Normal => InputEffect::Keep,
            Mode::Insert => match key {
                Key::Esc => InputEffect::Keep,
                Key::Enter => InputEffect::Reset,
                _ => InputEffect::Forward,
            },
        }
    }
}

/// The last line of `buffer`, or nothing of an empty one.
pub open spec fn last_line(buffer: Seq<Seq<char>>) -> Seq<char> {
    if buffer.len() > 0 {
        buffer.last()
    } else {
        Seq::empty()
    }
}

/// `buffer` without its last line.
pub open spec fn without_last(buffer: Seq<Seq<char>>) -> Seq<Seq<char>> {
    if buffer.len() > 0 {
        buffer.drop_last()
    } else {
        buffer
    }
}

impl AppState {
    /// The state at the start: running, on the home screen, keys move the cursor.
    pub fn new(repositories: usize) -> (out: Self)
        ensures
            out@ == (AppModel {
                running: true,
                cursor: 0,
                current_screen: 0,
                selected: None,
                current_action: None,
                mode: Mode::Normal,
                buffer: Seq::empty(),
                repositories,
            }),
    {
        let out = AppState {
            running: true,
            cursor: 0,
            current_screen: 0,
            selected: None,
            current_action: None,
            mode: Mode::Normal,
            buffer: Vec::new(),
            repositories,
        };
        assert(string_views(out.buffer@) =~= Seq::<Seq<char>>::empty());
        out
    }

    /// Keys move the cursor.
    pub fn normal_mode(&mut self)
        ensures
            final(self)@ == (AppModel { mode: Mode::Normal, ..old(self)@ }),
    {
        self.mode = Mode::Normal;
    }

    /// Keys are typed into the input line.
    pub fn insert_mode(&mut self)
        ensures
            final(self)@ == (AppModel { mode: Mode::Insert, ..old(self)@ }),
    {
        self.mode = Mode::Insert;
    }

    /// Opens the input line for `action`.
    pub fn set_action(&mut self, action: InputType)
        ensures
            final(self)@ == (AppModel { mode: Mode::Insert, current_action: Some(action), ..old(self)@ }),
    {
        self.mode = Mode::Insert;
        self.current_action = Some(action);
    }

    /// Forgets what the input line was opened for.
    pub fn clear_action(&mut self)
        ensures
            final(self)@ == (AppModel { current_action: None, ..old(self)@ }),
    {
        self.current_action = None;
    }

    /// Takes back cursor, choice and action.
    pub fn reset_cursor(&mut self)
        ensures
            final(self)@ == old(self)@.reset(),
    {
        self.current_action = None;
        self.selected = None;
        self.cursor = 0;
    }

    /// Takes one key, with `input` on the input line, and says what is to be done with the
    /// input line.
    pub fn handle_key(&mut self, key: Key, input: &str) -> (out: InputEffect)
        ensures
            final(self)@ == old(self)@.after_key(key, input@),
            out == old(self)@.input_effect(key),
    {
        match self.mode {
            Mode::Normal => {
                match key {
                    Key::Char(c) => {
                        if c == 'q' {
                            self.running = false;
                        } else if c == 'j' {
                            self.cursor = cursor_down(
                                self.cursor,
                                screen_at(self.current_screen).get_cursor_len(self.repositories),
                            );
                        } else if c == 'k' {
                            self.cursor = cursor_up(self.cursor);
                        } else if c == 'h' {
                            self.reset_cursor();
                            self.current_screen = screen_left(self.current_screen, SCREENS);
                        } else if c == 'l' {
                            self.reset_cursor();
                            self.current_screen = screen_right(self.current_screen, SCREENS);
                        } else if c == 'i' {
                            self.insert_mode();
                        } else if c == 'd' {
                            if self.selected.is_some() {
                                match screen_at(self.current_screen) {
                                    ScreenType::Users => self.set_action(InputType::DeleteUser),
                                    ScreenType::Repos => self.set_action(InputType::DeleteRepo),
                                    ScreenType::Home => {},
                                }
                            }
                        }
                    },
                    Key::Left => {
                        self.reset_cursor();
                        self.current_screen = screen_left(self.current_screen, SCREENS);
                    },
                    Key::Right => {
                        self.reset_cursor();
                        self.current_screen = screen_right(self.current_screen, SCREENS);
                    },
                    Key::Up => {
                        self.cursor = cursor_up(self.cursor);
                    },
                    Key::Down => {
                        self.cursor = cursor_down(
                            self.cursor,
                            screen_at(self.current_screen).get_cursor_len(self.repositories),
                        );
                    },
                    Key::Esc => {
                        self.reset_cursor();
                    },
                    Key::Enter => {
                        self.selected = Some(self.cursor);
                    },
                    Key::Other => {},
                }
                InputEffect::Keep
            },
            Mode::Insert => match key {
                Key::Esc => {
                    self.normal_mode();
                    self.reset_cursor();
                    InputEffect::Keep
                },
                Key::Enter => {
                    let ghost before = self.buffer@;
                    let line = string_of(chars_of(input).as_slice());
                    self.buffer.push(line);
                    assert(string_views(self.buffer@) =~= string_views(before).push(input@));
                    InputEffect::Reset
                },
                _ => InputEffect::Forward,
            },
        }
    }

    fn pop_line(&mut self) -> (out: String)
        ensures
            out@ == last_line(old(self)@.buffer),
            final(self)@ == (AppModel { buffer: without_last(old(self)@.buffer), ..old(self)@ }),
    {
        let ghost before = self.buffer@;
        match self.buffer.pop() {
            Some(line) => {
                assert(string_views(self.buffer@) =~= string_views(before).drop_last());
                assert(string_views(before).last() == line@);
                line
            },
            None => {
                assert(string_views(before).len() == 0);
                String::new()
            },
        }
    }

    /// Uses the lines that were entered for `kind` and says what to ask of the registry.
    /// The action is forgotten. A new repository takes the last two lines, name and `y` for
    /// a public one; a key and a deletion take the last line; a new user takes exactly four
    /// lines that make a valid request, and else nothing is asked and the lines stay.
    pub fn handle_input(&mut self, kind: InputType) -> (out: Option<ClientRequest>)
        ensures
            final(self)@.current_action.is_none(),
            final(self)@ == (AppModel {
                current_action: None,
                buffer: final(self)@.buffer,
                ..old(self)@
            }),
            match kind {
                InputType::NewRepo => final(self)@.buffer == without_last(without_last(old(self)@.buffer))
                    && (out matches Some(ClientRequest::CreateRepository { name, public }) && name@
                    == last_line(without_last(old(self)@.buffer)) && public == (lower(
                    last_line(old(self)@.buffer),
                ) == seq!['y'])),
                InputType::CreateApiKey => final(self)@.buffer == without_last(old(self)@.buffer) && (
                out matches Some(ClientRequest::CreateApiKey { name }) && name@ == last_line(
                    old(self)@.buffer,
                )),
                InputType::DeleteUser => final(self)@.buffer == without_last(old(self)@.buffer) && (
                out matches Some(ClientRequest::DeleteUser { email }) && email@ == last_line(
                    old(self)@.buffer,
                )),
                InputType::DeleteRepo => final(self)@.buffer == without_last(old(self)@.buffer) && (
                out matches Some(ClientRequest::DeleteRepository { name }) && name@ == last_line(
                    old(self)@.buffer,
                )),
                InputType::NewUser => match out {
                    Some(ClientRequest::CreateUser(req)) => old(self)@.buffer.len() == 4 && req.valid()
                        && req.email@ == old(self)@.buffer[0] && req.password@ == old(self)@.buffer[1]
                        && req.confirm_password@ == old(self)@.buffer[2] && req.is_admin == (old(
                        self,
                    )@.buffer[3] == seq!['y']) && final(self)@.buffer == Seq::<Seq<char>>::empty(),
                    Some(_) => false,
                    None => final(self)@.buffer == old(self)@.buffer,
                },
            },
    {
        self.clear_action();
        match kind {
            InputType::NewRepo => {
                let public = self.pop_line();
                let name = self.pop_line();
                let answer = to_lower(chars_of(public.as_str()).as_slice());
                let yes = answer.len() == 1 && answer[0] == 'y';
                proof {
                    if yes {
                        assert(answer@ =~= seq!['y']);
                    } else if answer@ == seq!['y'] {
                        assert(answer@.len() == 1 && answer@[0] == 'y');
                    }
                }
                Some(ClientRequest::CreateRepository { name, public: yes })
            },
            InputType::CreateApiKey => Some(ClientRequest::CreateApiKey { name: self.pop_line() }),
            InputType::DeleteUser => Some(ClientRequest::DeleteUser { email: self.pop_line() }),
            InputType::DeleteRepo => Some(ClientRequest::DeleteRepository { name: self.pop_line() }),
            InputType::NewUser => {
                let mut lines: Vec<&str> = Vec::new();
                let mut i: usize = 0;
                while i < self.buffer.len()
                    invariant
                        i <= self.buffer.len(),
                        lines@.len() == i,
                        forall|k: int| 0 <= k < i ==> (#[trigger] lines@[k])@ == self.buffer@[k]@,
                    decreases self.buffer.len() - i,
                {
                    lines.push(self.buffer[i].as_str());
                    i += 1;
                }
                match RegisterUserRequest::from_input_buff(lines.as_slice()) {
                    Ok(req) => {
                        proof {
                            assert(string_views(self.buffer@)[0] == self.buffer@[0]@);
                            assert(string_views(self.buffer@)[1] == self.buffer@[1]@);
                            assert(string_views(self.buffer@)[2] == self.buffer@[2]@);
                            assert(string_views(self.buffer@)[3] == self.buffer@[3]@);
                        }
                        self.buffer = Vec::new();
                        assert(string_views(self.buffer@) =~= Seq::<Seq<char>>::empty());
                        Some(ClientRequest::CreateUser(req))
                    },
                    Err(_) => None,
                }
            },
        }
    }
}

} // verus!
