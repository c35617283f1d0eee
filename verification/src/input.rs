//! What each key asks the game to do.
use vstd::prelude::*;

verus! {

/// A key the game reacts to, as the terminal reports it.
#[derive(Debug, Clone, Copy, PartialEq, Eq, Structural)]
pub enum Key {
    Char(char),
    Esc,
    F(u8),
    Left,
    Right,
    Up,
    Down,
    Other,
}

/// What a key asks for.
#[derive(Debug, Clone, Copy, PartialEq, Eq, Structural)]
pub enum Command {
    MoveForward,
    MoveBack,
    MoveLeft,
    MoveRight,
    Jump,
    LookLeft,
    LookRight,
    LookUp,
    LookDown,
    Place,
    Break,
    Eat,
    SelectBlock(u32),
    Save,
    RunScript,
    Quit,
    Nothing,
}

/// The command of a key, `ctrl` telling whether Control is held: Control-C
/// and Escape quit, WASD move, space jumps, E places, Q breaks, R eats, the
/// digits 1 to 9 select hotbar slots 0 to 8, F5 saves, F6 runs the script
/// and the arrows look around.
pub open spec fn key_command(key: Key, ctrl: bool) -> Command {
    if ctrl && key == Key::Char('c') {
        Command::Quit
    } else {
        match key {
            Key::Esc => Command::Quit,
            Key::Char(c) => if c == 'w' {
                Command::MoveForward
            } else if c == 's' {
                Command::MoveBack
            } else if c == 'a' {
                Command::MoveLeft
            } else if c == 'd' {
                Command::MoveRight
            } else if c == ' ' {
                Command::Jump
            } else if c == 'e' {
                Command::Place
            } else if c == 'q' {
                Command::Break
            } else if c == 'r' {
                Command::Eat
            } else if '1' <= c <= '9' {
                Command::SelectBlock((c as u32 - '1' as u32) as u32)
            } else {
                Command::Nothing
            },
            Key::F(n) => if n == 5 {
                Command::Save
            } else if n == 6 {
                Command::RunScript
            } else {
                Command::Nothing
            },
            Key::Left => Command::LookLeft,
            Key::Right => Command::LookRight,
            Key::Up => Command::LookUp,
            Key::Down => Command::LookDown,
            Key::Other => Command::Nothing,
        }
    }
}

/// Keyboard handling.
pub struct Input;

impl Input {
    /// The command a key press asks for.
    pub fn map_key(key: Key, ctrl: bool) -> (c: Command)
        ensures
            c == key_command(key, ctrl),
    {
        if ctrl && key == Key::Char('c') {
            return Command::Quit;
        }
        match key {
            Key::Esc => Command::Quit,
            Key::Char(c) => {
                if c == 'w' {
                    Command::MoveForward
                } else if c == 's' {
                    Command::MoveBack
                } else if c == 'a' {
                    Command::MoveLeft
                } else if c == 'd' {
                    Command::MoveRight
                } else if c == ' ' {
                    Command::Jump
                } else if c == 'e' {
                    Command::Place
                } else if c == 'q' {
                    Command::Break
                } else if c == 'r' {
                    Command::Eat
                } else if '1' <= c && c <= '9' {
                    Command::SelectBlock(c as u32 - '1' as u32)
                } else {
                    Command::Nothing
                }
            },
            Key::F(n) => {
                if n == 5 {
                    Command::Save
                } else if n == 6 {
                    Command::RunScript
                } else {
                    Command::Nothing
                }
            },
            Key::Left => Command::LookLeft,
            Key::Right => Command::LookRight,
            Key::Up => Command::LookUp,
            Key::Down => Command::LookDown,
            Key::Other => Command::Nothing,
        }
    }
}

} // verus!
