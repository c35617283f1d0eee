use termcraft::input::{Command, Input, Key};

#[test]
fn keys_map_to_commands() {
    assert_eq!(Input::map_key(Key::Char('w'), false), Command::MoveForward);
    assert_eq!(Input::map_key(Key::Char('c'), true), Command::Quit);
    assert_eq!(Input::map_key(Key::Char('c'), false), Command::Nothing);
    assert_eq!(Input::map_key(Key::Esc, false), Command::Quit);
    assert_eq!(Input::map_key(Key::Char('1'), false), Command::SelectBlock(0));
    assert_eq!(Input::map_key(Key::Char('9'), false), Command::SelectBlock(8));
    assert_eq!(Input::map_key(Key::F(5), false), Command::Save);
    assert_eq!(Input::map_key(Key::F(6), false), Command::RunScript);
    assert_eq!(Input::map_key(Key::Left, false), Command::LookLeft);
    assert_eq!(Input::map_key(Key::Other, false), Command::Nothing);
}
