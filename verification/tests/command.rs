use softrast::command::{Command, SoftRastCommand};
use softrast::renderer::DrawMode;

#[test]
fn commands_queue_up_in_order() {
    let mut command = Command::default();
    assert!(command.commands.is_empty());
    command.set_title("first");
    command.set_render_mode(false, true, false);
    command.set_title("second");
    assert_eq!(command.commands.len(), 3);
    assert!(matches!(&command.commands[0], SoftRastCommand::SetTitle(t) if t == "first"));
    assert!(matches!(
        &command.commands[1],
        SoftRastCommand::SetRenderingMode { shaded: false, wireframe: true, points: false }
    ));
    assert!(matches!(&command.commands[2], SoftRastCommand::SetTitle(t) if t == "second"));
}

#[test]
fn drain_returns_titles_and_the_last_mode() {
    let mut command = Command::default();
    command.set_render_mode(false, false, true);
    command.set_title("a");
    command.set_render_mode(true, true, false);
    command.set_title("b");
    let (titles, mode) = command.drain(DrawMode::default());
    assert_eq!(titles, vec!["a".to_string(), "b".to_string()]);
    assert_eq!(mode, DrawMode { wireframe: true, shaded: true, points: false });
    assert!(command.commands.is_empty());
}

#[test]
fn drain_keeps_the_mode_when_no_command_sets_one() {
    let mut command = Command::default();
    command.set_title("only");
    let before = DrawMode { wireframe: true, shaded: false, points: true };
    let (titles, mode) = command.drain(before);
    assert_eq!(titles, vec!["only".to_string()]);
    assert_eq!(mode, before);
    let (titles, mode) = command.drain(before);
    assert!(titles.is_empty());
    assert_eq!(mode, before);
}

#[test]
fn the_default_mode_is_shaded_only() {
    assert_eq!(DrawMode::default(), DrawMode { wireframe: false, shaded: true, points: false });
}

#[test]
fn elapsed_does_not_run_backwards() {
    let command = Command::default();
    let first = command.elapsed();
    let second = command.elapsed();
    assert!(second >= first);
}

#[test]
fn digits_select_the_modes() {
    let mode = |shaded: bool, wireframe: bool, points: bool| Some(DrawMode { wireframe, shaded, points });
    assert_eq!(DrawMode::for_digit(0), None);
    assert_eq!(DrawMode::for_digit(1), mode(false, false, true));
    assert_eq!(DrawMode::for_digit(2), mode(false, true, false));
    assert_eq!(DrawMode::for_digit(3), mode(false, true, true));
    assert_eq!(DrawMode::for_digit(4), mode(true, false, false));
    assert_eq!(DrawMode::for_digit(5), mode(true, false, true));
    assert_eq!(DrawMode::for_digit(6), mode(true, true, false));
    assert_eq!(DrawMode::for_digit(7), mode(true, true, true));
    assert_eq!(DrawMode::for_digit(8), None);
    assert_eq!(DrawMode::for_digit(255), None);
}
