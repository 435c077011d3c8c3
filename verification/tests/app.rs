use pasotsu_term::app::{handle_command, handle_input, handle_key, handle_popup_key, run, show_ports};
use pasotsu_term::app::{handle_scroll_key, is_ctrl_a};
use pasotsu_term::app::{Action, App, Input, Key, KeyCode, Mode, Popup, Turn};
use pasotsu_term::channel::{Channel, PortConfig};

fn channel(name: &str) -> Channel {
    Channel {
        name: name.to_string(),
        cfg: PortConfig { path: None, baud: 9600, format: "8N1".to_string() },
        open: false,
        encoding: "SJIS".to_string(),
        newline: "CR".to_string(),
        backspace: 0x08,
        local_echo: false,
        logging: false,
        modem: None,
        rx_bytes: 0,
        tx_bytes: 0,
        status: String::new(),
        parser: vt100::Parser::new(4, 20, 100),
    }
}

fn app() -> App {
    App::new(
        [channel("A"), channel("B")],
        vec![300, 1200, 2400, 4800, 9600, 19200],
        vec!["SJIS".to_string(), "UTF-8".to_string(), "EUC".to_string()],
    )
}

#[test]
fn program_starts_at_the_first_line() {
    let a = app();
    assert_eq!((a.active, a.scroll), (0, 0));
    assert!(a.mode == Mode::Normal && a.popup.is_none());
    assert!(!a.zoom && !a.quit && !a.redraw);
    assert_eq!((a.channels[0].name.as_str(), a.channels[1].name.as_str()), ("A", "B"));
}

fn key(code: KeyCode) -> Key {
    Key { code, ctrl: false }
}

fn ch(c: char) -> Key {
    key(KeyCode::Char(c))
}

fn ctrl(c: char) -> Key {
    Key { code: KeyCode::Char(c), ctrl: true }
}

#[test]
fn ctrl_a_is_the_prefix() {
    assert!(is_ctrl_a(&ctrl('a')));
    assert!(is_ctrl_a(&ctrl('A')));
    assert!(!is_ctrl_a(&ctrl('b')));
    assert!(!is_ctrl_a(&ch('a')));
}

#[test]
fn typed_keys_go_to_the_line() {
    let mut a = app();
    let r = handle_key(&mut a, ch('x'), Some(vec![b'x']));
    assert!(matches!(r, Some(Action::Write(b)) if b == vec![b'x']));
    assert!(handle_key(&mut a, key(KeyCode::Other), None).is_none());
    assert!(a.mode == Mode::Normal);
}

#[test]
fn prefix_twice_sends_one() {
    let mut a = app();
    assert!(handle_key(&mut a, ctrl('a'), Some(vec![1])).is_none());
    assert!(a.mode == Mode::Prefix);
    let r = handle_key(&mut a, ctrl('A'), Some(vec![1]));
    assert!(matches!(r, Some(Action::Write(b)) if b == vec![1]));
    assert!(a.mode == Mode::Normal);
}

#[test]
fn panes_are_switched() {
    let mut a = app();
    for (k, active) in [
        (key(KeyCode::Tab), 1),
        (ch('o'), 0),
        (key(KeyCode::Up), 1),
        (key(KeyCode::Down), 0),
        (ch('2'), 1),
        (ch('2'), 1),
        (ch('1'), 0),
    ] {
        assert!(handle_command(&mut a, k).is_none());
        assert_eq!(a.active, active);
    }
}

#[test]
fn commands_for_the_line() {
    let mut a = app();
    assert!(matches!(handle_command(&mut a, ch('n')), Some(Action::NextNewline)));
    assert!(matches!(handle_command(&mut a, ch('c')), Some(Action::Clear)));
    assert!(matches!(handle_command(&mut a, ch('r')), Some(Action::Open)));
    assert!(matches!(handle_command(&mut a, ch('i')), Some(Action::ProbeModem)));
    assert!(matches!(handle_command(&mut a, ch('H')), Some(Action::HangUp)));
    assert!(matches!(handle_command(&mut a, ch('x')), Some(Action::Close)));
    assert!(matches!(handle_command(&mut a, ch('L')), Some(Action::ToggleLog)));
    assert!(matches!(handle_command(&mut a, ch('p')), Some(Action::ListPorts)));
    assert!(handle_command(&mut a, ch('y')).is_none());
    assert!(handle_command(&mut a, key(KeyCode::Other)).is_none());
}

#[test]
fn switches_are_flipped_on_the_active_line() {
    let mut a = app();
    a.active = 1;
    handle_command(&mut a, ch('l'));
    assert!(a.channels[1].local_echo && !a.channels[0].local_echo);
    handle_command(&mut a, ch('l'));
    assert!(!a.channels[1].local_echo);
    handle_command(&mut a, ch('h'));
    assert_eq!(a.channels[1].backspace, 0x7f);
    handle_command(&mut a, ch('h'));
    assert_eq!(a.channels[1].backspace, 0x08);
    handle_command(&mut a, ch('z'));
    assert!(a.zoom);
    handle_command(&mut a, ctrl('l'));
    assert!(a.redraw);
    assert!(!a.channels[1].local_echo);
    handle_command(&mut a, ch('q'));
    assert!(a.quit);
}

#[test]
fn encodings_are_gone_through() {
    let mut a = app();
    for (now, next) in [("SJIS", "UTF-8"), ("UTF-8", "EUC"), ("EUC", "SJIS"), ("?", "UTF-8")] {
        a.channels[0].encoding = now.to_string();
        let r = handle_command(&mut a, ch('e'));
        assert!(matches!(r, Some(Action::SetEncoding(e)) if e == next));
    }
}

fn baud_popup(a: &App) -> (usize, String) {
    match &a.popup {
        Some(Popup::Baud { sel, custom }) => (*sel, custom.clone()),
        _ => panic!("no window for the speed"),
    }
}

#[test]
fn speed_window_selects_the_current_rate() {
    let mut a = app();
    a.channels[0].cfg.baud = 1200;
    handle_command(&mut a, ch('b'));
    assert_eq!(baud_popup(&a), (1, String::new()));
    a.channels[0].cfg.baud = 123;
    handle_command(&mut a, ch('b'));
    assert_eq!(baud_popup(&a), (4, String::new()));
}

#[test]
fn speed_window_moves_and_chooses() {
    let mut a = app();
    a.popup = Some(Popup::Baud { sel: 4, custom: String::new() });
    handle_popup_key(&mut a, key(KeyCode::Down));
    handle_popup_key(&mut a, key(KeyCode::Down));
    assert_eq!(baud_popup(&a).0, 5);
    for _ in 0..7 {
        handle_popup_key(&mut a, key(KeyCode::Up));
    }
    assert_eq!(baud_popup(&a).0, 0);
    let r = handle_popup_key(&mut a, key(KeyCode::Enter));
    assert!(matches!(r, Some(Action::SetBaud(300))));
    assert!(a.popup.is_none());
}

#[test]
fn speed_window_takes_digits() {
    let mut a = app();
    a.popup = Some(Popup::Baud { sel: 2, custom: String::new() });
    for c in "12x345678９90".chars() {
        handle_popup_key(&mut a, ch(c));
    }
    assert_eq!(baud_popup(&a).1, "12345678");
    handle_popup_key(&mut a, key(KeyCode::Backspace));
    assert_eq!(baud_popup(&a).1, "1234567");
    let r = handle_popup_key(&mut a, key(KeyCode::Enter));
    assert!(matches!(r, Some(Action::SetBaud(1234567))));
}

#[test]
fn speed_zero_or_none_is_the_selected_one() {
    for custom in ["", "000", "99999999999", "x"] {
        let mut a = app();
        a.popup = Some(Popup::Baud { sel: 2, custom: custom.to_string() });
        let r = handle_popup_key(&mut a, key(KeyCode::Enter));
        assert!(matches!(r, Some(Action::SetBaud(2400))), "{custom}");
    }
    let mut a = app();
    a.popup = Some(Popup::Baud { sel: 2, custom: String::new() });
    handle_popup_key(&mut a, key(KeyCode::Backspace));
    assert_eq!(baud_popup(&a), (2, String::new()));
}

#[test]
fn ports_are_offered_in_order() {
    let mut a = app();
    a.channels[0].cfg.path = Some("/dev/b".to_string());
    let names = ["/dev/c", "/dev/tty.x", "/dev/b", "/dev/a"];
    show_ports(&mut a, names.iter().map(|s| s.to_string()).collect());
    match &a.popup {
        Some(Popup::Port { ports, sel }) => {
            assert_eq!(ports, &["/dev/a", "/dev/b", "/dev/c"]);
            assert_eq!(*sel, 1);
        }
        _ => panic!("no window for the port"),
    }
    handle_popup_key(&mut a, key(KeyCode::Down));
    handle_popup_key(&mut a, key(KeyCode::Down));
    let r = handle_key(&mut a, key(KeyCode::Enter), None);
    assert!(matches!(r, Some(Action::Open)));
    assert_eq!(a.channels[0].cfg.path.as_deref(), Some("/dev/c"));
    assert!(a.popup.is_none());
}

#[test]
fn no_ports_no_choice() {
    let mut a = app();
    show_ports(&mut a, Vec::new());
    handle_popup_key(&mut a, key(KeyCode::Down));
    handle_popup_key(&mut a, key(KeyCode::Up));
    assert!(handle_popup_key(&mut a, key(KeyCode::Enter)).is_none());
    assert!(a.popup.is_none());
    assert!(a.channels[0].cfg.path.is_none());
}

#[test]
fn windows_are_closed() {
    let mut a = app();
    handle_command(&mut a, ch('?'));
    assert!(matches!(a.popup, Some(Popup::Help)));
    assert!(handle_key(&mut a, ch('x'), Some(vec![b'x'])).is_none());
    assert!(a.popup.is_none());
    handle_command(&mut a, ch('b'));
    handle_key(&mut a, key(KeyCode::Esc), None);
    assert!(a.popup.is_none());
    show_ports(&mut a, vec!["p".to_string()]);
    handle_key(&mut a, key(KeyCode::Esc), None);
    assert!(a.popup.is_none());
    assert!(a.channels[0].cfg.path.is_none());
}

fn with_history() -> App {
    let mut a = app();
    // Ten lines on a screen of four leave seven behind.
    for i in 0..10 {
        a.channels[0].parser.process(format!("line {i}\r\n").as_bytes());
    }
    a
}

#[test]
fn scrolling_is_bounded_by_the_history() {
    let mut a = with_history();
    handle_command(&mut a, ch('['));
    assert!(a.mode == Mode::Scroll);
    assert_eq!(a.scroll, 0);
    for (k, scroll) in [
        (key(KeyCode::Up), 1),
        (ch('k'), 2),
        (key(KeyCode::Down), 1),
        (ch('j'), 0),
        (ch('j'), 0),
        (key(KeyCode::PageUp), 4),
        (ch('b'), 7),
        (key(KeyCode::Up), 7),
        (key(KeyCode::PageDown), 3),
        (ch(' '), 0),
        (key(KeyCode::Home), 7),
        (key(KeyCode::End), 0),
        (ch('g'), 7),
        (ch('x'), 7),
        (ch('G'), 0),
    ] {
        handle_scroll_key(&mut a, k);
        assert_eq!(a.scroll, scroll, "{k:?}");
        assert_eq!(a.channels[0].parser.screen().scrollback(), scroll);
    }
}

#[test]
fn scrolling_is_left() {
    for k in [key(KeyCode::Esc), ch('q'), key(KeyCode::Enter)] {
        let mut a = with_history();
        handle_command(&mut a, key(KeyCode::PageUp));
        assert!(a.mode == Mode::Scroll);
        assert_eq!(a.scroll, 4);
        handle_key(&mut a, k, Some(vec![0]));
        assert!(a.mode == Mode::Normal);
        assert_eq!(a.scroll, 0);
        assert_eq!(a.channels[0].parser.screen().scrollback(), 0);
        assert!(!a.quit);
    }
}

#[test]
fn pastes_go_to_the_remote_side_only() {
    let mut a = app();
    let paste = || Input::Paste("text".to_string());
    let r = handle_input(&mut a, paste(), None);
    assert!(matches!(r, Some(Action::SendText(s)) if s == "text"));
    a.popup = Some(Popup::Help);
    assert!(handle_input(&mut a, paste(), None).is_none());
    assert!(a.popup.is_some());
    a.popup = None;
    a.mode = Mode::Prefix;
    assert!(handle_input(&mut a, paste(), None).is_none());
}

#[test]
fn releases_do_nothing() {
    let mut a = app();
    let input = Input::Key { key: ctrl('a'), release: true };
    assert!(handle_input(&mut a, input, Some(vec![1])).is_none());
    assert!(a.mode == Mode::Normal);
    let input = Input::Key { key: ctrl('a'), release: false };
    assert!(handle_input(&mut a, input, Some(vec![1])).is_none());
    assert!(a.mode == Mode::Prefix);
    assert!(handle_input(&mut a, Input::Other, None).is_none());
}

#[test]
fn turns_of_the_main_loop() {
    let mut a = app();
    let mut dirty = true;
    assert_eq!(run(&mut a, &mut dirty, true), Turn::Rest);
    assert!(dirty);
    assert_eq!(run(&mut a, &mut dirty, false), Turn::Show { clear: false, draw: true });
    assert!(!dirty);
    assert_eq!(run(&mut a, &mut dirty, false), Turn::Show { clear: false, draw: false });
    a.redraw = true;
    assert_eq!(run(&mut a, &mut dirty, false), Turn::Show { clear: true, draw: true });
    assert!(!a.redraw);
    a.quit = true;
    assert_eq!(run(&mut a, &mut dirty, false), Turn::Stop);
}

#[test]
fn commands_do_not_mind_the_scroll_position() {
    let mut a = with_history();
    a.scroll = usize::MAX;
    assert!(handle_command(&mut a, key(KeyCode::Tab)).is_none());
    assert_eq!((a.active, a.scroll), (1, usize::MAX));
    handle_command(&mut a, key(KeyCode::Tab));
    handle_command(&mut a, key(KeyCode::PageUp));
    assert_eq!((a.active, a.scroll), (0, 4));
    assert!(!a.quit);
}
