//! What every key does, in every state of the program.

use vstd::prelude::*;

use crate::app::{first_index, next_turn, offers_ports, ActionState, AppState, InputState, Key};
use crate::app::{KeyCode, Mode, PopupState, Turn};
use crate::channel::ChannelState;
use crate::names::{decimal_value, is_digit};
use crate::ports::{is_offered, only_call_in_ports_are_left_out, text_le};
use crate::text::number;

verus! {

// ---------------------------------------------------------------- typing

/// Ctrl-A, in either case.
pub open spec fn ctrl_a(k: Key) -> bool {
    k == (Key { code: KeyCode::Char('a'), ctrl: true }) || k == (Key {
        code: KeyCode::Char('A'),
        ctrl: true,
    })
}

/// Without a window, and outside of commands and the scrollback, a key other than Ctrl-A sends
/// exactly the bytes that it stands for, all of them and in order, and nothing where it stands
/// for none; nothing else happens. Letting go of a key does nothing at all.
pub proof fn typed_bytes_are_sent(app: AppState, k: Key, bytes: Seq<u8>)
    requires
        app.popup is None,
        app.mode == Mode::Normal,
        !ctrl_a(k),
    ensures
        app.keyed(k, Some(bytes)) == (app, Some(ActionState::Write(bytes))),
        app.keyed(k, None) == (app, None::<ActionState>),
        app.handled(InputState::Key { key: k, release: false }, Some(bytes)) == (
            app,
            Some(ActionState::Write(bytes)),
        ),
        app.handled(InputState::Key { key: k, release: false }, None) == (
            app,
            None::<ActionState>,
        ),
{
}

/// A key going down is handled as a key, whatever is shown; a key going up, and any other input,
/// does nothing.
pub proof fn only_keys_going_down_count(app: AppState, k: Key, typed: Option<Seq<u8>>)
    ensures
        app.handled(InputState::Key { key: k, release: false }, typed) == app.keyed(k, typed),
        app.handled(InputState::Key { key: k, release: true }, typed) == (
            app,
            None::<ActionState>,
        ),
        app.handled(InputState::Other, typed) == (app, None::<ActionState>),
{
}

/// Pasted text is sent whole where keys are meant for the remote side, and dropped elsewhere.
pub proof fn pasted_text_is_sent_whole(app: AppState, s: Seq<char>, typed: Option<Seq<u8>>)
    ensures
        app.popup is None && app.mode == Mode::Normal ==> app.handled(
            InputState::Paste(s),
            typed,
        ) == (app, Some(ActionState::SendText(s))),
        app.popup is Some || app.mode != Mode::Normal ==> app.handled(
            InputState::Paste(s),
            typed,
        ) == (app, None::<ActionState>),
{
}

/// Ctrl-A makes the next key a command, and does nothing else.
pub proof fn ctrl_a_starts_a_command(app: AppState, k: Key, typed: Option<Seq<u8>>)
    requires
        app.popup is None,
        app.mode == Mode::Normal,
        ctrl_a(k),
    ensures
        app.keyed(k, typed) == (AppState { mode: Mode::Prefix, ..app }, None::<ActionState>),
{
}

// ---------------------------------------------------------------- commands

/// The commands that ask something of the line, and what each asks.
pub open spec fn asks(code: KeyCode) -> Option<ActionState> {
    match code {
        KeyCode::Char(c) => match c {
            'p' => Some(ActionState::ListPorts),
            'n' => Some(ActionState::NextNewline),
            'c' => Some(ActionState::Clear),
            'r' => Some(ActionState::Open),
            'i' => Some(ActionState::ProbeModem),
            'H' => Some(ActionState::HangUp),
            'x' => Some(ActionState::Close),
            'L' => Some(ActionState::ToggleLog),
            _ => None,
        },
        _ => None,
    }
}

/// The other commands that are keys for a character.
pub open spec fn acts_here(c: char) -> bool {
    c == 'o' || c == '1' || c == '2' || c == 'b' || c == 'e' || c == 'l' || c == 'h' || c == 'z'
        || c == '[' || c == '?' || c == 'q'
}

/// A command that asks something of the line asks just that, and the program is back where keys
/// are meant for the remote side, with nothing else changed.
pub proof fn commands_ask_the_line(app: AppState, k: Key, typed: Option<Seq<u8>>)
    requires
        app.popup is None,
        app.mode == Mode::Prefix,
        asks(k.code) is Some,
    ensures
        app.keyed(k, typed) == (AppState { mode: Mode::Normal, ..app }, asks(k.code)),
{
}

/// Commands that act on the program itself: what each changes, and that it changes nothing else
/// and asks nothing of the line.
pub proof fn commands_act_here(app: AppState, ch: char, ctrl: bool, typed: Option<Seq<u8>>)
    requires
        app.wf(),
        app.popup is None,
        app.mode == Mode::Prefix,
        !(ctrl && ch == 'l'),
    ensures
        ({
            let after = app.keyed(Key { code: KeyCode::Char(ch), ctrl }, typed);
            let back = AppState { mode: Mode::Normal, ..app };
            let c = app.channels[app.active as int];
            let with = |c: ChannelState|
                AppState { channels: app.channels.update(app.active as int, c), ..back };
            &&& ch == 'o' ==> after.0 == AppState {
                active: if app.active == 0 {
                    1
                } else {
                    0
                },
                ..back
            }
            &&& ch == '1' ==> after.0 == AppState { active: 0, ..back }
            &&& ch == '2' ==> after.0 == AppState { active: 1, ..back }
            &&& ch == 'l' ==> after.0 == with(ChannelState { local_echo: !c.local_echo, ..c })
            &&& ch == 'h' && c.backspace == 0x08 ==> after.0 == with(
                ChannelState { backspace: 0x7f, ..c },
            )
            &&& ch == 'h' && c.backspace != 0x08 ==> after.0 == with(
                ChannelState { backspace: 0x08, ..c },
            )
            &&& ch == 'z' ==> after.0 == AppState { zoom: !app.zoom, ..back }
            &&& ch == '[' ==> after.0 == AppState { mode: Mode::Scroll, scroll: 0, ..back }
            &&& ch == '?' ==> after.0 == AppState { popup: Some(PopupState::Help), ..back }
            &&& ch == 'q' ==> after.0 == AppState { quit: true, ..back }
            &&& acts_here(ch) && ch != 'e' ==> after.1 is None
        }),
{
    assert(app.active == 0 || app.active == 1);
}

/// Tab, Up and Down switch to the other pane; Ctrl-L wants the window drawn anew; a key that is
/// no command only ends the command.
pub proof fn other_commands(app: AppState, k: Key, typed: Option<Seq<u8>>)
    requires
        app.wf(),
        app.popup is None,
        app.mode == Mode::Prefix,
    ensures
        ({
            let back = AppState { mode: Mode::Normal, ..app };
            let after = app.keyed(k, typed);
            &&& k.code == KeyCode::Tab || k.code == KeyCode::Up || k.code == KeyCode::Down
                ==> after == (
                AppState {
                    active: if app.active == 0 {
                        1
                    } else {
                        0
                    },
                    ..back
                },
                None::<ActionState>,
            )
            &&& k.ctrl && k.code == KeyCode::Char('l') ==> after == (
                AppState { redraw: true, ..back },
                None::<ActionState>,
            )
            &&& k.code is Enter || k.code is Esc || k.code is Backspace || k.code is PageDown
                || k.code is Home || k.code is End || k.code is Other ==> after == (
                back,
                None::<ActionState>,
            )
            &&& (k.code matches KeyCode::Char(c) && !acts_here(c) && asks(k.code) is None
                && !ctrl_a(k)) ==> after == (back, None::<ActionState>)
            &&& ctrl_a(k) ==> after == (back, Some(ActionState::Write(seq![0x01u8])))
        }),
{
    assert(app.active == 0 || app.active == 1);
}

/// Where something comes first in a list: it is there, and nowhere before.
pub proof fn first_place_is_found<T>(s: Seq<T>, x: T)
    ensures
        first_index(s, x) matches Some(i) ==> i < s.len() && s[i as int] == x && (forall|j: int|
            0 <= j < i ==> #[trigger] s[j] != x),
        first_index(s, x) is None ==> (forall|j: int| 0 <= j < s.len() ==> #[trigger] s[j] != x),
    decreases s.len(),
{
    if s.len() > 0 && s[0] != x {
        let t = s.skip(1);
        first_place_is_found(t, x);
        match first_index(t, x) {
            Some(i) => {
                assert forall|j: int| 0 <= j < i + 1 implies #[trigger] s[j] != x by {
                    if j > 0 {
                        assert(t[j - 1] == s[j]);
                    }
                }
            },
            None => {
                assert forall|j: int| 0 <= j < s.len() implies #[trigger] s[j] != x by {
                    if j > 0 {
                        assert(t[j - 1] == s[j]);
                    }
                }
            },
        }
    }
}

/// The window for the speed comes up with nothing typed and with the line's speed selected, or
/// with the fifth where the line's is not offered.
pub proof fn speed_window_selects_the_speed(app: AppState, ctrl: bool, typed: Option<Seq<u8>>)
    requires
        app.wf(),
        app.popup is None,
        app.mode == Mode::Prefix,
    ensures
        ({
            let after = app.keyed(Key { code: KeyCode::Char('b'), ctrl }, typed).0;
            let speed = app.channels[app.active as int].baud;
            &&& after == AppState { mode: Mode::Normal, popup: after.popup, ..app }
            &&& after.popup matches Some(PopupState::Baud { sel, custom })
            &&& custom.len() == 0
            &&& sel < app.baud_rates.len()
            &&& app.baud_rates.contains(speed) ==> app.baud_rates[sel as int] == speed
            &&& app.baud_rates.contains(speed) ==> (forall|j: int|
                0 <= j < sel ==> #[trigger] app.baud_rates[j] != speed)
            &&& !app.baud_rates.contains(speed) ==> sel == 4
        }),
{
    first_place_is_found(app.baud_rates, app.channels[app.active as int].baud);
}

/// The command for the character code asks for the one behind the line's own, and for the first
/// one behind the last; so going on from any one leads through all of them.
pub proof fn character_codes_go_round(
    app: AppState,
    i: int,
    ctrl: bool,
    typed: Option<Seq<u8>>,
)
    requires
        app.wf(),
        app.popup is None,
        app.mode == Mode::Prefix,
        0 <= i < app.encodings.len(),
        app.channels[app.active as int].encoding == app.encodings[i],
        forall|j: int| 0 <= j < i ==> #[trigger] app.encodings[j] != app.encodings[i],
    ensures
        ({
            let next = if i + 1 < app.encodings.len() {
                i + 1
            } else {
                0
            };
            app.keyed(Key { code: KeyCode::Char('e'), ctrl }, typed) == (
                AppState { mode: Mode::Normal, ..app },
                Some(ActionState::SetEncoding(app.encodings[next])),
            )
        }),
{
    let x = app.encodings[i];
    first_place_is_found(app.encodings, x);
    let n = app.encodings.len();
    assert(first_index(app.encodings, x) == Some(i as nat)) by {
        match first_index(app.encodings, x) {
            Some(j) => {
                if j < i {
                    assert(app.encodings[j as int] != x);
                } else if j > i {
                    assert(app.encodings[i] != x);
                }
            },
            None => {
                assert(app.encodings[i] != x);
            },
        }
    }
    if i + 1 < n {
        assert((i + 1) % (n as int) == i + 1) by (nonlinear_arith)
            requires
                0 <= i + 1 < n,
        ;
    } else {
        assert((i + 1) % (n as int) == 0) by (nonlinear_arith)
            requires
                i + 1 == n,
                n > 0,
        ;
    }
}

/// A character code that is not in the list counts as the first one.
pub proof fn unlisted_code_counts_as_the_first(
    app: AppState,
    ctrl: bool,
    typed: Option<Seq<u8>>,
)
    requires
        app.wf(),
        app.popup is None,
        app.mode == Mode::Prefix,
        !app.encodings.contains(app.channels[app.active as int].encoding),
    ensures
        ({
            let next = if app.encodings.len() > 1 {
                1int
            } else {
                0
            };
            app.keyed(Key { code: KeyCode::Char('e'), ctrl }, typed) == (
                AppState { mode: Mode::Normal, ..app },
                Some(ActionState::SetEncoding(app.encodings[next])),
            )
        }),
{
    first_place_is_found(app.encodings, app.channels[app.active as int].encoding);
    let n = app.encodings.len();
    if n > 1 {
        assert(1int % (n as int) == 1) by (nonlinear_arith)
            requires
                n > 1,
        ;
    }
}

// ---------------------------------------------------------------- windows

/// A window takes every key: what is behind it stays as it is, but for the port that is chosen.
pub proof fn windows_take_all_keys(app: AppState, k: Key, typed: Option<Seq<u8>>)
    requires
        app.popup is Some,
    ensures
        ({
            let after = app.keyed(k, typed);
            &&& after.0 == AppState { popup: after.0.popup, channels: after.0.channels, ..app }
            &&& k.code != KeyCode::Enter || !(app.popup->0 is Port) ==> after.0.channels
                == app.channels
            &&& k.code != KeyCode::Enter ==> after.1 is None
            &&& k.code == KeyCode::Esc ==> after == (
                AppState { popup: None, ..app },
                None::<ActionState>,
            )
            &&& app.popup->0 is Help ==> after == (
                AppState { popup: None, ..app },
                None::<ActionState>,
            )
            &&& after.0.popup is None ==> k.code == KeyCode::Esc || k.code == KeyCode::Enter
                || app.popup->0 is Help
        }),
{
}

/// The program with the window for the port, which offers these ports with one selected.
pub open spec fn offering(app: AppState, ports: Seq<Seq<char>>, sel: nat) -> AppState {
    AppState { popup: Some(PopupState::Port { ports, sel }), ..app }
}

/// In the window for the port, Up selects the port before and Down the one behind, as far as
/// there is one; both keep the list and everything else.
pub proof fn port_window_moves(
    app: AppState,
    ports: Seq<Seq<char>>,
    sel: nat,
    ctrl: bool,
    typed: Option<Seq<u8>>,
)
    requires
        sel < ports.len(),
    ensures
        ({
            let shown = offering(app, ports, sel);
            let up = Key { code: KeyCode::Up, ctrl };
            let down = Key { code: KeyCode::Down, ctrl };
            &&& shown.keyed(up, typed) == (
                offering(
                    app,
                    ports,
                    if sel == 0 {
                        0
                    } else {
                        (sel - 1) as nat
                    },
                ),
                None::<ActionState>,
            )
            &&& shown.keyed(down, typed) == (
                offering(
                    app,
                    ports,
                    if sel + 1 == ports.len() {
                        sel
                    } else {
                        sel + 1
                    },
                ),
                None::<ActionState>,
            )
            &&& sel + 1 < ports.len() ==> shown.keyed(down, typed).0.keyed(up, typed).0 == shown
            &&& sel > 0 ==> shown.keyed(up, typed).0.keyed(down, typed).0 == shown
        }),
{
}

/// Without a port to select, Up and Down change nothing.
pub proof fn empty_port_window_stays(app: AppState, ctrl: bool, typed: Option<Seq<u8>>)
    ensures
        ({
            let shown = offering(app, Seq::empty(), 0);
            &&& shown.keyed(Key { code: KeyCode::Up, ctrl }, typed) == (
                shown,
                None::<ActionState>,
            )
            &&& shown.keyed(Key { code: KeyCode::Down, ctrl }, typed) == (
                shown,
                None::<ActionState>,
            )
        }),
{
}

/// The program after a key was pressed this many times.
pub open spec fn pressed(app: AppState, code: KeyCode, times: nat) -> AppState
    decreases times,
{
    if times == 0 {
        app
    } else {
        pressed(app, code, (times - 1) as nat).keyed(Key { code, ctrl: false }, None).0
    }
}

/// From any port of the list any other can be selected: by as many presses of Down, or of Up, as
/// it stands behind or before.
pub proof fn every_port_can_be_selected(
    app: AppState,
    ports: Seq<Seq<char>>,
    from: nat,
    to: nat,
)
    requires
        from < ports.len(),
        to < ports.len(),
    ensures
        from <= to ==> pressed(offering(app, ports, from), KeyCode::Down, (to - from) as nat)
            == offering(app, ports, to),
        to <= from ==> pressed(offering(app, ports, from), KeyCode::Up, (from - to) as nat)
            == offering(app, ports, to),
    decreases
            if from <= to {
                to - from
            } else {
                from - to
            },
{
    if from < to {
        every_port_can_be_selected(app, ports, from, (to - 1) as nat);
        port_window_moves(app, ports, (to - 1) as nat, false, None);
    } else if to < from {
        every_port_can_be_selected(app, ports, from, to + 1);
        port_window_moves(app, ports, to + 1, false, None);
    }
}

/// Enter chooses the selected port for the active line, which is then to be opened; with no port
/// to choose it only closes the window.
pub proof fn port_window_chooses(
    app: AppState,
    ports: Seq<Seq<char>>,
    sel: nat,
    ctrl: bool,
    typed: Option<Seq<u8>>,
)
    requires
        app.wf(),
    ensures
        ({
            let after = offering(app, ports, sel).keyed(
                Key { code: KeyCode::Enter, ctrl },
                typed,
            );
            let closed = AppState { popup: None, ..app };
            let c = app.channels[app.active as int];
            &&& sel < ports.len() ==> after == (
                AppState {
                    channels: app.channels.update(
                        app.active as int,
                        ChannelState { path: Some(ports[sel as int]), ..c },
                    ),
                    ..closed
                },
                Some(ActionState::Open),
            )
            &&& sel >= ports.len() ==> after == (closed, None::<ActionState>)
        }),
{
}

/// The port window ignores every other key.
pub proof fn port_window_ignores_the_rest(
    app: AppState,
    ports: Seq<Seq<char>>,
    sel: nat,
    k: Key,
    typed: Option<Seq<u8>>,
)
    requires
        !(k.code is Up || k.code is Down || k.code is Enter || k.code is Esc),
    ensures
        offering(app, ports, sel).keyed(k, typed) == (
            offering(app, ports, sel),
            None::<ActionState>,
        ),
{
}

/// The program with the window for the speed, with one selected and digits typed.
pub open spec fn asking(app: AppState, sel: nat, custom: Seq<char>) -> AppState {
    AppState { popup: Some(PopupState::Baud { sel, custom }), ..app }
}

/// In the window for the speed, Up selects the speed before and Down the one behind, as far as
/// there is one; both keep what was typed and everything else.
pub proof fn speed_window_moves(
    app: AppState,
    sel: nat,
    custom: Seq<char>,
    ctrl: bool,
    typed: Option<Seq<u8>>,
)
    requires
        sel < app.baud_rates.len(),
    ensures
        ({
            let shown = asking(app, sel, custom);
            let up = Key { code: KeyCode::Up, ctrl };
            let down = Key { code: KeyCode::Down, ctrl };
            &&& shown.keyed(up, typed) == (
                asking(
                    app,
                    if sel == 0 {
                        0
                    } else {
                        (sel - 1) as nat
                    },
                    custom,
                ),
                None::<ActionState>,
            )
            &&& shown.keyed(down, typed) == (
                asking(
                    app,
                    if sel + 1 == app.baud_rates.len() {
                        sel
                    } else {
                        sel + 1
                    },
                    custom,
                ),
                None::<ActionState>,
            )
        }),
{
}

/// From any speed of the list any other can be selected: by as many presses of Down, or of Up, as
/// it stands behind or before.
pub proof fn every_speed_can_be_selected(
    app: AppState,
    custom: Seq<char>,
    from: nat,
    to: nat,
)
    requires
        from < app.baud_rates.len(),
        to < app.baud_rates.len(),
    ensures
        from <= to ==> pressed(asking(app, from, custom), KeyCode::Down, (to - from) as nat)
            == asking(app, to, custom),
        to <= from ==> pressed(asking(app, from, custom), KeyCode::Up, (from - to) as nat)
            == asking(app, to, custom),
    decreases
            if from <= to {
                to - from
            } else {
                from - to
            },
{
    if from < to {
        every_speed_can_be_selected(app, custom, from, (to - 1) as nat);
        speed_window_moves(app, (to - 1) as nat, custom, false, None);
    } else if to < from {
        every_speed_can_be_selected(app, custom, from, to + 1);
        speed_window_moves(app, to + 1, custom, false, None);
    }
}

/// Digits, and nothing else.
pub open spec fn all_digits(s: Seq<char>) -> bool {
    forall|i: int| 0 <= i < s.len() ==> '0' <= #[trigger] s[i] && s[i] <= '9'
}

/// In the window for the speed, a digit is appended to the digits typed, up to eight, and
/// Backspace takes the last one away; so it undoes a digit. Any other character, and any other
/// key, is ignored.
pub proof fn speed_window_takes_digits(
    app: AppState,
    sel: nat,
    custom: Seq<char>,
    c: char,
    ctrl: bool,
    typed: Option<Seq<u8>>,
)
    requires
        all_digits(custom),
    ensures
        ({
            let shown = asking(app, sel, custom);
            let key = Key { code: KeyCode::Char(c), ctrl };
            let back = Key { code: KeyCode::Backspace, ctrl };
            let digit = '0' <= c && c <= '9';
            &&& digit && custom.len() < 8 ==> shown.keyed(key, typed) == (
                asking(app, sel, custom + seq![c]),
                None::<ActionState>,
            )
            &&& digit && custom.len() < 8 ==> shown.keyed(key, typed).0.keyed(back, typed) == (
                shown,
                None::<ActionState>,
            )
            &&& !digit || custom.len() >= 8 ==> shown.keyed(key, typed) == (
                shown,
                None::<ActionState>,
            )
            &&& custom.len() == 0 ==> shown.keyed(back, typed) == (shown, None::<ActionState>)
            &&& custom.len() > 0 ==> shown.keyed(back, typed) == (
                asking(app, sel, custom.take(custom.len() - 1)),
                None::<ActionState>,
            )
            &&& forall|other: KeyCode|
                other is Tab || other is PageUp || other is PageDown || other is Home
                    || other is End || other is Other ==> #[trigger] shown.keyed(
                    Key { code: other, ctrl },
                    typed,
                ) == (shown, None::<ActionState>)
        }),
{
    assert(vstd::utf8::is_ascii_chars(custom));
    vstd::utf8::is_ascii_chars_encode_utf8(custom);
    assert(custom + seq![c] =~= custom.push(c));
    assert(custom.push(c).drop_last() =~= custom);
    if custom.len() > 0 {
        assert(custom.drop_last() =~= custom.take(custom.len() - 1));
    }
}

proof fn lemma_number(s: Seq<char>, b: Seq<u8>)
    requires
        all_digits(s),
        b.len() == s.len(),
        forall|i: int| 0 <= i < s.len() ==> s[i] as u8 == #[trigger] b[i],
    ensures
        forall|i: int| 0 <= i < b.len() ==> is_digit(b[i]),
        decimal_value(b) == number(s),
    decreases s.len(),
{
    assert forall|i: int| 0 <= i < b.len() implies is_digit(b[i]) by {
        assert('0' <= s[i] && s[i] <= '9');
    }
    if s.len() > 0 {
        assert forall|i: int| 0 <= i < s.drop_last().len() implies s.drop_last()[i] as u8
            == #[trigger] b.drop_last()[i] by {
            assert(b[i] == b.drop_last()[i]);
        }
        lemma_number(s.drop_last(), b.drop_last());
        assert(s.last() as u8 == b[s.len() - 1]);
        assert('0' <= s[s.len() - 1]);
    }
}

/// In the window for the speed, Enter closes the window and sets the speed that was typed, where
/// that is a number above zero that fits in 32 bits, else the selected one.
pub proof fn speed_window_chooses(
    app: AppState,
    sel: nat,
    custom: Seq<char>,
    ctrl: bool,
    typed: Option<Seq<u8>>,
)
    requires
        all_digits(custom),
        sel < app.baud_rates.len(),
    ensures
        ({
            let n = number(custom);
            let (after, action) = asking(app, sel, custom).keyed(
                Key { code: KeyCode::Enter, ctrl },
                typed,
            );
            &&& after == AppState { popup: None, ..app }
            &&& action matches Some(ActionState::SetBaud(b))
            &&& custom.len() > 0 && 0 < n <= 0xffff_ffff ==> b == n
            &&& !(custom.len() > 0 && 0 < n <= 0xffff_ffff) ==> b == app.baud_rates[sel as int]
        }),
{
    assert(vstd::utf8::is_ascii_chars(custom));
    vstd::utf8::is_ascii_chars_encode_utf8(custom);
    let b = vstd::utf8::encode_utf8(custom);
    assert forall|i: int| 0 <= i < custom.len() implies custom[i] as u8 == #[trigger] b[i] by {}
    lemma_number(custom, b);
    if custom.len() > 0 {
        assert(is_digit(b[0]));
    }
}

// ---------------------------------------------------------------- the scrollback

/// Where a key of the scrollback leads, from `n` rows back on a screen of `page` rows with `all`
/// rows to go back to: one row or one page on, never beyond the first or the last.
pub open spec fn leads_to(code: KeyCode, n: int, page: int, all: int) -> int {
    let to = match code {
        KeyCode::Up => n + 1,
        KeyCode::Down => n - 1,
        KeyCode::PageUp => n + page,
        KeyCode::PageDown => n - page,
        KeyCode::Home => all,
        KeyCode::End | KeyCode::Esc | KeyCode::Enter => 0,
        KeyCode::Char(c) => match c {
            'k' => n + 1,
            'j' => n - 1,
            'b' => n + page,
            ' ' => n - page,
            'g' => all,
            'G' | 'q' => 0,
            _ => n,
        },
        _ => n,
    };
    if to < 0 {
        0
    } else if to > all {
        all
    } else {
        to
    }
}

/// A key of the scrollback moves the active line's view to where it leads, and changes nothing
/// else but the mode, which Esc, Enter and `q` leave.
pub proof fn scroll_keys_move_the_view(app: AppState, k: Key, typed: Option<Seq<u8>>)
    requires
        app.wf(),
        app.popup is None,
        app.mode == Mode::Scroll,
        0 <= app.channels[app.active as int].screen.history() <= usize::MAX,
    ensures
        ({
            let (after, action) = app.keyed(k, typed);
            let c = app.channels[app.active as int];
            let d = after.channels[app.active as int];
            let to = leads_to(
                k.code,
                app.scroll as int,
                c.screen.size.0 as int,
                c.screen.rows.len() - c.screen.size.0,
            );
            &&& action is None
            &&& after.scroll == to
            &&& d.screen.offset == to
            &&& d.screen.rows == c.screen.rows && d.screen.size == c.screen.size
            &&& d.screen.cursor == c.screen.cursor && d.screen.hidden == c.screen.hidden
            &&& d == ChannelState { screen: d.screen, ..c }
            &&& after.channels == app.channels.update(app.active as int, d)
            &&& after == AppState {
                scroll: after.scroll,
                channels: after.channels,
                mode: after.mode,
                ..app
            }
            &&& after.mode == if k.code is Esc || k.code is Enter || k.code
                == KeyCode::Char('q') {
                Mode::Normal
            } else {
                Mode::Scroll
            }
        }),
{
}

/// Page Up as a command goes into the scrollback and one page back at once.
pub proof fn page_up_scrolls_at_once(app: AppState, ctrl: bool, typed: Option<Seq<u8>>)
    requires
        app.wf(),
        app.popup is None,
        app.mode == Mode::Prefix,
        0 <= app.channels[app.active as int].screen.history() <= usize::MAX,
    ensures
        ({
            let key = Key { code: KeyCode::PageUp, ctrl };
            let scrolling = AppState { mode: Mode::Scroll, scroll: 0, ..app };
            app.keyed(key, typed) == scrolling.keyed(key, typed)
        }),
{
}

// ---------------------------------------------------------------- the list of ports

/// The window for the port offers every port of the system as often as it was given, but those
/// whose name begins with `/dev/tty.`, in the order of their names. The port in use is selected
/// where it is offered, else the first one; nothing else changes.
pub proof fn port_window_offers_the_ports(
    before: AppState,
    after: AppState,
    names: Seq<Seq<char>>,
    name: Seq<char>,
)
    requires
        offers_ports(before, after, names),
    ensures
        ({
            let path = before.channels[before.active as int].path;
            let left_out = name.len() >= 9 && name.take(9) == seq![
                '/',
                'd',
                'e',
                'v',
                '/',
                't',
                't',
                'y',
                '.',
            ];
            &&& after == AppState { popup: after.popup, ..before }
            &&& after.popup matches Some(PopupState::Port { ports, sel })
            &&& forall|i: int, j: int|
                0 <= i <= j < ports.len() ==> text_le(#[trigger] ports[i], #[trigger] ports[j])
            &&& ports.to_multiset().count(name) == if left_out {
                0
            } else {
                names.to_multiset().count(name)
            }
            &&& path is Some && ports.contains(path->0) ==> sel < ports.len()
                && ports[sel as int] == path->0
            &&& path is None || !ports.contains(path->0) ==> sel == 0
        }),
{
    let keep = |n: Seq<char>| is_offered(n);
    lemma_count_kept(names, name);
    only_call_in_ports_are_left_out(name, name.skip(9));
    let p = seq!['/', 'd', 'e', 'v', '/', 't', 't', 'y', '.'];
    if name.len() >= 9 && name.take(9) == p {
        assert(name =~= p + name.skip(9));
    }
    match before.channels[before.active as int].path {
        Some(path) => {
            match after.popup {
                Some(PopupState::Port { ports, .. }) => {
                    first_place_is_found(ports, path);
                },
                _ => {},
            }
        },
        None => {},
    }
}

proof fn lemma_count_kept(names: Seq<Seq<char>>, name: Seq<char>)
    ensures
        names.filter(|n: Seq<char>| is_offered(n)).to_multiset().count(name) == if is_offered(
            name,
        ) {
            names.to_multiset().count(name)
        } else {
            0
        },
    decreases names.len(),
{
    reveal(Seq::filter);
    let keep = |n: Seq<char>| is_offered(n);
    names.to_multiset_ensures();
    names.filter(keep).to_multiset_ensures();
    if names.len() > 0 {
        let rest = names.drop_last();
        lemma_count_kept(rest, name);
        rest.to_multiset_ensures();
        rest.filter(keep).to_multiset_ensures();
        assert(names =~= rest.push(names.last()));
    } else {
        assert(names =~= Seq::empty());
        assert(names.filter(keep) =~= Seq::empty());
    }
}

// ---------------------------------------------------------------- turns

/// A program that is to end ends, and one without a window rests; both stay as they are. Else the
/// window is looked after: it is cleared where that is wished, and drawn where anything has
/// changed or it is cleared; once only, unless anything changes again.
pub proof fn turns_do_what_is_due(app: AppState, dirty: bool, headless: bool)
    ensures
        ({
            let (turn, after, still) = next_turn(app, dirty, headless);
            &&& turn is Stop <==> app.quit
            &&& turn is Rest <==> !app.quit && headless
            &&& !(turn is Show) ==> after == app && still == dirty
            &&& turn matches Turn::Show { clear, draw } ==> {
                &&& clear <==> app.redraw
                &&& draw <==> dirty || app.redraw
                &&& !still
                &&& !after.redraw
                &&& after == AppState { redraw: after.redraw, ..app }
                &&& next_turn(after, still, headless) == (
                    Turn::Show { clear: false, draw: false },
                    after,
                    false,
                )
            }
        }),
{
}

} // verus!
