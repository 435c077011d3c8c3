//! The terminal program: its two panes and what its keys do.

use vstd::prelude::*;

use crate::channel::{Channel, ChannelState};
use crate::names::parse_size;
use crate::ports::{in_order, is_offered, list_ports};
use crate::screen::{scrollback, set_scrollback, size};
use crate::text::texts;

verus! {

/// What keys are meant for.
#[derive(Clone, Copy, PartialEq, Eq, Debug, Structural)]
pub enum Mode {
    /// The remote side.
    Normal,
    /// A command; Ctrl-A has just been pressed.
    Prefix,
    /// The scrollback.
    Scroll,
}

/// A window over the panes.
pub enum Popup {
    /// The choice of a speed: a rate of the list, or the digits typed so far.
    Baud { sel: usize, custom: String },
    /// The choice of a port.
    Port { ports: Vec<String>, sel: usize },
    /// The list of commands.
    Help,
}

/// The model of `Popup`.
pub enum PopupState {
    Baud { sel: nat, custom: Seq<char> },
    Port { ports: Seq<Seq<char>>, sel: nat },
    Help,
}

impl View for Popup {
    type V = PopupState;

    open spec fn view(&self) -> PopupState {
        match self {
            Popup::Baud { sel, custom } => PopupState::Baud { sel: *sel as nat, custom: custom@ },
            Popup::Port { ports, sel } => PopupState::Port { ports: texts(ports@), sel: *sel as nat },
            Popup::Help => PopupState::Help,
        }
    }
}

/// The model of an optional window.
pub open spec fn popup_state(p: Option<Popup>) -> Option<PopupState> {
    match p {
        Some(p) => Some(p@),
        None => None,
    }
}

/// A key of the keyboard.
#[derive(Clone, Copy, PartialEq, Eq, Debug)]
pub enum KeyCode {
    Char(char),
    Tab,
    Enter,
    Esc,
    Backspace,
    Up,
    Down,
    PageUp,
    PageDown,
    Home,
    End,
    /// Any other key.
    Other,
}

/// A key that was pressed, perhaps with Ctrl.
#[derive(Clone, Copy, PartialEq, Eq, Debug)]
pub struct Key {
    pub code: KeyCode,
    pub ctrl: bool,
}

/// What is to be done to the active line.
#[derive(Debug)]
pub enum Action {
    /// Send these bytes.
    Write(Vec<u8>),
    /// Send this text in the line's character code.
    SendText(String),
    /// Offer the system's ports for choice.
    ListPorts,
    /// Use the character code with this label.
    SetEncoding(String),
    /// Let Enter send the next kind of line end.
    NextNewline,
    /// Clear the screen.
    Clear,
    /// Open the port that is set up.
    Open,
    /// Ask the modem for its name.
    ProbeModem,
    /// Hang up.
    HangUp,
    /// Close the port.
    Close,
    /// Start or stop logging.
    ToggleLog,
    /// Set the speed.
    SetBaud(u32),
}

/// The model of `Action`.
pub enum ActionState {
    Write(Seq<u8>),
    SendText(Seq<char>),
    ListPorts,
    SetEncoding(Seq<char>),
    NextNewline,
    Clear,
    Open,
    ProbeModem,
    HangUp,
    Close,
    ToggleLog,
    SetBaud(u32),
}

impl View for Action {
    type V = ActionState;

    open spec fn view(&self) -> ActionState {
        match self {
            Action::Write(bytes) => ActionState::Write(bytes@),
            Action::SendText(s) => ActionState::SendText(s@),
            Action::ListPorts => ActionState::ListPorts,
            Action::SetEncoding(s) => ActionState::SetEncoding(s@),
            Action::NextNewline => ActionState::NextNewline,
            Action::Clear => ActionState::Clear,
            Action::Open => ActionState::Open,
            Action::ProbeModem => ActionState::ProbeModem,
            Action::HangUp => ActionState::HangUp,
            Action::Close => ActionState::Close,
            Action::ToggleLog => ActionState::ToggleLog,
            Action::SetBaud(b) => ActionState::SetBaud(*b),
        }
    }
}

/// The model of an optional action.
pub open spec fn action_state(a: Option<Action>) -> Option<ActionState> {
    match a {
        Some(a) => Some(a@),
        None => None,
    }
}

/// The terminal program.
pub struct App {
    pub channels: [Channel; 2],
    /// The pane that gets the keys.
    pub active: usize,
    pub mode: Mode,
    pub popup: Option<Popup>,
    /// Whether the active pane takes the whole window.
    pub zoom: bool,
    /// By how many rows the active pane is scrolled back.
    pub scroll: usize,
    pub quit: bool,
    /// Whether the window must be cleared before it is drawn again.
    pub redraw: bool,
    /// The speeds that are offered.
    pub baud_rates: Vec<u32>,
    /// The labels of the character codes, in the order in which they are gone through.
    pub encodings: Vec<String>,
}

/// The model of `App`.
#[verifier::ext_equal]
pub struct AppState {
    pub channels: Seq<ChannelState>,
    pub active: nat,
    pub mode: Mode,
    pub popup: Option<PopupState>,
    pub zoom: bool,
    pub scroll: nat,
    pub quit: bool,
    pub redraw: bool,
    pub baud_rates: Seq<u32>,
    pub encodings: Seq<Seq<char>>,
}

impl View for App {
    type V = AppState;

    open spec fn view(&self) -> AppState {
        AppState {
            channels: self.channels@.map_values(|c: Channel| c@),
            active: self.active as nat,
            mode: self.mode,
            popup: popup_state(self.popup),
            zoom: self.zoom,
            scroll: self.scroll as nat,
            quit: self.quit,
            redraw: self.redraw,
            baud_rates: self.baud_rates@,
            encodings: texts(self.encodings@),
        }
    }
}

/// Where `x` comes first in `s`.
pub open spec fn first_index<T>(s: Seq<T>, x: T) -> Option<nat>
    decreases s.len(),
{
    if s.len() == 0 {
        None
    } else if s[0] == x {
        Some(0)
    } else {
        match first_index(s.skip(1), x) {
            Some(i) => Some(i + 1),
            None => None,
        }
    }
}

/// Where `x` comes first in `s`, or `other` where it does not.
pub open spec fn index_or<T>(s: Seq<T>, x: T, other: nat) -> nat {
    match first_index(s, x) {
        Some(i) => i,
        None => other,
    }
}

/// Ctrl-A, which starts a command.
pub open spec fn is_prefix_key(k: Key) -> bool {
    k.ctrl && (k.code == KeyCode::Char('a') || k.code == KeyCode::Char('A'))
}

/// A key that leaves the scrollback.
pub open spec fn leaves_scroll(code: KeyCode) -> bool {
    code == KeyCode::Esc || code == KeyCode::Char('q') || code == KeyCode::Enter
}

/// How far a key of the scrollback asks to scroll back, from `scroll` rows on a screen of `page`
/// rows.
pub open spec fn scroll_target(code: KeyCode, scroll: nat, page: nat) -> nat {
    if code == KeyCode::Up || code == KeyCode::Char('k') {
        scroll + 1
    } else if code == KeyCode::Down || code == KeyCode::Char('j') {
        if scroll >= 1 {
            (scroll - 1) as nat
        } else {
            0
        }
    } else if code == KeyCode::PageUp || code == KeyCode::Char('b') {
        scroll + page
    } else if code == KeyCode::PageDown || code == KeyCode::Char(' ') {
        if scroll >= page {
            (scroll - page) as nat
        } else {
            0
        }
    } else if code == KeyCode::Home || code == KeyCode::Char('g') {
        usize::MAX as nat
    } else if code == KeyCode::End || code == KeyCode::Char('G') || leaves_scroll(code) {
        0
    } else {
        scroll
    }
}

/// The speed that was chosen: the one that was typed, where that is a number above zero, else
/// the one that is selected.
pub open spec fn chosen_baud(custom: Seq<char>, selected: u32) -> u32 {
    match crate::names::size_value(vstd::utf8::encode_utf8(custom)) {
        Some(n) => if 0 < n <= u32::MAX {
            n as u32
        } else {
            selected
        },
        None => selected,
    }
}

impl AppState {
    /// What holds of every program: one of the two panes is active, there are speeds and
    /// character codes to choose from, and windows select what there is.
    pub open spec fn wf(self) -> bool {
        &&& self.channels.len() == 2
        &&& self.active < 2
        &&& self.baud_rates.len() > 4
        &&& self.encodings.len() > 0
        &&& self.popup matches Some(PopupState::Baud { sel, .. }) ==> sel < self.baud_rates.len()
        &&& self.popup matches Some(PopupState::Port { ports, sel }) ==> sel < ports.len() || sel
            == 0
    }

    /// Whether a page more can be scrolled back without an overflow.
    pub open spec fn can_scroll(self) -> bool {
        self.scroll + 65535 <= usize::MAX
    }

    /// Whether the next key is one for the scrollback.
    pub open spec fn scrolls_next(self) -> bool {
        self.mode == Mode::Scroll && self.popup is None
    }

    /// The active line.
    pub open spec fn chan(self) -> ChannelState {
        self.channels[self.active as int]
    }

    /// The program with this active line.
    pub open spec fn with_chan(self, c: ChannelState) -> AppState {
        AppState { channels: self.channels.update(self.active as int, c), ..self }
    }

    /// What a key does to the scrollback: it scrolls as far as there are rows, and the position
    /// is what could be reached.
    pub open spec fn scrolled(self, code: KeyCode) -> AppState {
        let c = self.chan();
        let screen = c.screen.scrolled_to(
            scroll_target(code, self.scroll, c.screen.size.0 as nat),
        );
        AppState {
            scroll: screen.offset,
            mode: if leaves_scroll(code) {
                Mode::Normal
            } else {
                self.mode
            },
            ..self.with_chan(ChannelState { screen, ..c })
        }
    }

    /// What a key does as a command, and what is to be done to the line for it.
    pub open spec fn commanded(self, k: Key) -> (AppState, Option<ActionState>) {
        let c = self.chan();
        if is_prefix_key(k) {
            (self, Some(ActionState::Write(seq![1u8])))
        } else if k.ctrl && k.code == KeyCode::Char('l') {
            (AppState { redraw: true, ..self }, None)
        } else {
            match k.code {
                KeyCode::Tab | KeyCode::Up | KeyCode::Down => (self.other_pane(), None),
                KeyCode::PageUp => (
                    AppState { mode: Mode::Scroll, scroll: 0, ..self }.scrolled(k.code),
                    None,
                ),
                KeyCode::Char(ch) => {
                    if ch == 'o' {
                        (self.other_pane(), None)
                    } else if ch == '1' {
                        (AppState { active: 0, ..self }, None)
                    } else if ch == '2' {
                        (AppState { active: 1, ..self }, None)
                    } else if ch == 'b' {
                        let sel = index_or(self.baud_rates, c.baud, 4);
                        (
                            AppState {
                                popup: Some(PopupState::Baud { sel, custom: Seq::empty() }),
                                ..self
                            },
                            None,
                        )
                    } else if ch == 'p' {
                        (self, Some(ActionState::ListPorts))
                    } else if ch == 'e' {
                        let i = index_or(self.encodings, c.encoding, 0);
                        let next = self.encodings[((i + 1) % self.encodings.len()) as int];
                        (self, Some(ActionState::SetEncoding(next)))
                    } else if ch == 'n' {
                        (self, Some(ActionState::NextNewline))
                    } else if ch == 'l' {
                        (self.with_chan(ChannelState { local_echo: !c.local_echo, ..c }), None)
                    } else if ch == 'h' {
                        let backspace = if c.backspace == 0x08 {
                            0x7fu8
                        } else {
                            0x08u8
                        };
                        (self.with_chan(ChannelState { backspace, ..c }), None)
                    } else if ch == 'c' {
                        (self, Some(ActionState::Clear))
                    } else if ch == 'r' {
                        (self, Some(ActionState::Open))
                    } else if ch == 'i' {
                        (self, Some(ActionState::ProbeModem))
                    } else if ch == 'H' {
                        (self, Some(ActionState::HangUp))
                    } else if ch == 'x' {
                        (self, Some(ActionState::Close))
                    } else if ch == 'L' {
                        (self, Some(ActionState::ToggleLog))
                    } else if ch == 'z' {
                        (AppState { zoom: !self.zoom, ..self }, None)
                    } else if ch == '[' {
                        (AppState { mode: Mode::Scroll, scroll: 0, ..self }, None)
                    } else if ch == '?' {
                        (AppState { popup: Some(PopupState::Help), ..self }, None)
                    } else if ch == 'q' {
                        (AppState { quit: true, ..self }, None)
                    } else {
                        (self, None)
                    }
                },
                _ => (self, None),
            }
        }
    }

    /// The other pane becomes active.
    pub open spec fn other_pane(self) -> AppState {
        AppState { active: (1 - self.active) as nat, ..self }
    }

    /// What a key does to the window for the speed.
    pub open spec fn baud_keyed(self, sel: nat, custom: Seq<char>, code: KeyCode) -> (
        AppState,
        Option<ActionState>,
    ) {
        let show = |sel: nat, custom: Seq<char>|
            AppState { popup: Some(PopupState::Baud { sel, custom }), ..self };
        match code {
            KeyCode::Esc => (AppState { popup: None, ..self }, None),
            KeyCode::Up => (
                show(
                    if sel >= 1 {
                        (sel - 1) as nat
                    } else {
                        0
                    },
                    custom,
                ),
                None,
            ),
            KeyCode::Down => (
                show(
                    if sel + 1 < self.baud_rates.len() {
                        sel + 1
                    } else {
                        (self.baud_rates.len() - 1) as nat
                    },
                    custom,
                ),
                None,
            ),
            KeyCode::Char(c) => {
                if '0' <= c && c <= '9' && vstd::utf8::encode_utf8(custom).len() < 8 {
                    (show(sel, custom.push(c)), None)
                } else {
                    (self, None)
                }
            },
            KeyCode::Backspace => (
                show(
                    sel,
                    if custom.len() > 0 {
                        custom.drop_last()
                    } else {
                        custom
                    },
                ),
                None,
            ),
            KeyCode::Enter => (
                AppState { popup: None, ..self },
                Some(ActionState::SetBaud(chosen_baud(custom, self.baud_rates[sel as int]))),
            ),
            _ => (self, None),
        }
    }

    /// What a key does to the window for the port.
    pub open spec fn port_keyed(self, ports: Seq<Seq<char>>, sel: nat, code: KeyCode) -> (
        AppState,
        Option<ActionState>,
    ) {
        let show = |sel: nat| AppState { popup: Some(PopupState::Port { ports, sel }), ..self };
        match code {
            KeyCode::Esc => (AppState { popup: None, ..self }, None),
            KeyCode::Up => (
                show(
                    if sel >= 1 {
                        (sel - 1) as nat
                    } else {
                        0
                    },
                ),
                None,
            ),
            KeyCode::Down => (
                show(
                    if sel + 1 < ports.len() {
                        sel + 1
                    } else if ports.len() > 0 {
                        (ports.len() - 1) as nat
                    } else {
                        0
                    },
                ),
                None,
            ),
            KeyCode::Enter => {
                let s = AppState { popup: None, ..self };
                if sel < ports.len() {
                    (
                        s.with_chan(ChannelState { path: Some(ports[sel as int]), ..s.chan() }),
                        Some(ActionState::Open),
                    )
                } else {
                    (s, None)
                }
            },
            _ => (self, None),
        }
    }

    /// What a key does to the window that is shown.
    pub open spec fn popup_keyed(self, k: Key) -> (AppState, Option<ActionState>) {
        match self.popup {
            Some(PopupState::Help) => (AppState { popup: None, ..self }, None),
            Some(PopupState::Baud { sel, custom }) => self.baud_keyed(sel, custom, k.code),
            Some(PopupState::Port { ports, sel }) => self.port_keyed(ports, sel, k.code),
            None => (self, None),
        }
    }

    /// What a key does, and what is to be done to the line for it; `typed` is what the key sends
    /// when it is meant for the remote side.
    pub open spec fn keyed(self, k: Key, typed: Option<Seq<u8>>) -> (
        AppState,
        Option<ActionState>,
    ) {
        if self.popup is Some {
            self.popup_keyed(k)
        } else {
            match self.mode {
                Mode::Normal => if is_prefix_key(k) {
                    (AppState { mode: Mode::Prefix, ..self }, None)
                } else {
                    (
                        self,
                        match typed {
                            Some(bytes) => Some(ActionState::Write(bytes)),
                            None => None,
                        },
                    )
                },
                Mode::Prefix => AppState { mode: Mode::Normal, ..self }.commanded(k),
                Mode::Scroll => (self.scrolled(k.code), None),
            }
        }
    }
}

impl App {
    /// A program with these lines, which offers these speeds and character codes.
    pub fn new(
        channels: [Channel; 2],
        baud_rates: Vec<u32>,
        encodings: Vec<String>,
    ) -> (r: App)
        requires
            baud_rates@.len() > 4,
            encodings@.len() > 0,
        ensures
            r@ == (AppState {
                channels: channels@.map_values(|c: Channel| c@),
                active: 0,
                mode: Mode::Normal,
                popup: None,
                zoom: false,
                scroll: 0,
                quit: false,
                redraw: false,
                baud_rates: baud_rates@,
                encodings: texts(encodings@),
            }),
            r@.wf(),
            r@.can_scroll(),
    {
        App {
            channels,
            active: 0,
            mode: Mode::Normal,
            popup: None,
            zoom: false,
            scroll: 0,
            quit: false,
            redraw: false,
            baud_rates,
            encodings,
        }
    }
}

/// Whether `k` is Ctrl-A.
pub fn is_ctrl_a(k: &Key) -> (r: bool)
    ensures
        r == is_prefix_key(*k),
{
    k.ctrl && matches!(k.code, KeyCode::Char('a') | KeyCode::Char('A'))
}

/// Where `x` comes first in `list`, or `other` where it does not.
fn position(list: &Vec<u32>, x: u32, other: usize) -> (r: usize)
    ensures
        r == index_or(list@, x, other as nat),
        r < list@.len() || r == other,
{
    let mut i: usize = 0;
    assert(list@.skip(0) =~= list@);
    while i < list.len()
        invariant
            i <= list@.len(),
            first_index(list@, x) == match first_index(list@.skip(i as int), x) {
                Some(j) => Some((i + j) as nat),
                None => None,
            },
        decreases list@.len() - i,
    {
        if list[i] == x {
            return i;
        }
        assert(list@.skip(i as int).skip(1) =~= list@.skip(i + 1));
        i = i + 1;
    }
    other
}

/// Where `x` comes first in `list`, or 0 where it does not.
fn text_position(list: &Vec<String>, x: &String) -> (r: usize)
    ensures
        r == index_or(texts(list@), x@, 0),
        r < list@.len() || r == 0,
{
    let mut i: usize = 0;
    let ghost all = texts(list@);
    assert(all.skip(0) =~= all);
    while i < list.len()
        invariant
            i <= list@.len(),
            all == texts(list@),
            first_index(all, x@) == match first_index(all.skip(i as int), x@) {
                Some(j) => Some((i + j) as nat),
                None => None,
            },
        decreases list@.len() - i,
    {
        assert(all.skip(i as int)[0] == list@[i as int]@);
        if list[i] == *x {
            return i;
        }
        assert(all.skip(i as int).skip(1) =~= all.skip(i + 1));
        i = i + 1;
    }
    0
}

/// Handles a key in the scrollback.
pub fn handle_scroll_key(app: &mut App, k: Key)
    requires
        old(app)@.wf(),
        old(app)@.can_scroll(),
    ensures
        final(app)@ == old(app)@.scrolled(k.code),
        final(app)@.wf(),
{
    let i = app.active;
    let page = size(&app.channels[i].parser).0 as usize;
    let target: usize = match k.code {
        KeyCode::Up | KeyCode::Char('k') => app.scroll + 1,
        KeyCode::Down | KeyCode::Char('j') => app.scroll.saturating_sub(1),
        KeyCode::PageUp | KeyCode::Char('b') => app.scroll + page,
        KeyCode::PageDown | KeyCode::Char(' ') => app.scroll.saturating_sub(page),
        KeyCode::Home | KeyCode::Char('g') => usize::MAX,
        KeyCode::End | KeyCode::Char('G') => 0,
        KeyCode::Esc | KeyCode::Char('q') | KeyCode::Enter => 0,
        _ => app.scroll,
    };
    set_scrollback(&mut app.channels[i].parser, target);
    app.scroll = scrollback(&app.channels[i].parser);
    if matches!(k.code, KeyCode::Esc | KeyCode::Char('q') | KeyCode::Enter) {
        app.mode = Mode::Normal;
    }
    assert(app@.channels =~= old(app)@.scrolled(k.code).channels);
}

/// Handles a key as a command, and returns what is to be done to the line for it.
pub fn handle_command(app: &mut App, k: Key) -> (r: Option<Action>)
    requires
        old(app)@.wf(),
    ensures
        final(app)@ == old(app)@.commanded(k).0,
        action_state(r) == old(app)@.commanded(k).1,
        final(app)@.wf(),
{
    if is_ctrl_a(&k) {
        let bytes = vec![0x01u8];
        assert(bytes@ =~= seq![1u8]);
        return Some(Action::Write(bytes));
    }
    if k.ctrl && matches!(k.code, KeyCode::Char('l')) {
        app.redraw = true;
        return None;
    }
    let i = app.active;
    match k.code {
        KeyCode::Tab | KeyCode::Char('o') | KeyCode::Up | KeyCode::Down => {
            app.active = 1 - app.active;
            None
        },
        KeyCode::Char('1') => {
            app.active = 0;
            None
        },
        KeyCode::Char('2') => {
            app.active = 1;
            None
        },
        KeyCode::Char('b') => {
            let sel = position(&app.baud_rates, app.channels[i].cfg.baud, 4);
            let custom = String::new();
            assert(custom@ =~= Seq::empty());
            app.popup = Some(Popup::Baud { sel, custom });
            None
        },
        KeyCode::Char('p') => Some(Action::ListPorts),
        KeyCode::Char('e') => {
            let at = text_position(&app.encodings, &app.channels[i].encoding);
            assert(at < app.encodings@.len());
            let n = app.encodings.len();
            let next = (at + 1) % n;
            Some(Action::SetEncoding(app.encodings[next].clone()))
        },
        KeyCode::Char('n') => Some(Action::NextNewline),
        KeyCode::Char('l') => {
            app.channels[i].local_echo = !app.channels[i].local_echo;
            assert(app@.channels =~= old(app)@.commanded(k).0.channels);
            None
        },
        KeyCode::Char('h') => {
            app.channels[i].backspace = if app.channels[i].backspace == 0x08 {
                0x7f
            } else {
                0x08
            };
            assert(app@.channels =~= old(app)@.commanded(k).0.channels);
            None
        },
        KeyCode::Char('c') => Some(Action::Clear),
        KeyCode::Char('r') => Some(Action::Open),
        KeyCode::Char('i') => Some(Action::ProbeModem),
        KeyCode::Char('H') => Some(Action::HangUp),
        KeyCode::Char('x') => Some(Action::Close),
        KeyCode::Char('L') => Some(Action::ToggleLog),
        KeyCode::Char('z') => {
            app.zoom = !app.zoom;
            None
        },
        KeyCode::Char('[') => {
            app.mode = Mode::Scroll;
            app.scroll = 0;
            None
        },
        KeyCode::PageUp => {
            app.mode = Mode::Scroll;
            app.scroll = 0;
            handle_scroll_key(app, k);
            None
        },
        KeyCode::Char('?') => {
            app.popup = Some(Popup::Help);
            None
        },
        KeyCode::Char('q') => {
            app.quit = true;
            None
        },
        _ => None,
    }
}

/// The speed that was chosen.
fn baud_of(custom: &str, selected: u32) -> (r: u32)
    ensures
        r == chosen_baud(custom@, selected),
{
    match parse_size(custom.as_bytes()) {
        Some(n) => if 0 < n && n <= 0xffff_ffff {
            n as u32
        } else {
            selected
        },
        None => selected,
    }
}

/// Handles a key in the window that is shown, and returns what is to be done to the line for it.
pub fn handle_popup_key(app: &mut App, k: Key) -> (r: Option<Action>)
    requires
        old(app)@.wf(),
    ensures
        final(app)@ == old(app)@.popup_keyed(k).0,
        action_state(r) == old(app)@.popup_keyed(k).1,
        final(app)@.wf(),
{
    let i = app.active;
    match app.popup.take() {
        None => None,
        Some(Popup::Help) => None,
        Some(Popup::Baud { sel, custom }) => {
            let mut sel = sel;
            let mut custom = custom;
            match k.code {
                KeyCode::Esc => {
                    return None;
                },
                KeyCode::Up => {
                    sel = sel.saturating_sub(1);
                },
                KeyCode::Down => {
                    let n = app.baud_rates.len();
                    sel = if sel + 1 < n {
                        sel + 1
                    } else {
                        n - 1
                    };
                },
                KeyCode::Char(c) => {
                    if '0' <= c && c <= '9' && custom.as_str().as_bytes().len() < 8 {
                        custom.push(c);
                    }
                },
                KeyCode::Backspace => {
                    custom.pop();
                },
                KeyCode::Enter => {
                    let baud = baud_of(custom.as_str(), app.baud_rates[sel]);
                    return Some(Action::SetBaud(baud));
                },
                _ => {},
            }
            app.popup = Some(Popup::Baud { sel, custom });
            None
        },
        Some(Popup::Port { ports, sel }) => {
            let mut sel = sel;
            match k.code {
                KeyCode::Esc => {
                    return None;
                },
                KeyCode::Up => {
                    sel = sel.saturating_sub(1);
                },
                KeyCode::Down => {
                    sel = if ports.len() == 0 {
                        0
                    } else if sel + 1 < ports.len() {
                        sel + 1
                    } else {
                        ports.len() - 1
                    };
                },
                KeyCode::Enter => {
                    if sel < ports.len() {
                        app.channels[i].cfg.path = Some(ports[sel].clone());
                        assert(app@.channels =~= old(app)@.popup_keyed(k).0.channels);
                        return Some(Action::Open);
                    }
                    return None;
                },
                _ => {},
            }
            app.popup = Some(Popup::Port { ports, sel });
            None
        },
    }
}

/// Handles a key, and returns what is to be done to the active line for it; `typed` is what the
/// key sends when it is meant for the remote side.
pub fn handle_key(app: &mut App, k: Key, typed: Option<Vec<u8>>) -> (r: Option<Action>)
    requires
        old(app)@.wf(),
        old(app)@.scrolls_next() ==> old(app)@.can_scroll(),
    ensures
        ({
            let bytes = match typed {
                Some(b) => Some(b@),
                None => None,
            };
            &&& final(app)@ == old(app)@.keyed(k, bytes).0
            &&& action_state(r) == old(app)@.keyed(k, bytes).1
        }),
        final(app)@.wf(),
{
    if app.popup.is_some() {
        return handle_popup_key(app, k);
    }
    match app.mode {
        Mode::Normal => {
            if is_ctrl_a(&k) {
                app.mode = Mode::Prefix;
                None
            } else {
                match typed {
                    Some(bytes) => Some(Action::Write(bytes)),
                    None => None,
                }
            }
        },
        Mode::Prefix => {
            app.mode = Mode::Normal;
            handle_command(app, k)
        },
        Mode::Scroll => {
            handle_scroll_key(app, k);
            None
        },
    }
}

/// Whether `after` is `before` with the window for the port, which offers what there is to offer
/// of these ports in order; the one in use is selected, where it is offered.
pub open spec fn offers_ports(before: AppState, after: AppState, names: Seq<Seq<char>>) -> bool {
    &&& after == (AppState { popup: after.popup, ..before })
    &&& after.popup matches Some(PopupState::Port { ports, sel }) && {
        &&& in_order(ports)
        &&& ports.to_multiset() == names.filter(|n: Seq<char>| is_offered(n)).to_multiset()
        &&& sel == match before.chan().path {
            Some(p) => index_or(ports, p, 0),
            None => 0,
        }
    }
}

/// Offers the ports of the system for choice; the one in use is selected, where it is offered.
pub fn show_ports(app: &mut App, names: Vec<String>)
    requires
        old(app)@.wf(),
    ensures
        offers_ports(old(app)@, final(app)@, texts(names@)),
        final(app)@ == (AppState { popup: final(app)@.popup, ..old(app)@ }),
        final(app)@.popup matches Some(PopupState::Port { ports, sel }) && {
            &&& in_order(ports)
            &&& ports.to_multiset() == texts(names@).filter(
                |n: Seq<char>| is_offered(n),
            ).to_multiset()
            &&& sel == match old(app)@.chan().path {
                Some(p) => index_or(ports, p, 0),
                None => 0,
            }
        },
        final(app)@.wf(),
{
    let ports = list_ports(names);
    let sel: usize = match &app.channels[app.active].cfg.path {
        Some(p) => text_position(&ports, p),
        None => 0,
    };
    app.popup = Some(Popup::Port { ports, sel });
}

// ---------------------------------------------------------------- laws of the keys

/// Ctrl-A twice sends the byte 1 and leaves everything else as it was.
pub proof fn prefix_twice_sends_it(app: AppState, a: Key, b: Key, typed: Option<Seq<u8>>)
    requires
        app.popup is None,
        app.mode == Mode::Normal,
        is_prefix_key(a),
        is_prefix_key(b),
    ensures
        app.keyed(a, typed).1 is None,
        app.keyed(a, typed).0.keyed(b, typed) == (app, Some(ActionState::Write(seq![1u8]))),
{
    let p = app.keyed(a, typed).0;
    assert((AppState { mode: Mode::Normal, ..p }) =~= app);
}

/// A key for the remote side changes nothing here.
pub proof fn typing_changes_nothing(app: AppState, k: Key, typed: Option<Seq<u8>>)
    requires
        app.popup is None,
        app.mode == Mode::Normal,
        !is_prefix_key(k),
    ensures
        app.keyed(k, typed).0 == app,
{
}

/// Every command leads back to keys for the remote side, except into the scrollback.
pub proof fn commands_end_the_prefix(app: AppState, k: Key, typed: Option<Seq<u8>>)
    requires
        app.popup is None,
        app.mode == Mode::Prefix,
    ensures
        app.keyed(k, typed).0.mode != Mode::Prefix,
        app.keyed(k, typed).0.mode == Mode::Scroll ==> k.code == KeyCode::Char('[') || k.code
            == KeyCode::PageUp,
{
}

/// Commands keep one of the two panes active: four keys switch to the other one, and back when
/// pressed again, two keys choose one, and no other key changes it. Only `q` ends the program.
pub proof fn commands_choose_panes(app: AppState, k: Key)
    requires
        app.wf(),
    ensures
        ({
            let after = app.commanded(k).0;
            let switch = k.code == KeyCode::Tab || k.code == KeyCode::Char('o') || k.code
                == KeyCode::Up || k.code == KeyCode::Down;
            &&& after.active < 2
            &&& switch ==> after.active != app.active
            &&& switch ==> after.commanded(k).0.active == app.active
            &&& k.code == KeyCode::Char('1') ==> after.active == 0
            &&& k.code == KeyCode::Char('2') ==> after.active == 1
            &&& !switch && k.code != KeyCode::Char('1') && k.code != KeyCode::Char('2')
                ==> after.active == app.active
            &&& after.quit == (app.quit || k.code == KeyCode::Char('q'))
        }),
{
}

/// Switching the pane, the zoom, the echo or the backspace key twice changes nothing, where the
/// backspace key sent one of its two codes.
pub proof fn switches_switch_back(app: AppState, k: Key)
    requires
        app.wf(),
        !k.ctrl,
        k.code == KeyCode::Tab || k.code == KeyCode::Char('o') || k.code == KeyCode::Char('z')
            || k.code == KeyCode::Char('l') || k.code == KeyCode::Char('h'),
        app.chan().backspace == 0x08 || app.chan().backspace == 0x7f,
    ensures
        app.commanded(k).0.commanded(k).0 == app,
{
    let a = app.commanded(k).0;
    let b = a.commanded(k).0;
    assert(a.chan() == a.channels[a.active as int]);
    assert(b.channels =~= app.channels);
    assert(b =~= app);
}

/// The scrollback never goes beyond the rows there are, and its position is what is in view.
pub proof fn scroll_stays_in_history(app: AppState, code: KeyCode)
    requires
        app.wf(),
        app.chan().screen.history() >= 0,
    ensures
        app.scrolled(code).scroll <= app.chan().screen.history(),
        app.scrolled(code).scroll == app.scrolled(code).chan().screen.offset,
        app.scrolled(code).chan().screen.rows == app.chan().screen.rows,
{
}

/// The keys that leave the scrollback put the screen itself back in view.
pub proof fn leaving_scroll_shows_the_screen(app: AppState, code: KeyCode)
    requires
        app.wf(),
        app.chan().screen.history() >= 0,
        leaves_scroll(code),
    ensures
        app.scrolled(code).mode == Mode::Normal,
        app.scrolled(code).scroll == 0,
        app.scrolled(code).chan().screen.offset == 0,
{
}

/// Scrolling back and forth by the same key pair comes back, where there are rows enough.
pub proof fn scrolling_back_returns(app: AppState, up: KeyCode, down: KeyCode)
    requires
        app.wf(),
        app.scroll == app.chan().screen.offset,
        up == KeyCode::Up && down == KeyCode::Down || up == KeyCode::PageUp && down
            == KeyCode::PageDown,
        scroll_target(up, app.scroll, app.chan().screen.size.0 as nat)
            <= app.chan().screen.history(),
    ensures
        app.scrolled(up).scrolled(down) == app,
{
    let a = app.scrolled(up);
    let b = a.scrolled(down);
    assert(b.chan().screen =~= app.chan().screen);
    assert(b.chan() =~= app.chan());
    assert(b.channels =~= app.channels);
    assert(b =~= app);
}

/// A window stays until a key closes it: Esc closes every window, and any key closes the help.
pub proof fn esc_closes_windows(app: AppState, k: Key)
    requires
        app.popup is Some,
        k.code == KeyCode::Esc || app.popup == Some(PopupState::Help),
    ensures
        app.popup_keyed(k).0 == (AppState { popup: None, ..app }),
        app.popup_keyed(k).1 is None,
{
}

// ---------------------------------------------------------------- the main loop

/// What the keyboard's side brings.
#[derive(Debug)]
pub enum Input {
    /// A key, or its release.
    Key { key: Key, release: bool },
    /// Text that was pasted.
    Paste(String),
    /// Anything else.
    Other,
}

/// The model of `Input`.
pub enum InputState {
    Key { key: Key, release: bool },
    Paste(Seq<char>),
    Other,
}

impl View for Input {
    type V = InputState;

    open spec fn view(&self) -> InputState {
        match self {
            Input::Key { key, release } => InputState::Key { key: *key, release: *release },
            Input::Paste(s) => InputState::Paste(s@),
            Input::Other => InputState::Other,
        }
    }
}

impl AppState {
    /// What an input does: keys count when they go down, and text is pasted only to the remote
    /// side.
    pub open spec fn handled(self, input: InputState, typed: Option<Seq<u8>>) -> (
        AppState,
        Option<ActionState>,
    ) {
        match input {
            InputState::Key { key, release } => if release {
                (self, None)
            } else {
                self.keyed(key, typed)
            },
            InputState::Paste(s) => if self.mode == Mode::Normal && self.popup is None {
                (self, Some(ActionState::SendText(s)))
            } else {
                (self, None)
            },
            InputState::Other => (self, None),
        }
    }
}

/// Handles an input, and returns what is to be done to the active line for it; `typed` is what
/// the key sends when it is meant for the remote side.
pub fn handle_input(app: &mut App, input: Input, typed: Option<Vec<u8>>) -> (r: Option<Action>)
    requires
        old(app)@.wf(),
        old(app)@.scrolls_next() ==> old(app)@.can_scroll(),
    ensures
        ({
            let bytes = match typed {
                Some(b) => Some(b@),
                None => None,
            };
            &&& final(app)@ == old(app)@.handled(input@, bytes).0
            &&& action_state(r) == old(app)@.handled(input@, bytes).1
        }),
        final(app)@.wf(),
{
    match input {
        Input::Key { key, release } => {
            if release {
                None
            } else {
                handle_key(app, key, typed)
            }
        },
        Input::Paste(s) => {
            if app.mode == Mode::Normal && app.popup.is_none() {
                Some(Action::SendText(s))
            } else {
                None
            }
        },
        Input::Other => None,
    }
}

/// What one turn of the main loop has to do, once what the lines brought is dealt with.
#[derive(Clone, Copy, PartialEq, Eq, Debug, Structural)]
pub enum Turn {
    /// End the program.
    Stop,
    /// Without a window: rest for a moment.
    Rest,
    /// Clear and draw the window where that is called for, then look for input.
    Show { clear: bool, draw: bool },
}

/// What the next turn has to do, and the program and `dirty` afterwards.
pub open spec fn next_turn(app: AppState, dirty: bool, headless: bool) -> (Turn, AppState, bool) {
    if app.quit {
        (Turn::Stop, app, dirty)
    } else if headless {
        (Turn::Rest, app, dirty)
    } else {
        (
            Turn::Show { clear: app.redraw, draw: dirty || app.redraw },
            AppState { redraw: false, ..app },
            false,
        )
    }
}

/// What the next turn has to do. `dirty` says whether anything has changed since the window was
/// drawn, and is taken back together with the wish to clear it.
pub fn run(app: &mut App, dirty: &mut bool, headless: bool) -> (r: Turn)
    ensures
        (r, final(app)@, *final(dirty)) == next_turn(old(app)@, *old(dirty), headless),
        r == (if old(app)@.quit {
            Turn::Stop
        } else if headless {
            Turn::Rest
        } else {
            Turn::Show { clear: old(app)@.redraw, draw: *old(dirty) || old(app)@.redraw }
        }),
        final(app)@ == (if r is Show {
            AppState { redraw: false, ..old(app)@ }
        } else {
            old(app)@
        }),
        *final(dirty) == (if r is Show {
            false
        } else {
            *old(dirty)
        }),
{
    if app.quit {
        return Turn::Stop;
    }
    if headless {
        return Turn::Rest;
    }
    let clear = app.redraw;
    app.redraw = false;
    let draw = *dirty || clear;
    *dirty = false;
    Turn::Show { clear, draw }
}

} // verus!
