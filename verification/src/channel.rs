//! One of the two serial lines, as far as the terminal's keys and screen are concerned.

use vstd::prelude::*;

use crate::screen::{screen_state, ScreenState};

verus! {

/// How a line is set up.
pub struct PortConfig {
    /// The port, if one was chosen.
    pub path: Option<String>,
    /// The speed in bits per second.
    pub baud: u32,
    /// The form of a character, such as `8N1`.
    pub format: String,
}

/// A serial line and its terminal.
pub struct Channel {
    /// The letter of the pane.
    pub name: String,
    pub cfg: PortConfig,
    /// Whether the port is open.
    pub open: bool,
    /// The labels of the character code and of what Enter sends.
    pub encoding: String,
    pub newline: String,
    /// What the backspace key sends.
    pub backspace: u8,
    /// Whether what is typed is shown at once.
    pub local_echo: bool,
    /// Whether what is received is logged.
    pub logging: bool,
    /// The name of the modem, once it is known.
    pub modem: Option<String>,
    /// Bytes received and sent.
    pub rx_bytes: u64,
    pub tx_bytes: u64,
    /// What there is to say of the line.
    pub status: String,
    pub parser: vt100::Parser,
}

/// The model of `Channel`.
#[verifier::ext_equal]
pub struct ChannelState {
    pub name: Seq<char>,
    pub path: Option<Seq<char>>,
    pub baud: u32,
    pub format: Seq<char>,
    pub open: bool,
    pub encoding: Seq<char>,
    pub newline: Seq<char>,
    pub backspace: u8,
    pub local_echo: bool,
    pub logging: bool,
    pub modem: Option<Seq<char>>,
    pub rx_bytes: u64,
    pub tx_bytes: u64,
    pub status: Seq<char>,
    pub screen: ScreenState,
}

/// The characters of an optional string.
pub open spec fn opt_text(s: Option<String>) -> Option<Seq<char>> {
    match s {
        Some(s) => Some(s@),
        None => None,
    }
}

impl View for Channel {
    type V = ChannelState;

    open spec fn view(&self) -> ChannelState {
        ChannelState {
            name: self.name@,
            path: opt_text(self.cfg.path),
            baud: self.cfg.baud,
            format: self.cfg.format@,
            open: self.open,
            encoding: self.encoding@,
            newline: self.newline@,
            backspace: self.backspace,
            local_echo: self.local_echo,
            logging: self.logging,
            modem: opt_text(self.modem),
            rx_bytes: self.rx_bytes,
            tx_bytes: self.tx_bytes,
            status: self.status@,
            screen: screen_state(self.parser),
        }
    }
}

} // verus!
