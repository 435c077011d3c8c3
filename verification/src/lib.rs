//! A two-pane serial terminal and its XMODEM / XMODEM-1K / YMODEM file transfers.

pub mod app;
pub mod batch;
pub mod channel;
pub mod faults;
pub mod io;
pub mod keys;
pub mod layout;
pub mod link;
pub mod listening;
pub mod names;
pub mod packet;
pub mod picture;
pub mod ports;
pub mod progress;
pub mod protocol;
pub mod receiver;
pub mod screen;
pub mod sender;
pub mod session;
pub mod speaking;
pub mod style;
pub mod text;
pub mod transfer;
pub mod ui;
