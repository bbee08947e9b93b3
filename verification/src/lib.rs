//! Control of wireless fan groups through a pair of USB dongles.
//!
//! A transmitter dongle carries radio payloads to the groups, a receiver
//! dongle reports what it hears of them. The modules build the frames, read
//! the replies, keep track of the groups, and decide once a second what goes
//! out. Everything that touches the operating system stands outside: the
//! library reaches the dongles through [`dongle::Port`] and
//! [`engine::Link`], and takes times as nanoseconds since an epoch of the
//! caller's choice.

pub mod bytes;
pub mod frame;
pub mod discovery;
pub mod heartbeat;
pub mod speed;
pub mod text;
pub mod win;
pub mod enumerate;
pub mod process;
pub mod clock;
pub mod device;
pub mod dongle;
pub mod scripted;
pub mod exchanges;
pub mod address;
pub mod time;
pub mod lists;
pub mod groups;
pub mod log;
pub mod wanted;
pub mod model;
pub mod room;
pub mod engine;
pub mod pace;
pub mod ffi;
pub mod probe;
pub mod run;
pub mod session;
pub mod laws;
pub mod passes;
pub mod history;
pub mod sayings;
pub mod wire;
pub mod duties;
pub mod tracking;
pub mod conduct;
pub mod showing;
pub mod wording;
pub mod platform;
pub mod asking;
pub mod keeping;
pub mod remarks;
