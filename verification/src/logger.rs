//! Where the kernel logger sends a record: the screen and the serial port.

use vstd::prelude::*;

verus! {

/// The levels of log records.
#[derive(Clone, Copy, Debug, PartialEq, Eq, Structural)]
pub enum LogLevel {
    /// Errors.
    Error,
    /// Warnings.
    Warn,
    /// Information.
    Info,
    /// Debugging output.
    Debug,
    /// Tracing output.
    Trace,
}

/// Whether debug and trace records go to the screen too.
pub const LOG_TO_SCREEN: bool = false;

/// The terminal color code for red.
pub const RED: u8 = 31;

/// The terminal color code for yellow.
pub const YELLOW: u8 = 33;

/// How a record is shown.
#[derive(Clone, Copy, Debug, PartialEq, Eq, Structural)]
pub struct LogTargets {
    /// The record is printed on the screen.
    pub screen: bool,
    /// The line on the screen starts with the level.
    pub screen_shows_level: bool,
    /// The line on the serial port holds the level after the time.
    pub serial_shows_level: bool,
    /// The terminal color of the level on the serial port, if any.
    pub serial_color: Option<u8>,
}

/// Decides how a record of the given level is shown: errors and warnings
/// go to the screen with their level and, colored red and yellow, to the
/// serial port; information goes to both without its level; debug and
/// trace output goes to the serial port with its level.
pub fn log_targets(level: LogLevel) -> (r: LogTargets)
    ensures
        r.serial_shows_level == (level != LogLevel::Info),
        r.screen == (level == LogLevel::Error || level == LogLevel::Warn || level == LogLevel::Info || LOG_TO_SCREEN),
        r.screen_shows_level == (level != LogLevel::Info),
        r.serial_color == if level == LogLevel::Error {
            Some(RED)
        } else if level == LogLevel::Warn {
            Some(YELLOW)
        } else {
            None::<u8>
        },
{
    match level {
        LogLevel::Error => LogTargets {
            screen: true,
            screen_shows_level: true,
            serial_shows_level: true,
            serial_color: Some(RED),
        },
        LogLevel::Warn => LogTargets {
            screen: true,
            screen_shows_level: true,
            serial_shows_level: true,
            serial_color: Some(YELLOW),
        },
        LogLevel::Info => LogTargets {
            screen: true,
            screen_shows_level: false,
            serial_shows_level: false,
            serial_color: None,
        },
        LogLevel::Debug => LogTargets {
            screen: LOG_TO_SCREEN,
            screen_shows_level: true,
            serial_shows_level: true,
            serial_color: None,
        },
        LogLevel::Trace => LogTargets {
            screen: LOG_TO_SCREEN,
            screen_shows_level: true,
            serial_shows_level: true,
            serial_color: None,
        },
    }
}

} // verus!
