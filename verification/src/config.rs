//! The options the service is started with.

use vstd::prelude::*;

verus! {

/// How much the service logs.
#[derive(Clone, Copy, Debug, PartialEq, Eq, Structural)]
pub enum LogLevel {
    Trace,
    Debug,
    Info,
}

/// The options, as they stand once the command line has been read.
#[derive(Clone, Debug)]
pub struct OptsCommon {
    pub debug: bool,
    pub trace: bool,
    /// The address to listen on.
    pub listen: String,
    /// The output selector to start with.
    pub out_sensor: String,
    /// The window behind the averages that are sent to the database.
    pub average_db_t: u64,
    /// The window behind the average that answers for the output.
    pub average_out_t: u64,
    /// The period of the sends to the database.
    pub send_interval: i64,
    pub db_url: String,
    pub token: String,
    pub org: String,
    pub bucket: String,
    pub measurement: String,
    /// The period of the sweeps that discard old readings.
    pub expire_interval: u64,
}

impl OptsCommon {
    /// Completes the options after they have been read.  Nothing in them
    /// needs completing, so this always succeeds and changes nothing.
    pub fn finalize(&mut self) -> (r: Result<(), String>)
        ensures
            r is Ok,
            *final(self) == *old(self),
    {
        Ok(())
    }

    /// The level to log at: `trace` wins over `debug`, and without either
    /// it is `Info`.
    pub fn get_loglevel(&self) -> (level: LogLevel)
        ensures
            level == if self.trace {
                LogLevel::Trace
            } else if self.debug {
                LogLevel::Debug
            } else {
                LogLevel::Info
            },
    {
        if self.trace {
            LogLevel::Trace
        } else if self.debug {
            LogLevel::Debug
        } else {
            LogLevel::Info
        }
    }
}

} // verus!
