//! Log records, which go to a sink that the host installs.

use vstd::prelude::*;
use vstd::string::*;

verus! {

/// How severe a log record is.
#[derive(Debug, Clone, Copy, PartialEq, Eq, Structural)]
pub enum LogLevel {
    Error,
    Warn,
    Info,
    Debug,
    Trace,
}

/// The host's sink for log records.
pub trait LogSink: Send + Sync {
    fn log(&self, level: LogLevel, target: String, message: String);
}

/// Hands a record to the sink, if there is one.
pub fn emit<S: LogSink>(sink: Option<&S>, level: LogLevel, target: &str, message: &str) -> (handed:
    bool)
    ensures
        match sink {
            Some(s) => handed && exists|t: String, m: String|
                t@ == target@ && m@ == message@ && #[trigger] call_ensures(
                    S::log,
                    (s, level, t, m),
                    (),
                ),
            None => !handed,
        },
{
    match sink {
        Some(s) => {
            let t = target.to_owned();
            let m = message.to_owned();
            s.log(level, t, m);
            assert(call_ensures(S::log, (s, level, t, m), ()));
            true
        },
        None => false,
    }
}

/// Hands one record to the sink, by which a host can see that its sink works.
pub fn emit_test_log<S: LogSink>(sink: Option<&S>, message: &str) -> (handed: bool)
    ensures
        match sink {
            Some(s) => handed && exists|t: String, m: String|
                t@ == "pigeon_mobile_core"@ && m@ == message@ && #[trigger] call_ensures(
                    S::log,
                    (s, LogLevel::Info, t, m),
                    (),
                ),
            None => !handed,
        },
{
    emit(sink, LogLevel::Info, "pigeon_mobile_core", message)
}

/// The name and the version of the core.
pub fn core_version() -> (r: String)
    ensures
        r@ == "pigeon-mobile-core 0.1.0"@,
{
    "pigeon-mobile-core 0.1.0".to_owned()
}

} // verus!
