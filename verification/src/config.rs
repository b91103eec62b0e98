//! The persisted settings record: host, the two raw port-list texts, and the
//! inter-knock delay. Reading and writing the record to disk is the
//! application's concern; this module fixes the record itself, its defaults,
//! and the fallback rule for a missing or unreadable record.

use vstd::prelude::*;

verus! {

/// The settings record as it is persisted: the target host, the raw text of
/// the open and close port lists, and the delay between knocks in
/// milliseconds.
pub struct Config {
    pub host: String,
    pub ports_str: String,
    pub close_ports_str: String,
    pub delay: u64,
}

/// What the built-in default record holds: localhost, an ascending open
/// sequence, the same ports descending for close, and a one-second delay.
pub open spec fn is_default_config(c: Config) -> bool {
    &&& c.host@ == "127.0.0.1"@
    &&& c.ports_str@ == "5000, 6000, 7000"@
    &&& c.close_ports_str@ == "7000, 6000, 5000"@
    &&& c.delay == 1000u64
}

impl Default for Config {
    /// The built-in defaults, used whenever no persisted record is available.
    fn default() -> (c: Config)
        ensures
            is_default_config(c),
    {
        Config {
            host: String::from_str("127.0.0.1"),
            ports_str: String::from_str("5000, 6000, 7000"),
            close_ports_str: String::from_str("7000, 6000, 5000"),
            delay: 1000,
        }
    }
}

impl Config {
    /// A field-for-field copy of the record.
    pub fn duplicate(&self) -> (c: Config)
        ensures
            c.host@ == self.host@,
            c.ports_str@ == self.ports_str@,
            c.close_ports_str@ == self.close_ports_str@,
            c.delay == self.delay,
    {
        Config {
            host: self.host.clone(),
            ports_str: self.ports_str.clone(),
            close_ports_str: self.close_ports_str.clone(),
            delay: self.delay,
        }
    }
}

/// Fallback rule for loading: a record that was read intact is used as it is;
/// a missing or unreadable one falls back to the built-in defaults.
pub fn config_or_default(loaded: Option<Config>) -> (c: Config)
    ensures
        loaded is Some ==> c == loaded->Some_0,
        loaded is None ==> is_default_config(c),
{
    match loaded {
        Some(c) => c,
        None => Config::default(),
    }
}

} // verus!
