use vstd::prelude::*;

verus! {

/// A span of time as it is written in the configuration file.
#[derive(Debug, Clone, Copy, PartialEq, Eq, Structural)]
pub enum ConfigTime {
    Second(u64),
    Millisecond(u64),
    Microsecond(u64),
    Nanosecond(u64),
    Minute(u64),
}

/// The span a configured time stands for, in nanoseconds.
pub open spec fn config_time_nanos(t: ConfigTime) -> int {
    match t {
        ConfigTime::Second(n) => n * 1_000_000_000,
        ConfigTime::Millisecond(n) => n * 1_000_000,
        ConfigTime::Microsecond(n) => n * 1_000,
        ConfigTime::Nanosecond(n) => n as int,
        ConfigTime::Minute(n) => n * 60 * 1_000_000_000,
    }
}

/// A configured time can be turned into a span: a number of minutes must
/// still fit a `u64` once counted in seconds.
pub open spec fn config_time_valid(t: ConfigTime) -> bool {
    match t {
        ConfigTime::Minute(n) => n * 60 <= u64::MAX,
        _ => true,
    }
}

impl ConfigTime {
    /// The span this time stands for, in nanoseconds.
    pub fn to_duration(self) -> (res: u128)
        requires
            config_time_valid(self),
        ensures
            res == config_time_nanos(self),
    {
        match self {
            ConfigTime::Second(n) => {
                assert(n * 1_000_000_000 <= u64::MAX * 1_000_000_000) by (nonlinear_arith)
                    requires
                        n <= u64::MAX,
                ;
                n as u128 * 1_000_000_000
            },
            ConfigTime::Millisecond(n) => {
                assert(n * 1_000_000 <= u64::MAX * 1_000_000) by (nonlinear_arith)
                    requires
                        n <= u64::MAX,
                ;
                n as u128 * 1_000_000
            },
            ConfigTime::Microsecond(n) => {
                assert(n * 1_000 <= u64::MAX * 1_000) by (nonlinear_arith)
                    requires
                        n <= u64::MAX,
                ;
                n as u128 * 1_000
            },
            ConfigTime::Nanosecond(n) => n as u128,
            ConfigTime::Minute(n) => {
                let secs = n * 60;
                assert(secs * 1_000_000_000 <= u64::MAX * 1_000_000_000) by (nonlinear_arith)
                    requires
                        secs <= u64::MAX,
                ;
                secs as u128 * 1_000_000_000
            },
        }
    }
}

/// The configuration of the cluster.
#[derive(Debug)]
pub struct Config {
    pub node_count: usize,
    pub election_timeout: (ConfigTime, ConfigTime),
    pub channel_capacity: usize,
}

impl Config {
    /// The bounds of the election timeout, in nanoseconds.
    pub fn election_timeout_range(&self) -> (res: (u128, u128))
        requires
            config_time_valid(self.election_timeout.0),
            config_time_valid(self.election_timeout.1),
        ensures
            res.0 == config_time_nanos(self.election_timeout.0),
            res.1 == config_time_nanos(self.election_timeout.1),
    {
        (self.election_timeout.0.to_duration(), self.election_timeout.1.to_duration())
    }
}

} // verus!
