//! What the configuration says of the agent and of each watched file.

use vstd::prelude::*;
use crate::window::DEFAULT_DELTA;

verus! {

/// Settings of the whole agent.
#[derive(Debug, Clone, PartialEq, Eq)]
pub struct ConfigGeneral {
    /// Where the agent records its process id.
    pub pid_file: String,
    /// The directory that holds one state file per watched file.
    pub state_path: String,
    /// The region of the sink.
    pub region: String,
}

/// One watched file and where its lines go.
#[derive(Debug, Clone, PartialEq, Eq)]
pub struct ConfigLogFile {
    /// The path of the file.
    pub file: String,
    /// The group that receives its events.
    pub log_group_name: String,
    /// The stream of that group that receives them.
    pub log_stream_name: String,
    /// The strftime-style format of the timestamps in its lines, if known.
    pub datetime_format: Option<String>,
    /// The slack of the window sizing policy, where it differs from the
    /// default.
    pub truncation_delta: Option<u64>,
}

/// The whole configuration.
#[derive(Debug, Clone, PartialEq, Eq)]
pub struct AwatchLogConfig {
    pub general: ConfigGeneral,
    pub logfile: Vec<ConfigLogFile>,
}

impl ConfigLogFile {
    /// The slack that applies to this file.
    pub open spec fn delta_spec(self) -> u64 {
        match self.truncation_delta {
            Some(delta) => delta,
            None => DEFAULT_DELTA,
        }
    }

    /// The slack that applies to this file: the configured one, else the
    /// default.
    pub fn delta(&self) -> (r: u64)
        ensures
            r == self.delta_spec(),
    {
        match self.truncation_delta {
            Some(delta) => delta,
            None => DEFAULT_DELTA,
        }
    }

    /// The configured timestamp format, if there is one.
    pub open spec fn format_spec(self) -> Option<Seq<char>> {
        match self.datetime_format {
            Some(format) => Some(format@),
            None => None,
        }
    }

    /// The configured timestamp format, if there is one.
    pub fn format(&self) -> (r: Option<&str>)
        ensures
            r is Some <==> self.format_spec() is Some,
            r is Some ==> r->Some_0@ == self.format_spec()->Some_0,
    {
        match &self.datetime_format {
            Some(format) => Some(format.as_str()),
            None => None,
        }
    }
}

} // verus!
