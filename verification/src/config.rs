//! The configuration of one run.

use crate::url::{normalise_url, normalised};
use vstd::prelude::*;

verus! {

/// The values given on the command line, as they were parsed.
#[derive(Clone, Debug)]
pub struct ArgValues {
    pub url: String,
    pub force_url: bool,
    pub follow_links: bool,
    pub number: u32,
    pub processes: u32,
    pub method: String,
    pub payload: String,
    pub ignore_ssl: bool,
    /// Timeout of one request in milliseconds.
    pub timeout: u16,
    pub verbose: bool,
    pub skip_confirm: bool,
}

/// What a run needs to know: the target, how many requests over how many
/// workers, and how each request is made.
#[derive(Clone, Debug)]
pub struct Config {
    pub url: String,
    pub follow_links: bool,
    pub number: u32,
    pub processes: u32,
    pub method: String,
    pub payload: String,
    pub ignore_ssl: bool,
    /// Timeout of one request in milliseconds.
    pub timeout: u16,
    pub verbose: bool,
    pub skip_confirm: bool,
}

impl Config {
    /// Whether a run can be dispatched: there is at least one worker and
    /// the timeout is not zero.
    pub open spec fn runnable(self) -> bool {
        self.processes >= 1 && self.timeout > 0
    }

    /// Builds the configuration from the parsed values. The URL is
    /// normalised unless it is forced; everything else is taken over.
    pub fn from_matches(matches: ArgValues) -> (config: Config)
        ensures
            config.url@ == normalised(matches.url@, matches.force_url),
            config.follow_links == matches.follow_links,
            config.number == matches.number,
            config.processes == matches.processes,
            config.method == matches.method,
            config.payload == matches.payload,
            config.ignore_ssl == matches.ignore_ssl,
            config.timeout == matches.timeout,
            config.verbose == matches.verbose,
            config.skip_confirm == matches.skip_confirm,
    {
        let url = normalise_url(matches.url, matches.force_url);
        Config {
            url,
            follow_links: matches.follow_links,
            number: matches.number,
            processes: matches.processes,
            method: matches.method,
            payload: matches.payload,
            ignore_ssl: matches.ignore_ssl,
            timeout: matches.timeout,
            verbose: matches.verbose,
            skip_confirm: matches.skip_confirm,
        }
    }

    /// Tells whether a run can be dispatched with this configuration.
    pub fn is_runnable(&self) -> (ok: bool)
        ensures
            ok == self.runnable(),
    {
        self.processes >= 1 && self.timeout > 0
    }
}

} // verus!
