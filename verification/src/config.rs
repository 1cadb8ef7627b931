//! Configuration: the options given on the command line, the part read from
//! the configuration file, and the settings that the watchers run with.

use vstd::prelude::*;
use crate::types::LogFormat;

verus! {

/// The part of the settings read from the configuration file.
#[derive(Clone, Debug)]
pub struct PartialConfig {
    /// Directory of the log file; `default_log_dir` when the file names none.
    pub log_dir: String,
}

/// The options given on the command line.
#[derive(Clone, Debug)]
pub struct CliArgs {
    pub log_format: LogFormat,
    pub watcher_dir: String,
    /// Seconds between two scans.
    pub interval: u64,
    /// The CPU threshold in percent, as the bit pattern of its `f32` value;
    /// the library carries it and never reads it.
    pub cpu_threshold_bits: u32,
    pub interface: String,
}

/// The settings that the watchers run with.
#[derive(Clone, Debug)]
pub struct ConfigStruct {
    pub log_dir: String,
    pub log_format: LogFormat,
    pub watcher_dir: String,
    pub interval: u64,
    /// The CPU threshold in percent, as the bit pattern of its `f32` value.
    pub cpu_threshold_bits: u32,
    pub network_interface: Option<String>,
}

/// The log directory used when the configuration file names none.
pub fn default_log_dir() -> (dir: String)
    ensures
        dir@ == "logs"@,
{
    String::from_str("logs")
}

impl ConfigStruct {
    /// Combines the file's settings with the command line: the log directory
    /// comes from the file, everything else from the command line, and the
    /// network interface is always the one named there.
    pub fn load(cli_args: &CliArgs, partial: PartialConfig) -> (config: ConfigStruct)
        ensures
            config.log_dir == partial.log_dir,
            config.log_format == cli_args.log_format,
            config.watcher_dir == cli_args.watcher_dir,
            config.interval == cli_args.interval,
            config.cpu_threshold_bits == cli_args.cpu_threshold_bits,
            config.network_interface == Some(cli_args.interface),
    {
        let interface = cli_args.interface.clone();
        ConfigStruct {
            log_dir: partial.log_dir,
            network_interface: Some(interface),
            log_format: cli_args.log_format,
            watcher_dir: cli_args.watcher_dir.clone(),
            interval: cli_args.interval,
            cpu_threshold_bits: cli_args.cpu_threshold_bits,
        }
    }
}

} // verus!
