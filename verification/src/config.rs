//! Service configuration: the recognized options, their defaults, and the
//! service-name fallback rule. Reading the configuration file and decoding
//! its TOML happen outside the library, which receives plain values.
use vstd::prelude::*;

use crate::text::trim_seq;
use vstd::string::StringExecFns;

verus! {

#[derive(Debug, Clone, Copy, PartialEq, Eq, Structural)]
pub enum ServiceMode {
    Recording,
    Processing,
    Orchestrator,
    Simulator,
}

#[derive(Debug, Clone, Copy, PartialEq, Eq, Structural)]
pub enum SplitMode {
    Daily,
    Weekly,
}

#[derive(Debug, Clone)]
pub struct AppConfig {
    pub service_name: String,
    pub log_level: String,
    pub data_directory: String,
    pub serial_port: Option<String>,
    pub baud_rate: u32,
    pub idle_threshold_seconds: u64,
    pub alert_webhook: Option<String>,
    pub mode: ServiceMode,
    pub backup_folder: String,
    pub data_process_folder: String,
    pub processed_folder: String,
    pub split_mode: SplitMode,
    pub max_backup_files: Option<usize>,
    pub max_backup_age_days: Option<u64>,
    pub file_stability_seconds: u64,
    pub sample_file: Option<String>,
}

pub fn default_log_level() -> (r: String)
    ensures
        r@ == "info"@,
{
    String::from_str("info")
}

pub fn default_file_stability_secs() -> (r: u64)
    ensures
        r == 5,
{
    5
}

pub fn default_data_dir() -> (r: String)
    ensures
        r@ == "./deployment/data"@,
{
    String::from_str("./deployment/data")
}

pub fn default_baud_rate() -> (r: u32)
    ensures
        r == 115200,
{
    115200
}

pub fn default_idle_threshold_secs() -> (r: u64)
    ensures
        r == 30,
{
    30
}

pub fn default_mode() -> (r: ServiceMode)
    ensures
        r == ServiceMode::Recording,
{
    ServiceMode::Recording
}

pub fn default_backup_folder() -> (r: String)
    ensures
        r@ == "./deployment/backup"@,
{
    String::from_str("./deployment/backup")
}

pub fn default_data_process_folder() -> (r: String)
    ensures
        r@ == "./deployment/to_process"@,
{
    String::from_str("./deployment/to_process")
}

pub fn default_processed_folder() -> (r: String)
    ensures
        r@ == "./deployment/processed"@,
{
    String::from_str("./deployment/processed")
}

pub fn default_split_mode() -> (r: SplitMode)
    ensures
        r == SplitMode::Daily,
{
    SplitMode::Daily
}

/// A name is blank when it trims to nothing.
pub open spec fn is_blank(s: Seq<char>) -> bool {
    trim_seq(s).len() == 0
}

/// The service name actually used: a blank configured name falls back to the
/// default supervisor name.
pub fn effective_service_name(name: &String) -> (r: String)
    ensures
        is_blank(name@) ==> r@ == "adcp-supervisor"@,
        !is_blank(name@) ==> r@ == name@,
{
    let chars = crate::text::str_chars(name.as_str());
    let trimmed = crate::text::trim_chars(&chars);
    if trimmed.len() == 0 {
        String::from_str("adcp-supervisor")
    } else {
        name.clone()
    }
}

impl AppConfig {
    /// Where the configuration is looked for when no path is given.
    pub fn default_path() -> (r: &'static str)
        ensures
            r@ == "config/adcp.toml"@,
    {
        "config/adcp.toml"
    }

    /// A configuration with every recognized option at its default and the
    /// given service name (after the blank-name fallback).
    pub fn with_defaults(service_name: String) -> (r: AppConfig)
        ensures
            is_blank(service_name@) ==> r.service_name@ == "adcp-supervisor"@,
            !is_blank(service_name@) ==> r.service_name@ == service_name@,
            r.log_level@ == "info"@,
            r.data_directory@ == "./deployment/data"@,
            r.serial_port is None,
            r.baud_rate == 115200,
            r.idle_threshold_seconds == 30,
            r.alert_webhook is None,
            r.mode == ServiceMode::Recording,
            r.backup_folder@ == "./deployment/backup"@,
            r.data_process_folder@ == "./deployment/to_process"@,
            r.processed_folder@ == "./deployment/processed"@,
            r.split_mode == SplitMode::Daily,
            r.max_backup_files is None,
            r.max_backup_age_days is None,
            r.file_stability_seconds == 5,
            r.sample_file is None,
    {
        AppConfig {
            service_name: effective_service_name(&service_name),
            log_level: default_log_level(),
            data_directory: default_data_dir(),
            serial_port: None,
            baud_rate: default_baud_rate(),
            idle_threshold_seconds: default_idle_threshold_secs(),
            alert_webhook: None,
            mode: default_mode(),
            backup_folder: default_backup_folder(),
            data_process_folder: default_data_process_folder(),
            processed_folder: default_processed_folder(),
            split_mode: default_split_mode(),
            max_backup_files: None,
            max_backup_age_days: None,
            file_stability_seconds: default_file_stability_secs(),
            sample_file: None,
        }
    }
}

} // verus!
