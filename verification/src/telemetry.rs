//! Statistics a recorder publishes about its port.
use vstd::prelude::*;

verus! {

#[derive(Debug, Clone)]
pub struct RecorderStats {
    pub port_name: String,
    pub bytes_read_total: u64,
    pub bytes_per_second: u64,
    pub write_errors: u64,
    pub rotation_count: u64,
    /// Unix timestamp in seconds of the last packet, when any was seen.
    pub last_packet_time: Option<u64>,
    pub uptime_seconds: u64,
}

impl Default for RecorderStats {
    /// Fresh statistics: every counter at zero, no packet seen yet.
    fn default() -> (r: Self)
        ensures
            r.port_name@ == Seq::<char>::empty(),
            r.bytes_read_total == 0,
            r.bytes_per_second == 0,
            r.write_errors == 0,
            r.rotation_count == 0,
            r.last_packet_time is None,
            r.uptime_seconds == 0,
    {
        RecorderStats {
            port_name: String::new(),
            bytes_read_total: 0,
            bytes_per_second: 0,
            write_errors: 0,
            rotation_count: 0,
            last_packet_time: None,
            uptime_seconds: 0,
        }
    }
}

} // verus!
