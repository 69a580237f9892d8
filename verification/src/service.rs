//! The service shell: which mode runs, and the cadence rules that the
//! recording, processing and supervising loops follow. The loops themselves
//! perform I/O and live in the host program; they take every decision from
//! the functions here.
use vstd::prelude::*;

use crate::config::AppConfig;
use crate::text::push_char;
use vstd::string::StringExecFns;

verus! {

pub struct Service {
    pub config: AppConfig,
}

impl Service {
    pub fn new(config: AppConfig) -> (s: Self)
        ensures
            s.config == config,
    {
        Service { config }
    }
}

/// How often a service writes its heartbeat file: every
/// `min(5, file_stability_seconds)` seconds, but not less than one.
pub fn heartbeat_interval_secs(file_stability_seconds: u64) -> (r: u64)
    ensures
        r == if file_stability_seconds >= 5 {
            5u64
        } else if file_stability_seconds <= 1 {
            1u64
        } else {
            file_stability_seconds
        },
{
    let m = if file_stability_seconds < 5 {
        file_stability_seconds
    } else {
        5
    };
    if m > 1 {
        m
    } else {
        1
    }
}

/// When the supervisor considers a child's heartbeat stale: three stability
/// periods (saturating), and never less than ten seconds.
pub fn stale_threshold_secs(file_stability_seconds: u64) -> (r: u64)
    ensures
        ({
            let tripled: int = if 3 * file_stability_seconds <= u64::MAX {
                3 * file_stability_seconds
            } else {
                u64::MAX as int
            };
            r == if tripled < 10 {
                10int
            } else {
                tripled
            }
        }),
{
    let tripled: u64 = if file_stability_seconds <= u64::MAX / 3 {
        3 * file_stability_seconds
    } else {
        u64::MAX
    };
    if tripled < 10 {
        10
    } else {
        tripled
    }
}

/// The supervisor's restart decision for one child.
pub fn heartbeat_stale(age_secs: u64, threshold_secs: u64) -> (r: bool)
    ensures
        r == (age_secs > threshold_secs),
{
    age_secs > threshold_secs
}

/// The service name as it appears in file names: spaces become underscores.
pub open spec fn underscored(s: Seq<char>) -> Seq<char> {
    Seq::new(
        s.len(),
        |i: int|
            if s[i] == ' ' {
                '_'
            } else {
                s[i]
            },
    )
}

/// The per-service heartbeat file path under the deployment temp directory.
pub fn heartbeat_file_path(service_name: &String) -> (r: String)
    ensures
        r@ == "./deployment/tmp/adcp_"@ + underscored(service_name@) + "_hb"@,
{
    let mut s = String::from_str("./deployment/tmp/adcp_");
    let chars = crate::text::str_chars(service_name.as_str());
    let n = chars.len();
    let ghost prefix = s@;
    let mut i: usize = 0;
    while i < n
        invariant
            i <= n,
            n == service_name@.len(),
            chars@ == service_name@,
            s@ == prefix + underscored(service_name@).subrange(0, i as int),
        decreases n - i,
    {
        let c = chars[i];
        if c == ' ' {
            push_char(&mut s, '_');
        } else {
            push_char(&mut s, c);
        }
        proof {
            crate::text::lemma_subrange_push(underscored(service_name@), 0, i as int);
        }
        i = i + 1;
    }
    proof {
        assert(underscored(service_name@).subrange(0, n as int) =~= underscored(service_name@));
    }
    s.append("_hb");
    s
}

} // verus!
