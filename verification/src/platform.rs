//! The service-descriptor template for installing the program under the
//! platform's service manager.
use vstd::prelude::*;

use vstd::string::StringExecFns;

verus! {

/// The systemd unit template for this service.
pub fn platform_template() -> (r: &'static str)
    ensures
        r@
            == "[Unit]\nDescription=ADCP acquisition service\nAfter=network.target\n\n[Service]\nExecStart=/usr/local/bin/adcp --config /etc/adcp/adcp.toml\nRestart=on-failure\n\n[Install]\nWantedBy=multi-user.target\n"@,
{
    "[Unit]\nDescription=ADCP acquisition service\nAfter=network.target\n\n[Service]\nExecStart=/usr/local/bin/adcp --config /etc/adcp/adcp.toml\nRestart=on-failure\n\n[Install]\nWantedBy=multi-user.target\n"
}

/// The line a host process should log to point operators at the template.
pub fn log_platform_guidance() -> (r: String)
    ensures
        r@ == "platform-specific service descriptor available"@,
{
    String::from_str("platform-specific service descriptor available")
}

} // verus!
