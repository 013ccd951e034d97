//! Runtime deployment profiles. Desktop defaults deliberately match plain
//! command-line use; appliance settings are only enabled explicitly. Paths are
//! held as text.

use vstd::prelude::*;
use vstd::string::StringExecFns;

verus! {

#[derive(Debug, Clone, Copy, PartialEq, Eq, Structural)]
pub enum Profile {
    Desktop,
    Appliance,
}

#[derive(Debug, Clone)]
pub struct EcuConfig {
    pub device: String,
    pub mode: String,
    pub baud: u32,
    pub poll_ms: u64,
    pub auto_connect: bool,
    pub ini: Option<String>,
}

impl Default for EcuConfig {
    /// No device, primary mode, 115200 baud, 50 ms polls, no auto-connect.
    fn default() -> (c: Self)
        ensures
            c.device@ == Seq::<char>::empty(),
            c.mode@ == "primary"@,
            c.baud == 115_200,
            c.poll_ms == 50,
            !c.auto_connect,
            c.ini is None,
    {
        EcuConfig {
            device: String::new(),
            mode: String::from_str("primary"),
            baud: 115_200,
            poll_ms: 50,
            auto_connect: false,
            ini: None,
        }
    }
}

#[derive(Debug, Clone)]
pub struct LoggingConfig {
    pub directory: String,
    pub auto: bool,
    pub retention_bytes: u64,
}

impl Default for LoggingConfig {
    /// Logs under `logs`, no automatic logging, no retention limit.
    fn default() -> (c: Self)
        ensures
            c.directory@ == "logs"@,
            !c.auto,
            c.retention_bytes == 0,
    {
        LoggingConfig { directory: String::from_str("logs"), auto: false, retention_bytes: 0 }
    }
}

#[derive(Debug, Clone)]
pub struct AuthenticationConfig {
    pub required: bool,
    pub state_directory: String,
}

impl Default for AuthenticationConfig {
    /// No pairing required; state in the working directory.
    fn default() -> (c: Self)
        ensures
            !c.required,
            c.state_directory@ == "."@,
    {
        AuthenticationConfig { required: false, state_directory: String::from_str(".") }
    }
}

#[derive(Debug, Clone, Default)]
pub struct CaptivePortalConfig {
    pub enabled: bool,
}

/// The appliance profile's ECU settings: the Pi's UART, connected at
/// start; the rest as on the desktop.
pub fn appliance_ecu() -> (c: EcuConfig)
    ensures
        c.device@ == "/dev/serial0"@,
        c.mode@ == "primary"@,
        c.baud == 115_200,
        c.poll_ms == 50,
        c.auto_connect,
        c.ini is None,
{
    EcuConfig {
        device: String::from_str("/dev/serial0"),
        mode: String::from_str("primary"),
        baud: 115_200,
        poll_ms: 50,
        auto_connect: true,
        ini: None,
    }
}

/// The appliance profile's logging: automatic, under `/var/log/speeduino`,
/// keeping at most 2 GiB.
pub fn appliance_logging() -> (c: LoggingConfig)
    ensures
        c.directory@ == "/var/log/speeduino"@,
        c.auto,
        c.retention_bytes == 2 * 1024 * 1024 * 1024,
{
    LoggingConfig {
        directory: String::from_str("/var/log/speeduino"),
        auto: true,
        retention_bytes: 2 * 1024 * 1024 * 1024,
    }
}

/// The appliance profile's authentication: pairing required, state under
/// `/var/lib/rustytune`.
pub fn appliance_authentication() -> (c: AuthenticationConfig)
    ensures
        c.required,
        c.state_directory@ == "/var/lib/rustytune"@,
{
    AuthenticationConfig { required: true, state_directory: String::from_str("/var/lib/rustytune") }
}

/// A wiring name the configuration accepts.
pub open spec fn valid_mode(m: Seq<char>) -> bool {
    m == "primary"@ || m == "secondary"@
}

/// The engine-stop delay a configuration may give, in seconds.
pub open spec fn valid_shutdown_delay(d: u64) -> bool {
    1 <= d <= 600
}

/// The integer part of the engine-stop settings' validation: the delay
/// must be 1 to 600 seconds. (The speed thresholds are floating point and
/// are checked by the caller.)
pub fn check_shutdown_delay(delay_seconds: u64) -> (r: Result<(), String>)
    ensures
        r is Ok <==> valid_shutdown_delay(delay_seconds),
        r matches Err(m) ==> m@ == "engine_shutdown.delay_seconds must be between 1 and 600"@,
{
    if 1 <= delay_seconds && delay_seconds <= 600 {
        Ok(())
    } else {
        Err(String::from_str("engine_shutdown.delay_seconds must be between 1 and 600"))
    }
}

/// A baud rate the configuration accepts.
pub open spec fn valid_baud(b: u64) -> bool {
    1_200 <= b <= 1_000_000
}

/// The management socket's `configure` command applied to the ECU and
/// logging settings: a given device is taken as is, a mode only when it is
/// `primary` or `secondary`, a baud rate only within 1200..=1000000, and
/// the automatic-logging switch as given. Everything else is kept.
pub fn apply_configure(
    ecu: &mut EcuConfig,
    logging: &mut LoggingConfig,
    device: Option<String>,
    mode: Option<String>,
    baud: Option<u64>,
    auto_log: Option<bool>,
)
    ensures
        final(ecu).device == (match device {
            Some(d) => d,
            None => old(ecu).device,
        }),
        final(ecu).mode == (match mode {
            Some(m) => if valid_mode(m@) {
                m
            } else {
                old(ecu).mode
            },
            None => old(ecu).mode,
        }),
        final(ecu).baud == (match baud {
            Some(b) => if valid_baud(b) {
                b as u32
            } else {
                old(ecu).baud
            },
            None => old(ecu).baud,
        }),
        final(logging).auto == (match auto_log {
            Some(a) => a,
            None => old(logging).auto,
        }),
        final(ecu).poll_ms == old(ecu).poll_ms,
        final(ecu).auto_connect == old(ecu).auto_connect,
        final(ecu).ini == old(ecu).ini,
        final(logging).directory == old(logging).directory,
        final(logging).retention_bytes == old(logging).retention_bytes,
{
    match device {
        Some(d) => {
            ecu.device = d;
        },
        None => {},
    }
    match mode {
        Some(m) => {
            let v = crate::text::chars_of(m.as_str());
            if crate::text::chars_are(&v, "primary") || crate::text::chars_are(&v, "secondary") {
                ecu.mode = m;
            }
        },
        None => {},
    }
    match baud {
        Some(b) => {
            if 1_200 <= b && b <= 1_000_000 {
                ecu.baud = b as u32;
            }
        },
        None => {},
    }
    match auto_log {
        Some(a) => {
            logging.auto = a;
        },
        None => {},
    }
}

} // verus!
