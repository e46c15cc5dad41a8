//! Domain errors and the JSON error envelope that reports them to clients.
use vstd::prelude::*;
use crate::text::concat_strs;

verus! {

/// An error of one of the daemon's domains, with its detail message.
#[derive(Debug, Clone)]
pub enum CrawlError {
    Bluetooth(String),
    Network(String),
    Notification(String),
    Clipboard(String),
    Sysmon(String),
    Brightness(String),
    Process(String),
    Power(String),
    Disk(String),
    DBus(String),
    NotFound(String),
    PermissionDenied(String),
    Internal(String),
}

/// The envelope returned on failure:
/// `{ "error": { "domain": ..., "code": ..., "message": ... } }`.
#[derive(Debug, Clone)]
pub struct ErrorEnvelope {
    pub error: ErrorBody,
}

#[derive(Debug, Clone)]
pub struct ErrorBody {
    pub domain: String,
    pub code: String,
    pub message: String,
}

impl CrawlError {
    /// The detail message the error carries.
    pub open spec fn detail(&self) -> Seq<char> {
        match self {
            CrawlError::Bluetooth(m) => m@,
            CrawlError::Network(m) => m@,
            CrawlError::Notification(m) => m@,
            CrawlError::Clipboard(m) => m@,
            CrawlError::Sysmon(m) => m@,
            CrawlError::Brightness(m) => m@,
            CrawlError::Process(m) => m@,
            CrawlError::Power(m) => m@,
            CrawlError::Disk(m) => m@,
            CrawlError::DBus(m) => m@,
            CrawlError::NotFound(m) => m@,
            CrawlError::PermissionDenied(m) => m@,
            CrawlError::Internal(m) => m@,
        }
    }

    /// The text that precedes the detail in the error's message.
    pub open spec fn prefix(&self) -> Seq<char> {
        match self {
            CrawlError::Bluetooth(_) => "bluetooth error: "@,
            CrawlError::Network(_) => "network error: "@,
            CrawlError::Notification(_) => "notification error: "@,
            CrawlError::Clipboard(_) => "clipboard error: "@,
            CrawlError::Sysmon(_) => "sysmon error: "@,
            CrawlError::Brightness(_) => "brightness error: "@,
            CrawlError::Process(_) => "process error: "@,
            CrawlError::Power(_) => "power error: "@,
            CrawlError::Disk(_) => "disk error: "@,
            CrawlError::DBus(_) => "D-Bus error: "@,
            CrawlError::NotFound(_) => "not found: "@,
            CrawlError::PermissionDenied(_) => "permission denied: "@,
            CrawlError::Internal(_) => "internal error: "@,
        }
    }

    /// The API domain an error is reported under.
    pub open spec fn domain(&self) -> Seq<char> {
        match self {
            CrawlError::Bluetooth(_) => "bluetooth"@,
            CrawlError::Network(_) => "network"@,
            CrawlError::Notification(_) => "notify"@,
            CrawlError::Clipboard(_) => "clipboard"@,
            CrawlError::Sysmon(_) => "sysmon"@,
            CrawlError::Brightness(_) => "brightness"@,
            CrawlError::Process(_) => "proc"@,
            CrawlError::Power(_) => "power"@,
            CrawlError::Disk(_) => "disk"@,
            CrawlError::DBus(_) => "dbus"@,
            CrawlError::NotFound(_) => "crawlds"@,
            CrawlError::PermissionDenied(_) => "crawlds"@,
            CrawlError::Internal(_) => "crawlds"@,
        }
    }

    /// The machine-readable code an error is reported under.
    pub open spec fn code(&self) -> Seq<char> {
        match self {
            CrawlError::Bluetooth(_) => "bluetooth_error"@,
            CrawlError::Network(_) => "network_error"@,
            CrawlError::Notification(_) => "notification_error"@,
            CrawlError::Clipboard(_) => "clipboard_error"@,
            CrawlError::Sysmon(_) => "sysmon_error"@,
            CrawlError::Brightness(_) => "brightness_error"@,
            CrawlError::Process(_) => "process_error"@,
            CrawlError::Power(_) => "power_error"@,
            CrawlError::Disk(_) => "disk_error"@,
            CrawlError::DBus(_) => "dbus_error"@,
            CrawlError::NotFound(_) => "not_found"@,
            CrawlError::PermissionDenied(_) => "permission_denied"@,
            CrawlError::Internal(_) => "internal_error"@,
        }
    }

    /// The human-readable message, e.g. `bluetooth error: adapter is off`.
    pub fn message(&self) -> (s: String)
        ensures
            s@ == self.prefix() + self.detail(),
    {
        match self {
            CrawlError::Bluetooth(m) => concat_strs("bluetooth error: ", m.as_str()),
            CrawlError::Network(m) => concat_strs("network error: ", m.as_str()),
            CrawlError::Notification(m) => concat_strs("notification error: ", m.as_str()),
            CrawlError::Clipboard(m) => concat_strs("clipboard error: ", m.as_str()),
            CrawlError::Sysmon(m) => concat_strs("sysmon error: ", m.as_str()),
            CrawlError::Brightness(m) => concat_strs("brightness error: ", m.as_str()),
            CrawlError::Process(m) => concat_strs("process error: ", m.as_str()),
            CrawlError::Power(m) => concat_strs("power error: ", m.as_str()),
            CrawlError::Disk(m) => concat_strs("disk error: ", m.as_str()),
            CrawlError::DBus(m) => concat_strs("D-Bus error: ", m.as_str()),
            CrawlError::NotFound(m) => concat_strs("not found: ", m.as_str()),
            CrawlError::PermissionDenied(m) => concat_strs("permission denied: ", m.as_str()),
            CrawlError::Internal(m) => concat_strs("internal error: ", m.as_str()),
        }
    }

    fn domain_and_code(&self) -> (r: (&'static str, &'static str))
        ensures
            r.0@ == self.domain(),
            r.1@ == self.code(),
    {
        match self {
            CrawlError::Bluetooth(_) => ("bluetooth", "bluetooth_error"),
            CrawlError::Network(_) => ("network", "network_error"),
            CrawlError::Notification(_) => ("notify", "notification_error"),
            CrawlError::Clipboard(_) => ("clipboard", "clipboard_error"),
            CrawlError::Sysmon(_) => ("sysmon", "sysmon_error"),
            CrawlError::Brightness(_) => ("brightness", "brightness_error"),
            CrawlError::Process(_) => ("proc", "process_error"),
            CrawlError::Power(_) => ("power", "power_error"),
            CrawlError::Disk(_) => ("disk", "disk_error"),
            CrawlError::DBus(_) => ("dbus", "dbus_error"),
            CrawlError::NotFound(_) => ("crawlds", "not_found"),
            CrawlError::PermissionDenied(_) => ("crawlds", "permission_denied"),
            CrawlError::Internal(_) => ("crawlds", "internal_error"),
        }
    }
}

impl ErrorEnvelope {
    /// An envelope with the given domain, code and message.
    pub fn new(domain: String, code: String, message: String) -> (e: Self)
        ensures
            e.error.domain == domain,
            e.error.code == code,
            e.error.message == message,
    {
        ErrorEnvelope { error: ErrorBody { domain, code, message } }
    }

    /// The envelope that reports a domain error.
    pub fn from_error(e: &CrawlError) -> (env: Self)
        ensures
            env.error.domain@ == e.domain(),
            env.error.code@ == e.code(),
            env.error.message@ == e.prefix() + e.detail(),
    {
        let (domain, code) = e.domain_and_code();
        let d = concat_strs(domain, "");
        let c = concat_strs(code, "");
        proof {
            reveal_strlit("");
            assert(d@ =~= domain@);
            assert(c@ =~= code@);
        }
        Self::new(d, c, e.message())
    }
}

} // verus!
