use vstd::prelude::*;

verus! {

/// The ports to scan for one target, in the order given.
#[derive(Clone, Debug)]
pub enum PortSpec {
    List(Vec<u16>),
}

/// The closed set of service tags that classification can produce.
#[derive(Clone, Copy, Debug, PartialEq, Eq, Structural, Hash)]
pub enum Protocol {
    Http,
    Https,
    Ssh,
    Smtp,
    Tls,
    Telnet,
    Dns,
    Mysql,
    Unknown,
}

/// The lowercase tag under which a protocol is shown and serialised.
pub open spec fn protocol_tag(p: Protocol) -> Seq<char> {
    match p {
        Protocol::Http => "http"@,
        Protocol::Https => "https"@,
        Protocol::Ssh => "ssh"@,
        Protocol::Smtp => "smtp"@,
        Protocol::Tls => "tls"@,
        Protocol::Telnet => "telnet"@,
        Protocol::Dns => "dns"@,
        Protocol::Mysql => "mysql"@,
        Protocol::Unknown => "unknown"@,
    }
}

impl Protocol {
    /// The lowercase tag of this protocol.
    pub fn as_str(&self) -> (r: &'static str)
        ensures
            r@ == protocol_tag(*self),
    {
        match self {
            Protocol::Http => "http",
            Protocol::Https => "https",
            Protocol::Ssh => "ssh",
            Protocol::Smtp => "smtp",
            Protocol::Tls => "tls",
            Protocol::Telnet => "telnet",
            Protocol::Dns => "dns",
            Protocol::Mysql => "mysql",
            Protocol::Unknown => "unknown",
        }
    }
}

/// The outcome of one (target, port) attempt.
#[derive(Clone, Debug)]
pub struct ScanResult {
    pub target: String,
    pub port: u16,
    pub open: bool,
    pub protocol: Option<Protocol>,
    pub banner: Option<String>,
    pub error: Option<String>,
}

impl ScanResult {
    /// A closed port carries an error and nothing else; an open one carries no error.
    pub open spec fn wf(&self) -> bool {
        &&& !self.open ==> self.protocol is None && self.banner is None && self.error is Some
        &&& self.open ==> self.error is None
    }
}

/// Settings as they may appear in a configuration file; every field is optional.
#[derive(Clone, Debug, Default)]
pub struct FileConfig {
    pub target: Option<String>,
    pub ports: Option<String>,
    pub popular: Option<bool>,
    pub concurrency: Option<usize>,
    pub timeout_ms: Option<u64>,
    pub banner_bytes: Option<u32>,
    pub passive: Option<bool>,
    pub json: Option<bool>,
    pub open_only: Option<bool>,
    pub raw_banner: Option<bool>,
    pub save_file: Option<String>,
    pub max_connections: Option<usize>,
    pub rate: Option<u64>,
}

} // verus!
