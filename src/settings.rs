use vstd::prelude::*;
use crate::ports::{parse_ports, ports_result_of, PortSpecError};
use crate::types::FileConfig;

verus! {

pub const DEFAULT_PORTS: &'static str = "1-1024";
pub const DEFAULT_CONCURRENCY: usize = 100;
pub const DEFAULT_TIMEOUT_MS: u64 = 1000;
pub const DEFAULT_BANNER_BYTES: u32 = 512;
pub const DEFAULT_SAVE_FILE: &'static str = "last_scan.output";
pub const DEFAULT_MAX_CONNECTIONS: usize = 10_000;
pub const DEFAULT_RATE: u64 = 5_000;

/// The first value that is set, else the default.
pub open spec fn pick<T>(first: Option<T>, second: Option<T>, default: T) -> T {
    match first {
        Some(v) => v,
        None => match second {
            Some(v) => v,
            None => default,
        },
    }
}

pub open spec fn pick_text(first: Option<String>, second: Option<String>, default: Seq<char>) -> Seq<char> {
    match first {
        Some(v) => v@,
        None => match second {
            Some(v) => v@,
            None => default,
        },
    }
}

/// The settings a run uses, once command line, file and defaults are merged.
#[derive(Debug)]
pub struct Settings {
    pub target: String,
    /// The port specification; `None` when the popular ports are scanned.
    pub ports: Option<String>,
    pub popular: bool,
    pub concurrency: usize,
    pub timeout_ms: u64,
    pub banner_bytes: u32,
    pub passive: bool,
    pub json: bool,
    pub open_only: bool,
    pub raw_banner: bool,
    pub save_file: String,
    pub max_connections: usize,
    pub rate: u64,
}

/// Settings that cannot be merged into a run.
#[derive(Debug, PartialEq, Eq, Structural)]
pub enum SettingsError {
    /// Neither the command line nor the file names a target.
    MissingTarget,
}

fn first_text(first: Option<String>, second: Option<String>, default: &str) -> (r: String)
    ensures
        r@ == pick_text(first, second, default@),
{
    match first {
        Some(v) => v,
        None => match second {
            Some(v) => v,
            None => default.to_owned(),
        },
    }
}

fn first_of<T>(first: Option<T>, second: Option<T>, default: T) -> (r: T)
    ensures
        r == pick(first, second, default),
{
    match first {
        Some(v) => v,
        None => match second {
            Some(v) => v,
            None => default,
        },
    }
}

/// Merges settings: a value given on the command line (`cli`) wins over the
/// file's, which wins over the default. A target is required. When popular
/// ports are asked for, no port specification is kept.
pub fn resolve_settings(cli: FileConfig, file: FileConfig) -> (r: Result<Settings, SettingsError>)
    ensures
        r is Err <==> cli.target is None && file.target is None,
        r matches Ok(s) ==> {
            &&& s.target@ == pick_text(cli.target, file.target, Seq::empty())
            &&& s.popular == pick(cli.popular, file.popular, false)
            &&& s.popular ==> s.ports is None
            &&& !s.popular ==> (s.ports matches Some(p) && p@ == pick_text(cli.ports, file.ports, DEFAULT_PORTS@))
            &&& s.concurrency == pick(cli.concurrency, file.concurrency, DEFAULT_CONCURRENCY)
            &&& s.timeout_ms == pick(cli.timeout_ms, file.timeout_ms, DEFAULT_TIMEOUT_MS)
            &&& s.banner_bytes == pick(cli.banner_bytes, file.banner_bytes, DEFAULT_BANNER_BYTES)
            &&& s.passive == pick(cli.passive, file.passive, false)
            &&& s.json == pick(cli.json, file.json, false)
            &&& s.open_only == pick(cli.open_only, file.open_only, false)
            &&& s.raw_banner == pick(cli.raw_banner, file.raw_banner, false)
            &&& s.save_file@ == pick_text(cli.save_file, file.save_file, DEFAULT_SAVE_FILE@)
            &&& s.max_connections == pick(cli.max_connections, file.max_connections, DEFAULT_MAX_CONNECTIONS)
            &&& s.rate == pick(cli.rate, file.rate, DEFAULT_RATE)
        },
{
    if cli.target.is_none() && file.target.is_none() {
        return Err(SettingsError::MissingTarget);
    }
    let target = first_text(cli.target, file.target, "");
    let popular = first_of(cli.popular, file.popular, false);
    let ports = if popular {
        None
    } else {
        Some(first_text(cli.ports, file.ports, DEFAULT_PORTS))
    };
    Ok(Settings {
        target,
        ports,
        popular,
        concurrency: first_of(cli.concurrency, file.concurrency, DEFAULT_CONCURRENCY),
        timeout_ms: first_of(cli.timeout_ms, file.timeout_ms, DEFAULT_TIMEOUT_MS),
        banner_bytes: first_of(cli.banner_bytes, file.banner_bytes, DEFAULT_BANNER_BYTES),
        passive: first_of(cli.passive, file.passive, false),
        json: first_of(cli.json, file.json, false),
        open_only: first_of(cli.open_only, file.open_only, false),
        raw_banner: first_of(cli.raw_banner, file.raw_banner, false),
        save_file: first_text(cli.save_file, file.save_file, DEFAULT_SAVE_FILE),
        max_connections: first_of(cli.max_connections, file.max_connections, DEFAULT_MAX_CONNECTIONS),
        rate: first_of(cli.rate, file.rate, DEFAULT_RATE),
    })
}

pub open spec fn opt_text(o: Option<String>) -> Option<Seq<char>> {
    match o {
        Some(s) => Some(s@),
        None => None,
    }
}

/// The merged settings as a configuration file holds them, every field set
/// but the port specification when popular ports are scanned.
pub fn effective_config(s: &Settings) -> (r: FileConfig)
    ensures
        opt_text(r.target) == Some(s.target@),
        opt_text(r.ports) == opt_text(s.ports),
        r.popular == Some(s.popular),
        r.concurrency == Some(s.concurrency),
        r.timeout_ms == Some(s.timeout_ms),
        r.banner_bytes == Some(s.banner_bytes),
        r.passive == Some(s.passive),
        r.json == Some(s.json),
        r.open_only == Some(s.open_only),
        r.raw_banner == Some(s.raw_banner),
        opt_text(r.save_file) == Some(s.save_file@),
        r.max_connections == Some(s.max_connections),
        r.rate == Some(s.rate),
{
    let ports = match &s.ports {
        Some(p) => Some(p.clone()),
        None => None,
    };
    FileConfig {
        target: Some(s.target.clone()),
        ports,
        popular: Some(s.popular),
        concurrency: Some(s.concurrency),
        timeout_ms: Some(s.timeout_ms),
        banner_bytes: Some(s.banner_bytes),
        passive: Some(s.passive),
        json: Some(s.json),
        open_only: Some(s.open_only),
        raw_banner: Some(s.raw_banner),
        save_file: Some(s.save_file.clone()),
        max_connections: Some(s.max_connections),
        rate: Some(s.rate),
    }
}

/// Commonly used TCP ports, ascending.
pub open spec fn popular_ports_list() -> Seq<u16> {
    seq![
        20, 21, 22, 23, 25, 53, 67, 68, 69, 80, 110, 111, 123, 135, 137, 138, 139, 143, 161, 162,
        443, 445, 500, 514, 520, 631, 993, 995, 1434, 1723, 1900, 3306, 3389, 4500, 5900, 8080,
        49152,
    ]
}

pub fn popular_ports() -> (r: Vec<u16>)
    ensures
        r@ == popular_ports_list(),
{
    let ports: [u16; 37] = [
        20, 21, 22, 23, 25, 53, 67, 68, 69, 80, 110, 111, 123, 135, 137, 138, 139, 143, 161, 162,
        443, 445, 500, 514, 520, 631, 993, 995, 1434, 1723, 1900, 3306, 3389, 4500, 5900, 8080,
        49152,
    ];
    assert(ports@ =~= popular_ports_list());
    vstd::slice::slice_to_vec(&ports)
}

/// The ports a run scans: the popular ones, or those of the port specification.
pub fn select_ports(s: &Settings) -> (r: Result<Vec<u16>, PortSpecError>)
    ensures
        s.popular ==> (r matches Ok(v) && v@ == popular_ports_list()),
        !s.popular ==> ports_result_of(
            match s.ports {
                Some(p) => p@,
                None => DEFAULT_PORTS@,
            },
            r,
        ),
{
    if s.popular {
        return Ok(popular_ports());
    }
    match &s.ports {
        Some(p) => parse_ports(p.as_str()),
        None => parse_ports(DEFAULT_PORTS),
    }
}

} // verus!
