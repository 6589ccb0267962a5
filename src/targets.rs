use vstd::prelude::*;

verus! {

/// The host addresses of the network that a text in CIDR notation names,
/// each as text; `None` for text that is not in CIDR notation.
pub uninterp spec fn cidr_hosts(s: Seq<char>) -> Option<Seq<Seq<char>>>;

pub open spec fn texts(v: Seq<String>) -> Seq<Seq<char>> {
    v.map_values(|h: String| h@)
}

/// Relies on ipnet: `IpNet::from_str` reads `input` as a network in CIDR
/// notation, and `IpNet::hosts` lists that network's host addresses, each
/// shown as `IpAddr` displays itself.
#[verifier::external_body]
fn expand_cidr(input: &str) -> (r: Option<Vec<String>>)
    ensures
        r is Some <==> cidr_hosts(input@) is Some,
        r matches Some(v) ==> texts(v@) == cidr_hosts(input@)->0,
{
    input.parse::<ipnet::IpNet>().ok().map(|net| net.hosts().map(|ip| ip.to_string()).collect())
}

/// The most hosts that one target may expand to.
pub const MAX_HOSTS: usize = 100_000;

/// A target that cannot be scanned as given.
#[derive(Debug, PartialEq, Eq, Structural)]
pub enum TargetError {
    /// The network holds this many hosts, more than `MAX_HOSTS`.
    TooManyHosts(usize),
}

/// The targets for a target text, given what its CIDR expansion gave:
/// the network's hosts, or the text itself when it is not a network.
pub fn targets_from(input: &str, expansion: Option<Vec<String>>) -> (r: Result<Vec<String>, TargetError>)
    ensures
        match expansion {
            Some(h) => if h@.len() > MAX_HOSTS {
                r == Err::<Vec<String>, TargetError>(TargetError::TooManyHosts(h@.len() as usize))
            } else {
                (r matches Ok(v) && v@ == h@)
            },
            None => (r matches Ok(v) && texts(v@) == seq![input@]),
        },
{
    match expansion {
        Some(hosts) => {
            if hosts.len() > MAX_HOSTS {
                Err(TargetError::TooManyHosts(hosts.len()))
            } else {
                Ok(hosts)
            }
        },
        None => {
            let mut v: Vec<String> = Vec::new();
            v.push(input.to_owned());
            assert(texts(v@) =~= seq![input@]);
            Ok(v)
        },
    }
}

/// Resolves a target text into the hosts to scan: every host of a network
/// in CIDR notation (at most `MAX_HOSTS`), else the text itself as one host.
pub fn parse_targets(input: &str) -> (r: Result<Vec<String>, TargetError>)
    ensures
        match cidr_hosts(input@) {
            Some(h) => if h.len() > MAX_HOSTS {
                r == Err::<Vec<String>, TargetError>(TargetError::TooManyHosts(h.len() as usize))
            } else {
                (r matches Ok(v) && texts(v@) == h)
            },
            None => (r matches Ok(v) && texts(v@) == seq![input@]),
        },
{
    let expansion = expand_cidr(input);
    targets_from(input, expansion)
}

} // verus!
