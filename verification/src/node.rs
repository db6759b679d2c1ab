//! Addressing: named nodes, their hosts, and the url every API call to a
//! node is made against.

use vstd::prelude::*;
use vstd::string::{StrSliceExecFns, StringExecFns};

use crate::time::Timestamp;

verus! {

/// The decimal digit character of `d`.
pub open spec fn spec_digit(d: nat) -> char {
    if d == 0 {
        '0'
    } else if d == 1 {
        '1'
    } else if d == 2 {
        '2'
    } else if d == 3 {
        '3'
    } else if d == 4 {
        '4'
    } else if d == 5 {
        '5'
    } else if d == 6 {
        '6'
    } else if d == 7 {
        '7'
    } else if d == 8 {
        '8'
    } else {
        '9'
    }
}

/// The decimal notation of `n`, most significant digit first, without
/// leading zeros.
pub open spec fn spec_dec(n: nat) -> Seq<char>
    decreases n,
{
    if n < 10 {
        seq![spec_digit(n)]
    } else {
        spec_dec(n / 10).push(spec_digit(n % 10))
    }
}

fn digit_str(d: u64) -> (r: &'static str)
    requires
        d < 10,
    ensures
        r@ == seq![spec_digit(d as nat)],
{
    proof {
        reveal_strlit("0");
        reveal_strlit("1");
        reveal_strlit("2");
        reveal_strlit("3");
        reveal_strlit("4");
        reveal_strlit("5");
        reveal_strlit("6");
        reveal_strlit("7");
        reveal_strlit("8");
        reveal_strlit("9");
    }
    let r = if d == 0 {
        "0"
    } else if d == 1 {
        "1"
    } else if d == 2 {
        "2"
    } else if d == 3 {
        "3"
    } else if d == 4 {
        "4"
    } else if d == 5 {
        "5"
    } else if d == 6 {
        "6"
    } else if d == 7 {
        "7"
    } else {
        "9"
    };
    let r = if d == 8 {
        "8"
    } else {
        r
    };
    proof {
        assert(r@ =~= seq![spec_digit(d as nat)]);
    }
    r
}

/// Write `n` in decimal notation.
pub fn u64_to_string(n: u64) -> (r: String)
    ensures
        r@ == spec_dec(n as nat),
    decreases n,
{
    if n < 10 {
        digit_str(n).to_owned()
    } else {
        let mut s = u64_to_string(n / 10);
        s.append(digit_str(n % 10));
        proof {
            assert(s@ =~= spec_dec((n / 10) as nat).push(spec_digit((n % 10) as nat)));
        }
        s
    }
}

/// Where a node is reachable: a domain name, or a literal address.
#[derive(Clone, Debug, PartialEq, Eq)]
pub enum Host {
    Domain(String),
    /// The four octets of a dotted-quad address.
    Ipv4(u8, u8, u8, u8),
    /// An address in its canonical textual form.
    Ipv6(String),
}

/// The text a host is written as inside a url.
pub open spec fn spec_host_text(h: Host) -> Seq<char> {
    match h {
        Host::Domain(d) => d@,
        Host::Ipv4(a, b, c, d) => spec_dec(a as nat) + "."@ + spec_dec(b as nat) + "."@ + spec_dec(
            c as nat,
        ) + "."@ + spec_dec(d as nat),
        Host::Ipv6(s) => s@,
    }
}

impl Host {
    /// Write the host as it stands inside a url.
    pub fn text(&self) -> (r: String)
        ensures
            r@ == spec_host_text(*self),
    {
        match self {
            Host::Domain(d) => d.clone(),
            Host::Ipv4(a, b, c, d) => {
                let mut s = u64_to_string(*a as u64);
                s.append(".");
                let sb = u64_to_string(*b as u64);
                s.append(sb.as_str());
                s.append(".");
                let sc = u64_to_string(*c as u64);
                s.append(sc.as_str());
                s.append(".");
                let sd = u64_to_string(*d as u64);
                s.append(sd.as_str());
                s
            },
            Host::Ipv6(s) => s.clone(),
        }
    }
}

/// The name a node is configured and addressed under.
#[derive(Clone, Debug, PartialEq, Eq)]
pub struct Name(String);

impl View for Name {
    type V = Seq<char>;

    closed spec fn view(&self) -> Seq<char> {
        self.0@
    }
}

impl Name {
    pub fn new(s: &str) -> (r: Name)
        ensures
            r@ == s@,
    {
        Name(s.to_owned())
    }

    pub fn as_str(&self) -> (r: &str)
        ensures
            r@ == self@,
    {
        self.0.as_str()
    }
}

/// One tracked history source: its name and the low-water mark for its
/// next incremental pull.
#[derive(Clone, Debug, PartialEq, Eq)]
pub struct Provider {
    pub name: String,
    pub last_import_time: Timestamp,
}

/// An addressable instance of the service: addressing only, no behavior.
#[derive(Clone, Debug, PartialEq, Eq)]
pub struct Node {
    pub host: Host,
    pub tls: bool,
    pub port: Option<u16>,
}

impl Node {
    /// The full url of one API end point on this node: scheme by the tls
    /// flag, the host, the port where one is set, then `/api` and the end
    /// point.
    pub fn api_url(&self, end_point: &str) -> (r: String)
        ensures
            r@ == (if self.tls {
                "https"@
            } else {
                "http"@
            }) + "://"@ + spec_host_text(self.host) + (match self.port {
                Some(p) => ":"@ + spec_dec(p as nat),
                None => Seq::<char>::empty(),
            }) + "/api"@ + end_point@,
    {
        let mut s: String = if self.tls {
            "https".to_owned()
        } else {
            "http".to_owned()
        };
        s.append("://");
        let host = self.host.text();
        s.append(host.as_str());
        match self.port {
            Some(p) => {
                s.append(":");
                let ps = u64_to_string(p as u64);
                s.append(ps.as_str());
            },
            None => {},
        }
        s.append("/api");
        s.append(end_point);
        proof {
            assert(s@ =~= (if self.tls {
                "https"@
            } else {
                "http"@
            }) + "://"@ + spec_host_text(self.host) + (match self.port {
                Some(p) => ":"@ + spec_dec(p as nat),
                None => Seq::<char>::empty(),
            }) + "/api"@ + end_point@);
        }
        s
    }
}

/// The configured nodes, by name.
#[derive(Clone, Debug, PartialEq, Eq)]
pub struct Nodes {
    pub entries: Vec<(String, Node)>,
}

impl Nodes {
    /// The node configured under `name`: the first entry of that name, or
    /// nothing when none is.
    pub fn get(&self, name: &str) -> (r: Option<&Node>)
        ensures
            match r {
                Some(n) => exists|i: int|
                    0 <= i < self.entries@.len() && self.entries@[i].0@ == name@
                        && *n == self.entries@[i].1,
                None => forall|i: int|
                    0 <= i < self.entries@.len() ==> self.entries@[i].0@ != name@,
            },
    {
        let mut i: usize = 0;
        while i < self.entries.len()
            invariant
                i <= self.entries.len(),
                forall|j: int| 0 <= j < i ==> self.entries@[j].0@ != name@,
            decreases self.entries.len() - i,
        {
            if crate::strutil::str_eq(self.entries[i].0.as_str(), name) {
                return Some(&self.entries[i].1);
            }
            i += 1;
        }
        None
    }
}

} // verus!
