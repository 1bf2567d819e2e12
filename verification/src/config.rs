pub mod ipv4;
pub mod ipv6;

use vstd::prelude::*;

use crate::credential::Credential;
use crate::ip::IpAddress;
use crate::ipaddr_source::interface::InterfaceSource;
use crate::ipaddr_source::web_source::WebSource;
use crate::types::Ddns6Error;

verus! {

/// The whole configuration file.
#[derive(Debug, Clone)]
pub struct Config {
    pub version: String,
    pub log_level: String,
    pub entries: Vec<DdnsEntry>,
}

/// One host whose DNS records are kept up to date.
#[derive(Debug, Clone)]
pub struct DdnsEntry {
    pub hostname: String,
    pub provider: String,
    pub username: String,
    pub password: String,
    pub ipv4: Option<IPAddressConf>,
    pub ipv6: Option<IPAddressConf>,
}

/// How an address is put together: a fixed address, a source that is asked
/// for one, or an address derived from others by masking and combining.
#[derive(Debug)]
pub enum IPAddressConf {
    Static(IpAddress),
    AddressWithPrefixLength { addr: Box<IPAddressConf>, len: i32 },
    AddressWithNetmask { addr: Box<IPAddressConf>, mask: IpAddress },
    Composite(Vec<IPAddressConf>),
    Interface(InterfaceSource),
    Web(WebSource),
}

/// A place that an address is fetched from.
#[derive(Debug, Clone)]
pub enum AddressSource {
    Interface(InterfaceSource),
    Web(WebSource),
}

/// What a source answered when asked for an IPv4 address: the address, or
/// the error that it failed with, as the text that the error shows.
pub type Ipv4Answer = Result<[u8; 4], Ddns6Error>;

/// What a source answered when asked for an IPv6 address: the address, or
/// the error that it failed with, as the text that the error shows.
pub type Ipv6Answer = Result<[u8; 16], Ddns6Error>;

/// The sources that a configuration asks, in the order in which they appear in it.
pub open spec fn spec_sources(c: IPAddressConf) -> Seq<AddressSource>
    decreases c,
{
    match c {
        IPAddressConf::Static(_) => seq![],
        IPAddressConf::AddressWithPrefixLength { addr, len: _ } => spec_sources(*addr),
        IPAddressConf::AddressWithNetmask { addr, mask: _ } => spec_sources(*addr),
        IPAddressConf::Composite(v) => sources_of_list(v@),
        IPAddressConf::Interface(i) => seq![AddressSource::Interface(i)],
        IPAddressConf::Web(w) => seq![AddressSource::Web(w)],
    }
}

/// The sources of a list of configurations, one after another.
pub open spec fn sources_of_list(cs: Seq<IPAddressConf>) -> Seq<AddressSource>
    decreases cs,
{
    if cs.len() == 0 {
        seq![]
    } else {
        sources_of_list(cs.drop_last()) + spec_sources(cs.last())
    }
}

/// The answers that belong to part `i` of a list, out of the answers of the whole list.
pub open spec fn part_answers<T>(cs: Seq<IPAddressConf>, ans: Seq<T>, i: int) -> Seq<T> {
    ans.subrange(sources_of_list(cs.take(i)).len() as int, sources_of_list(cs.take(i + 1)).len() as int)
}

pub(crate) proof fn lemma_sources_take(cs: Seq<IPAddressConf>, i: int)
    requires
        0 <= i < cs.len(),
    ensures
        sources_of_list(cs.take(i + 1)) == sources_of_list(cs.take(i)) + spec_sources(cs[i]),
{
    assert(cs.take(i + 1).drop_last() =~= cs.take(i));
}


pub(crate) proof fn lemma_sources_prefix(cs: Seq<IPAddressConf>, i: int)
    requires
        0 <= i <= cs.len(),
    ensures
        sources_of_list(cs.take(i)).len() <= sources_of_list(cs).len(),
    decreases cs.len() - i,
{
    if i == cs.len() {
        assert(cs.take(i) =~= cs);
    } else {
        lemma_sources_take(cs, i);
        lemma_sources_prefix(cs, i + 1);
    }
}

/// Two configurations that are equal part for part.
pub open spec fn same_conf(a: IPAddressConf, b: IPAddressConf) -> bool
    decreases a,
{
    match (a, b) {
        (IPAddressConf::AddressWithPrefixLength { addr: x, len: l1 }, IPAddressConf::AddressWithPrefixLength { addr: y, len: l2 }) =>
            l1 == l2 && same_conf(*x, *y),
        (IPAddressConf::AddressWithNetmask { addr: x, mask: m1 }, IPAddressConf::AddressWithNetmask { addr: y, mask: m2 }) =>
            m1 == m2 && same_conf(*x, *y),
        (IPAddressConf::Composite(v1), IPAddressConf::Composite(v2)) => v1@.len() == v2@.len() && forall|i: int|
            0 <= i < v1@.len() ==> same_conf(#[trigger] v1@[i], v2@[i]),
        _ => a == b,
    }
}

impl Clone for IPAddressConf {
    /// A copy of the configuration, equal to it part for part.
    fn clone(&self) -> (res: IPAddressConf)
        ensures
            same_conf(res, *self),
        decreases self,
    {
        match self {
            IPAddressConf::Static(a) => match a {
                IpAddress::V4(o) => IPAddressConf::Static(IpAddress::V4(*o)),
                IpAddress::V6(o) => IPAddressConf::Static(IpAddress::V6(*o)),
            },
            IPAddressConf::AddressWithPrefixLength { addr, len } => {
                let inner: IPAddressConf = (**addr).clone();
                IPAddressConf::AddressWithPrefixLength { addr: Box::new(inner), len: *len }
            },
            IPAddressConf::AddressWithNetmask { addr, mask } => {
                let inner: IPAddressConf = (**addr).clone();
                IPAddressConf::AddressWithNetmask { addr: Box::new(inner), mask: *mask }
            },
            IPAddressConf::Composite(v) => {
                let n = v.len();
                let mut parts: Vec<IPAddressConf> = Vec::new();
                for i in 0..n
                    invariant
                        n == v@.len(),
                        *self == IPAddressConf::Composite(*v),
                        parts@.len() == i,
                        forall|k: int| 0 <= k < i ==> same_conf(#[trigger] parts@[k], v@[k]),
                {
                    proof {
                        assert(decreases_to!(*self => (*self)->Composite_0));
                        assert(decreases_to!(*v => v@));
                        assert(decreases_to!(v@ => v@[i as int]));
                    }
                    let part = v[i].clone();
                    parts.push(part);
                }
                IPAddressConf::Composite(parts)
            },
            IPAddressConf::Interface(i) => IPAddressConf::Interface(InterfaceSource { dev: i.dev.clone() }),
            IPAddressConf::Web(w) => IPAddressConf::Web(WebSource { web: w.web.clone() }),
        }
    }
}

impl DdnsEntry {
    /// The account that this entry's updates are made with.
    pub fn credential(&self) -> (res: Credential)
        ensures
            res.username@ == self.username@,
            res.password@ == self.password@,
    {
        Credential { username: self.username.clone(), password: self.password.clone() }
    }
}

impl IPAddressConf {
    /// The number of sources of this configuration, counted without listing
    /// them.
    pub fn sources_len(&self) -> (n: usize)
        requires
            spec_sources(*self).len() <= usize::MAX,
        ensures
            n == spec_sources(*self).len(),
        decreases self,
    {
        match self {
            IPAddressConf::Static(_) => 0,
            IPAddressConf::AddressWithPrefixLength { addr, len: _ } => addr.sources_len(),
            IPAddressConf::AddressWithNetmask { addr, mask: _ } => addr.sources_len(),
            IPAddressConf::Composite(v) => {
                let n = v.len();
                let mut total: usize = 0;
                for i in 0..n
                    invariant
                        n == v@.len(),
                        *self == IPAddressConf::Composite(*v),
                        sources_of_list(v@).len() <= usize::MAX,
                        total == sources_of_list(v@.take(i as int)).len(),
                {
                    proof {
                        lemma_sources_take(v@, i as int);
                        lemma_sources_prefix(v@, i + 1);
                        assert(decreases_to!(*self => (*self)->Composite_0));
                        assert(decreases_to!(*v => v@));
                        assert(decreases_to!(v@ => v@[i as int]));
                    }
                    let k = v[i].sources_len();
                    total = total + k;
                }
                assert(v@.take(n as int) =~= v@);
                total
            },
            IPAddressConf::Interface(_) => 1,
            IPAddressConf::Web(_) => 1,
        }
    }

    /// The sources of this configuration, in order.
    pub fn sources(&self) -> (res: Vec<AddressSource>)
        ensures
            res@ == spec_sources(*self),
        decreases self,
    {
        match self {
            IPAddressConf::Static(_) => Vec::new(),
            IPAddressConf::AddressWithPrefixLength { addr, len: _ } => addr.sources(),
            IPAddressConf::AddressWithNetmask { addr, mask: _ } => addr.sources(),
            IPAddressConf::Composite(v) => {
                let mut res: Vec<AddressSource> = Vec::new();
                let n = v.len();
                for i in 0..n
                    invariant
                        n == v@.len(),
                        *self == IPAddressConf::Composite(*v),
                        res@ == sources_of_list(v@.take(i as int)),
                {
                    proof {
                        lemma_sources_take(v@, i as int);
                        assert(decreases_to!(*self => (*self)->Composite_0));
                        assert(decreases_to!(*v => v@));
                        assert(decreases_to!(v@ => v@[i as int]));
                    }
                    let mut s = v[i].sources();
                    res.append(&mut s);
                }
                assert(v@.take(n as int) =~= v@);
                res
            },
            IPAddressConf::Interface(i) => {
                let mut res = Vec::new();
                res.push(AddressSource::Interface(InterfaceSource { dev: i.dev.clone() }));
                res
            },
            IPAddressConf::Web(w) => {
                let mut res = Vec::new();
                res.push(AddressSource::Web(WebSource { web: w.web.clone() }));
                res
            },
        }
    }
}

} // verus!
