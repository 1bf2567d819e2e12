use vstd::prelude::*;

use crate::protocol::dyndns2::{update_url_text, DynDns2};

verus! {

/// The base URL of Hurricane Electric's update server.
pub open spec fn he_net_server() -> Seq<char> {
    "https://dyn.dns.he.net"@
}

/// Hurricane Electric's free DNS service, updated with the dyndns2 protocol.
#[derive(Debug, Clone)]
pub struct HeNetProvider {
    protocol: DynDns2,
}

impl HeNetProvider {
    /// The base URL of the server that this provider updates.
    pub closed spec fn spec_server_url(&self) -> Seq<char> {
        self.protocol.spec_server_url()
    }

    pub fn new() -> (res: HeNetProvider)
        ensures
            res.spec_server_url() == he_net_server(),
    {
        let protocol = DynDns2::new("https://dyn.dns.he.net");
        HeNetProvider { protocol }
    }

    /// The protocol client that this provider updates with.
    pub fn protocol(&self) -> (res: &DynDns2)
        ensures
            res.spec_server_url() == self.spec_server_url(),
    {
        &self.protocol
    }
}


/// Every update that the Hurricane Electric provider sends goes to
/// `https://dyn.dns.he.net/`: its URL begins with those 23 characters.
pub proof fn law_he_net_updates_go_to_he_net(domain_name: Seq<char>, ip_text: Seq<char>)
    ensures
        update_url_text(he_net_server(), domain_name, ip_text).take(23) == "https://dyn.dns.he.net/"@,
{
    reveal_strlit("https://dyn.dns.he.net");
    reveal_strlit("https://dyn.dns.he.net/");
    reveal_strlit("/nic/update?hostname=");
    assert(update_url_text(he_net_server(), domain_name, ip_text).take(23) =~= "https://dyn.dns.he.net/"@);
}

} // verus!
