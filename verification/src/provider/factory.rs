use vstd::prelude::*;

use crate::provider::he_net::{he_net_server, HeNetProvider};

verus! {

/// The providers in use, each under the name that the configuration gives it.
pub struct ProviderFactory {
    providers: Vec<(String, HeNetProvider)>,
}

/// The registrations as pairs of name and the server that the provider updates.
pub open spec fn registration(e: (String, HeNetProvider)) -> (Seq<char>, Seq<char>) {
    (e.0@, e.1.spec_server_url())
}

/// `name` is registered.
pub open spec fn is_registered(regs: Seq<(Seq<char>, Seq<char>)>, name: Seq<char>) -> bool {
    exists|i: int| 0 <= i < regs.len() && #[trigger] regs[i].0 == name
}

/// No name is registered twice.
pub open spec fn names_distinct(regs: Seq<(Seq<char>, Seq<char>)>) -> bool {
    forall|i: int, j: int| 0 <= i < regs.len() && 0 <= j < regs.len() && i != j ==> #[trigger] regs[i].0 != #[trigger] regs[j].0
}

/// No name is registered twice, and every provider updates Hurricane
/// Electric's server.
pub open spec fn registry_ok(regs: Seq<(Seq<char>, Seq<char>)>) -> bool {
    &&& names_distinct(regs)
    &&& forall|i: int| 0 <= i < regs.len() ==> #[trigger] regs[i].1 == he_net_server()
}

/// The registrations after asking for the provider of `name`: a name not yet
/// registered gets a new Hurricane Electric provider, at the end.
pub open spec fn after_get(regs: Seq<(Seq<char>, Seq<char>)>, name: Seq<char>) -> Seq<(Seq<char>, Seq<char>)> {
    if is_registered(regs, name) {
        regs
    } else {
        regs.push((name, he_net_server()))
    }
}

/// Asking again for the provider of a name changes nothing: a name is
/// registered at most once, by the first request for it.
pub proof fn law_get_registers_once(regs: Seq<(Seq<char>, Seq<char>)>, name: Seq<char>)
    ensures
        after_get(after_get(regs, name), name) == after_get(regs, name),
        is_registered(after_get(regs, name), name),
{
    if !is_registered(regs, name) {
        let r2 = regs.push((name, he_net_server()));
        assert(r2[regs.len() as int].0 == name);
    }
}

impl ProviderFactory {
    /// The registrations, in the order in which they were made.
    pub closed spec fn registrations(&self) -> Seq<(Seq<char>, Seq<char>)> {
        self.providers@.map_values(|e: (String, HeNetProvider)| registration(e))
    }

    /// No name is registered twice, and every provider updates Hurricane
    /// Electric's server.
    #[verifier::type_invariant]
    closed spec fn inv(self) -> bool {
        registry_ok(self.registrations())
    }

    /// A factory with no provider registered.
    pub fn new() -> (res: ProviderFactory)
        ensures
            res.registrations() == Seq::<(Seq<char>, Seq<char>)>::empty(),
    {
        let res = ProviderFactory { providers: Vec::new() };
        assert(res.registrations() =~= Seq::<(Seq<char>, Seq<char>)>::empty());
        res
    }

    /// The number of names registered.
    pub fn len(&self) -> (res: usize)
        ensures
            res == self.registrations().len(),
    {
        self.providers.len()
    }

    /// The provider registered under `name`, registering a Hurricane Electric
    /// provider under it first if there is none.
    pub fn get(&mut self, name: &str) -> (res: &HeNetProvider)
        ensures
            registry_ok(final(self).registrations()),
            final(self).registrations() == after_get(old(self).registrations(), name@),
            res.spec_server_url() == he_net_server(),
    {
        proof {
            use_type_invariant(&*self);
        }
        let key = name.to_owned();
        let n = self.providers.len();
        let ghost regs = self.registrations();
        let mut i: usize = 0;
        while i < n
            invariant
                n == self.providers@.len(),
                regs == self.registrations(),
                regs.len() == n,
                registry_ok(regs),
                regs == old(self).registrations(),
                key@ == name@,
                i <= n,
                forall|k: int| 0 <= k < i ==> regs[k].0 != name@,
            decreases n - i,
        {
            if self.providers[i].0 == key {
                assert(regs[i as int].0 == name@);
                assert(is_registered(regs, name@));
                assert(regs[i as int] == registration(self.providers@[i as int]));
                assert(regs[i as int].1 == he_net_server());
                return &self.providers[i].1;
            }
            i = i + 1;
        }
        assert(!is_registered(regs, name@));
        let mut providers: Vec<(String, HeNetProvider)> = Vec::new();
        std::mem::swap(&mut providers, &mut self.providers);
        let provider = HeNetProvider::new();
        providers.push((key, provider));
        let ghost new_regs = regs.push((name@, he_net_server()));
        assert(providers@.map_values(|e: (String, HeNetProvider)| registration(e)) =~= new_regs);
        assert(registry_ok(new_regs)) by {
            assert forall|a: int, b: int|
                0 <= a < new_regs.len() && 0 <= b < new_regs.len() && a != b implies #[trigger] new_regs[a].0
                != #[trigger] new_regs[b].0 by {
                if a < regs.len() && b < regs.len() {
                    assert(new_regs[a] == regs[a] && new_regs[b] == regs[b]);
                } else if a < regs.len() {
                    assert(new_regs[a] == regs[a]);
                } else if b < regs.len() {
                    assert(new_regs[b] == regs[b]);
                }
            }
            assert forall|k: int| 0 <= k < new_regs.len() implies #[trigger] new_regs[k].1 == he_net_server() by {
                if k < regs.len() {
                    assert(new_regs[k] == regs[k]);
                }
            }
        }
        self.providers = providers;
        assert(self.registrations() =~= new_regs);
        &self.providers[n].1
    }
}

} // verus!
