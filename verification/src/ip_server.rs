//! What the IP server keeps of its clients: the interfaces each client last
//! reported, by the client's address.
use vstd::hash_map::StringHashMap;
use vstd::prelude::*;
use vstd::string::StringExecFns;

use crate::ip_common::NetDevice;

verus! {

/// The interfaces reported by each client, by the client's IP address.
pub struct RemoteTable {
    pub remotes: StringHashMap<Vec<NetDevice>>,
}

pub open spec fn not_recorded_message(client_ip: Seq<char>) -> Seq<char> {
    client_ip + " not in remote_addr"@
}

impl RemoteTable {
    /// A table with no client.
    pub fn new() -> (r: RemoteTable)
        ensures
            r.remotes@ == Map::<Seq<char>, Vec<NetDevice>>::empty(),
    {
        RemoteTable { remotes: StringHashMap::new() }
    }

    /// Records the interfaces that `client_ip` reported, replacing earlier ones.
    pub fn add_remote(&mut self, client_ip: String, net_devices: Vec<NetDevice>)
        ensures
            final(self).remotes@ == old(self).remotes@.insert(client_ip@, net_devices),
    {
        self.remotes.insert(client_ip, net_devices);
    }

    /// The interfaces last reported by `client_ip`, to be written to disk; an
    /// error naming the client when it has reported none.
    pub fn remote_devices(&self, client_ip: &str) -> (r: Result<&Vec<NetDevice>, String>)
        ensures
            match r {
                Ok(ds) => self.remotes@.contains_key(client_ip@) && *ds == self.remotes@[client_ip@],
                Err(e) => !self.remotes@.contains_key(client_ip@) && e@ == not_recorded_message(
                    client_ip@,
                ),
            },
    {
        match self.remotes.get(client_ip) {
            Some(ds) => Ok(ds),
            None => {
                let mut e = String::from_str(client_ip);
                e.append(" not in remote_addr");
                Err(e)
            },
        }
    }
}


/// What a client reported last is what the table gives back for it, and
/// recording one client leaves what the others reported as it was.
pub proof fn lemma_remote_read_after_write(
    table: Map<Seq<char>, Vec<NetDevice>>,
    client_ip: Seq<char>,
    net_devices: Vec<NetDevice>,
    other_ip: Seq<char>,
)
    ensures
        table.insert(client_ip, net_devices).contains_key(client_ip),
        table.insert(client_ip, net_devices)[client_ip] == net_devices,
        other_ip != client_ip ==> (table.insert(client_ip, net_devices).contains_key(other_ip)
            == table.contains_key(other_ip) && (table.contains_key(other_ip) ==> table.insert(
            client_ip,
            net_devices,
        )[other_ip] == table[other_ip])),
{
}

} // verus!
