//! The table of clients connected to the IP service: IP address to host name.
use vstd::hash_map::StringHashMap;
use vstd::prelude::*;
use vstd::string::StringExecFns;

verus! {

/// Declares `std::io::Error`, so that `std::io::Result` can stand in the
/// signatures below; nothing is claimed of its values.
#[verifier::external_type_specification]
#[verifier::external_body]
pub struct ExIoError(std::io::Error);

/// The clients connected to the service, by IP address, with their host names.
pub struct CommonClient {
    pub conn_client: StringHashMap<String>,
}

impl CommonClient {
    /// An empty table.
    pub fn new() -> (r: CommonClient)
        ensures
            r.conn_client@ == Map::<Seq<char>, String>::empty(),
    {
        CommonClient { conn_client: StringHashMap::new() }
    }

    /// Records the client `ip` with host name `hostname`, replacing what was
    /// recorded for it. It always succeeds.
    pub fn set_client(&mut self, ip: String, hostname: String) -> (r: std::io::Result<()>)
        ensures
            final(self).conn_client@ == old(self).conn_client@.insert(ip@, hostname),
            r is Ok,
    {
        self.conn_client.insert(ip, hostname);
        Ok(())
    }

    /// Forgets the client `ip`, if it was recorded. It always succeeds.
    pub fn remove_client(&mut self, ip: String) -> (r: std::io::Result<()>)
        ensures
            final(self).conn_client@ == old(self).conn_client@.remove(ip@),
            r is Ok,
    {
        self.conn_client.remove(ip.as_str());
        Ok(())
    }
}

impl CommonClient {
    /// The host name recorded for the client `ip`.
    pub fn hostname_of(&self, ip: &str) -> (r: Option<String>)
        ensures
            match r {
                Some(h) => self.conn_client@.contains_key(ip@) && h == self.conn_client@[ip@],
                None => !self.conn_client@.contains_key(ip@),
            },
    {
        match self.conn_client.get(ip) {
            Some(h) => Some(h.clone()),
            None => None,
        }
    }

    /// The number of clients recorded.
    pub fn client_count(&self) -> (r: usize)
        ensures
            r == self.conn_client@.len(),
    {
        self.conn_client.len()
    }
}

impl Default for CommonClient {
    fn default() -> (r: CommonClient)
        ensures
            r.conn_client@ == Map::<Seq<char>, String>::empty(),
    {
        CommonClient::new()
    }
}

/// The kinds of I/O error that recording a client reports (those of
/// `std::io::ErrorKind` it uses).
#[derive(Debug, Clone, Copy, PartialEq, Eq, Structural)]
pub enum ClientErrorKind {
    /// The request carries no peer address.
    AddrNotAvailable,
}

/// Why a request's client could not be recorded: the I/O error kind and its
/// message.
#[derive(Debug)]
pub struct ClientError {
    pub kind: ClientErrorKind,
    pub message: String,
}

pub open spec fn no_peer_message() -> Seq<char> {
    "remote_addr is None"@
}

/// The error for a request that carries no peer address.
fn no_peer_error() -> (e: ClientError)
    ensures
        e.kind == ClientErrorKind::AddrNotAvailable,
        e.message@ == no_peer_message(),
{
    ClientError { kind: ClientErrorKind::AddrNotAvailable, message: String::from_str("remote_addr is None") }
}

/// Records the client of a request in `clients`. `remote` is the request's
/// peer, as its IP address and its socket address in text (a socket address
/// resolves to itself), or `None` where the request has no peer address: that
/// is an `AddrNotAvailable` error, "remote_addr is None", and the table stays
/// as it was. Otherwise the client's IP address is recorded with its socket
/// address.
pub fn set_client_info(clients: &mut CommonClient, remote: Option<(String, String)>) -> (r: Result<
    (),
    ClientError,
>)
    ensures
        remote is None ==> (r matches Err(e) && e.kind == ClientErrorKind::AddrNotAvailable
            && e.message@ == no_peer_message()),
        remote is None ==> final(clients).conn_client@ == old(clients).conn_client@,
        remote matches Some((ip, addr)) ==> r is Ok && final(clients).conn_client@ == old(
            clients,
        ).conn_client@.insert(ip@, addr),
{
    match remote {
        None => Err(no_peer_error()),
        Some((ip, addr)) => {
            let _ = clients.set_client(ip.clone(), String::new());
            let _ = clients.set_client(ip, addr);
            Ok(())
        },
    }
}

/// The client of a request: its IP address and its socket address in text.
/// The client's IP address is recorded in `clients` with an empty host name.
/// Without a peer address (`remote` is `None`) it is an `AddrNotAvailable`
/// error, "remote_addr is None", and the table stays as it was.
pub fn get_client_info(clients: &mut CommonClient, remote: Option<(String, String)>) -> (r: Result<
    (String, String),
    ClientError,
>)
    ensures
        remote is None ==> (r matches Err(e) && e.kind == ClientErrorKind::AddrNotAvailable
            && e.message@ == no_peer_message()),
        remote is None ==> final(clients).conn_client@ == old(clients).conn_client@,
        remote matches Some((ip, addr)) ==> r matches Ok((rip, raddr)) && rip@ == ip@ && raddr@
            == addr@ && final(clients).conn_client@ == old(clients).conn_client@.insert(
            ip@,
            final(clients).conn_client@[ip@],
        ) && final(clients).conn_client@[ip@]@ == Seq::<char>::empty(),
{
    match remote {
        None => Err(no_peer_error()),
        Some((ip, addr)) => {
            let key = ip.clone();
            let _ = clients.set_client(key, String::new());
            Ok((ip, addr))
        },
    }
}

/// After recording a client, the table gives its host name; recording a new
/// client and then forgetting it leaves the table as it was; a forgotten
/// client is no longer in the table.
pub proof fn lemma_client_table(table: Map<Seq<char>, String>, ip: Seq<char>, hostname: String)
    ensures
        table.insert(ip, hostname).contains_key(ip),
        table.insert(ip, hostname)[ip] == hostname,
        !table.contains_key(ip) ==> table.insert(ip, hostname).remove(ip) == table,
        !table.remove(ip).contains_key(ip),
{
    if !table.contains_key(ip) {
        assert(table.insert(ip, hostname).remove(ip) =~= table);
    }
}

} // verus!
