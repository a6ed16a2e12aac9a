//! The addresses at which the server can be reached, and the search for a
//! free port.
use vstd::prelude::*;
use crate::models::{opt_view, ServerInfo, ServerInfoView};
use crate::text::{decimal, has_prefix, push_decimal, starts_with};
pub use crate::foreign::get_local_ip;

verus! {

/// Addresses in `127.0.0.0/8` point back at this machine.
pub open spec fn is_loopback(ip: Seq<char>) -> bool {
    has_prefix(ip, "127."@)
}

/// The address that is used when no other is known.
pub open spec fn fallback_ip() -> Seq<char> {
    "127.0.0.1"@
}

/// `ip:port`.
pub open spec fn address_text(ip: Seq<char>, port: u16) -> Seq<char> {
    ip + seq![':'] + decimal(port as nat)
}

/// The server record for `ip` and `port`: the address `ip:port` and the
/// URL `http://ip:port`.
pub open spec fn server_view(ip: Seq<char>, port: u16) -> ServerInfoView {
    ServerInfoView {
        address: address_text(ip, port),
        port,
        url: "http://"@ + address_text(ip, port),
    }
}

/// The address the server announces: the address the system reports, else
/// the one a UDP probe found, else the loopback address.
pub open spec fn chosen_ip(local: Option<Seq<char>>, probed: Option<Seq<char>>) -> Seq<char> {
    match local {
        Some(ip) => ip,
        None => match probed {
            Some(ip) => ip,
            None => fallback_ip(),
        },
    }
}

/// The list of this machine's addresses: the reported address and then
/// the probed one, each only when it is not a loopback address (and the
/// probed one only when it differs), or the loopback address alone when
/// neither qualifies.
pub open spec fn local_ip_list(local: Option<Seq<char>>, probed: Option<Seq<char>>) -> Seq<
    Seq<char>,
> {
    let first: Seq<Seq<char>> = match local {
        Some(ip) => if !is_loopback(ip) {
            seq![ip]
        } else {
            seq![]
        },
        None => seq![],
    };
    let both: Seq<Seq<char>> = match probed {
        Some(ip) => if !is_loopback(ip) && !first.contains(ip) {
            first.push(ip)
        } else {
            first
        },
        None => first,
    };
    if both.len() == 0 {
        seq![fallback_ip()]
    } else {
        both
    }
}

/// The server records for a list of addresses, taken in turn: a loopback
/// address is skipped once some address has been taken.
pub open spec fn servers_for(ips: Seq<Seq<char>>, port: u16) -> Seq<ServerInfoView>
    decreases ips.len(),
{
    if ips.len() == 0 {
        seq![]
    } else {
        let prev = servers_for(ips.drop_last(), port);
        if is_loopback(ips.last()) && prev.len() > 0 {
            prev
        } else {
            prev.push(server_view(ips.last(), port))
        }
    }
}

/// The views of a list of strings.
pub open spec fn texts(v: Seq<String>) -> Seq<Seq<char>> {
    v.map_values(|s: String| s@)
}

/// The views of a list of server records.
pub open spec fn server_views(v: Seq<ServerInfo>) -> Seq<ServerInfoView> {
    v.map_values(|s: ServerInfo| s@)
}

/// The server record for `ip` and `port`.
pub fn server_info_for(ip: &str, port: u16) -> (r: ServerInfo)
    ensures
        r@ == server_view(ip@, port),
{
    let mut address = String::from_str(ip);
    address.push(':');
    push_decimal(&mut address, port as u64);
    let mut url = String::from_str("http://");
    url.append(address.as_str());
    assert(address@ =~= address_text(ip@, port));
    ServerInfo { address, port, url }
}

/// The server record built from the address the system reported (`local`)
/// and the one a UDP probe found (`probed`).
pub fn server_info_from(port: u16, local: Option<String>, probed: Option<String>) -> (r: ServerInfo)
    ensures
        r@ == server_view(chosen_ip(opt_view(local), opt_view(probed)), port),
{
    match local {
        Some(ip) => server_info_for(ip.as_str(), port),
        None => match probed {
            Some(ip) => server_info_for(ip.as_str(), port),
            None => server_info_for("127.0.0.1", port),
        },
    }
}

/// The server record for `port`, at the address the system reports or,
/// failing that, at `probed` (the address a UDP probe found) or at the
/// loopback address.
pub fn generate_server_info(port: u16, probed: Option<String>) -> (r: Option<ServerInfo>)
    ensures
        r is Some,
        exists|local: Option<Seq<char>>| r->0@ == server_view(chosen_ip(local, opt_view(probed)), port),
{
    let local = get_local_ip();
    let info = server_info_from(port, local, probed);
    assert(info@ == server_view(chosen_ip(opt_view(local), opt_view(probed)), port));
    Some(info)
}

/// Whether `v` holds a string equal to `s`.
fn holds_text(v: &Vec<String>, s: &String) -> (r: bool)
    ensures
        r == texts(v@).contains(s@),
{
    let mut i: usize = 0;
    while i < v.len()
        invariant
            i <= v@.len(),
            forall|j: int| 0 <= j < i ==> v@[j]@ != s@,
        decreases v@.len() - i,
    {
        if v[i] == *s {
            assert(texts(v@)[i as int] == s@);
            return true;
        }
        i = i + 1;
    }
    assert forall|j: int| 0 <= j < texts(v@).len() implies texts(v@)[j] != s@ by {
        assert(texts(v@)[j] == v@[j]@);
    }
    false
}

/// The list of this machine's addresses from the address the system
/// reported (`local`) and the one a UDP probe found (`probed`).
pub fn collect_local_ips(local: Option<String>, probed: Option<String>) -> (r: Vec<String>)
    ensures
        texts(r@) == local_ip_list(opt_view(local), opt_view(probed)),
{
    let mut ips: Vec<String> = Vec::new();
    if let Some(ip) = local {
        if !starts_with(ip.as_str(), "127.") {
            ips.push(ip);
        }
    }
    let ghost first = texts(ips@);
    assert(first == match opt_view(local) {
        Some(ip) => if !is_loopback(ip) {
            seq![ip]
        } else {
            Seq::<Seq<char>>::empty()
        },
        None => Seq::<Seq<char>>::empty(),
    });
    if let Some(ip) = probed {
        if !starts_with(ip.as_str(), "127.") && !holds_text(&ips, &ip) {
            ips.push(ip);
            assert(texts(ips@) =~= first.push(ip@));
        }
    }
    if ips.len() == 0 {
        ips.push(String::from_str("127.0.0.1"));
        assert(texts(ips@) =~= seq![fallback_ip()]);
    }
    ips
}

/// This machine's addresses, from the address the system reports and
/// `probed` (the address a UDP probe found).
pub fn get_all_local_ips(probed: Option<String>) -> (r: Vec<String>)
    ensures
        exists|local: Option<Seq<char>>| texts(r@) == local_ip_list(local, opt_view(probed)),
{
    let local = get_local_ip();
    let r = collect_local_ips(local, probed);
    assert(texts(r@) == local_ip_list(opt_view(local), opt_view(probed)));
    r
}

/// The server records for a list of addresses.
pub fn server_urls_for(ips: &Vec<String>, port: u16) -> (r: Vec<ServerInfo>)
    ensures
        server_views(r@) == servers_for(texts(ips@), port),
{
    let mut servers: Vec<ServerInfo> = Vec::new();
    let mut i: usize = 0;
    while i < ips.len()
        invariant
            i <= ips@.len(),
            server_views(servers@) == servers_for(texts(ips@).subrange(0, i as int), port),
        decreases ips@.len() - i,
    {
        let ghost prefix = texts(ips@).subrange(0, i + 1);
        assert(prefix.drop_last() =~= texts(ips@).subrange(0, i as int));
        assert(prefix.last() == ips@[i as int]@);
        let ip = &ips[i];
        if starts_with(ip.as_str(), "127.") && servers.len() > 0 {
            i = i + 1;
            continue;
        }
        let info = server_info_for(ip.as_str(), port);
        let ghost before = server_views(servers@);
        servers.push(info);
        assert(server_views(servers@) =~= before.push(info@));
        i = i + 1;
    }
    assert(texts(ips@).subrange(0, ips@.len() as int) =~= texts(ips@));
    servers
}

/// The server records for `port` at each of this machine's addresses
/// (with `probed`, the address a UDP probe found).
pub fn generate_server_urls(port: u16, probed: Option<String>) -> (r: Vec<ServerInfo>)
    ensures
        exists|local: Option<Seq<char>>|
            server_views(r@) == servers_for(local_ip_list(local, opt_view(probed)), port),
{
    let ips = get_all_local_ips(probed);
    server_urls_for(&ips, port)
}

/// The address list is never empty, holds no address twice, and holds a
/// loopback address only as the lone fallback.
pub proof fn lemma_local_ip_list_shape(local: Option<Seq<char>>, probed: Option<Seq<char>>)
    ensures
        local_ip_list(local, probed).len() > 0,
        forall|i: int, j: int|
            0 <= i < j < local_ip_list(local, probed).len() ==> local_ip_list(local, probed)[i]
                != local_ip_list(local, probed)[j],
        forall|i: int|
            0 <= i < local_ip_list(local, probed).len() && is_loopback(
                #[trigger] local_ip_list(local, probed)[i],
            ) ==> local_ip_list(local, probed) == seq![fallback_ip()],
{
    let l = local_ip_list(local, probed);
    assert forall|i: int, j: int| 0 <= i < j < l.len() implies l[i] != l[j] by {
        if let Some(p) = probed {
            if l.len() == 2 {
                assert(l[0] != p);
            }
        }
    }
}

/// A non-empty address list gives a non-empty list of records that starts
/// with the record of the first address; every record is that of one of
/// the addresses, and no record after the first is for a loopback address.
pub proof fn lemma_servers_for_shape(ips: Seq<Seq<char>>, port: u16)
    ensures
        ips.len() > 0 ==> servers_for(ips, port).len() > 0 && servers_for(ips, port)[0]
            == server_view(ips[0], port),
        forall|i: int|
            0 <= i < servers_for(ips, port).len() ==> exists|j: int|
                0 <= j < ips.len() && #[trigger] servers_for(ips, port)[i] == server_view(
                    ips[j],
                    port,
                ) && (i > 0 ==> !is_loopback(ips[j])),
    decreases ips.len(),
{
    if ips.len() > 0 {
        let init = ips.drop_last();
        lemma_servers_for_shape(init, port);
        let prev = servers_for(init, port);
        let s = servers_for(ips, port);
        if init.len() == 0 {
            assert(prev.len() == 0);
        } else {
            assert(init[0] == ips[0]);
        }
        assert forall|i: int| 0 <= i < s.len() implies exists|j: int|
            0 <= j < ips.len() && #[trigger] s[i] == server_view(ips[j], port) && (i > 0
                ==> !is_loopback(ips[j])) by {
            if i < prev.len() {
                let j = choose|j: int|
                    0 <= j < init.len() && #[trigger] prev[i] == server_view(init[j], port) && (i
                        > 0 ==> !is_loopback(init[j]));
                assert(s[i] == prev[i]);
                assert(ips[j] == init[j]);
            } else {
                assert(s[i] == server_view(ips[ips.len() - 1], port));
                assert(ips.last() == ips[ips.len() - 1]);
            }
        }
    }
}

/// The next step of the search for a free port.
#[derive(Debug, Clone, Copy, PartialEq, Eq, Structural)]
pub enum PortScan {
    /// Try this port next.
    Try(u16),
    /// This port is free.
    Found(u16),
    /// No port is left to try.
    Exhausted,
}

/// The step after probing `port`: stop at a free port, else move on to the
/// next port, up to the last one.
pub open spec fn next_probe(port: u16, available: bool) -> PortScan {
    if available {
        PortScan::Found(port)
    } else if port == 65535 {
        PortScan::Exhausted
    } else {
        PortScan::Try((port + 1) as u16)
    }
}

/// The step after probing `port`, which was found free or not.
pub fn port_scan_step(port: u16, available: bool) -> (r: PortScan)
    ensures
        r == next_probe(port, available),
{
    if available {
        PortScan::Found(port)
    } else if port == 65535 {
        PortScan::Exhausted
    } else {
        PortScan::Try(port + 1)
    }
}

/// Where the search that starts at `port` ends, when `free` tells which
/// ports are free: the port found, or `None`.
pub open spec fn scan_outcome(port: u16, free: spec_fn(u16) -> bool) -> Option<u16>
    decreases 65535 - port,
{
    match next_probe(port, free(port)) {
        PortScan::Found(p) => Some(p),
        PortScan::Exhausted => None,
        PortScan::Try(q) => if q > port {
            scan_outcome(q, free)
        } else {
            None
        },
    }
}

/// The search for a free port that starts at `start` finds the first free
/// port at or above `start`, and ends without one exactly when every port
/// from `start` on is taken.
pub proof fn lemma_port_scan_finds_first_free(start: u16, free: spec_fn(u16) -> bool)
    ensures
        scan_outcome(start, free) matches Some(p) ==> start <= p && free(p) && forall|q: u16|
            start <= q < p ==> !#[trigger] free(q),
        scan_outcome(start, free) is None ==> forall|q: u16| start <= q ==> !#[trigger] free(q),
    decreases 65535 - start,
{
    if !free(start) && start < 65535 {
        lemma_port_scan_finds_first_free((start + 1) as u16, free);
        assert forall|q: u16| start <= q < start + 1 implies !#[trigger] free(q) by {
            assert(q == start);
        }
    }
}

/// Every address that is not a loopback address, the reported one and the
/// probed one, is listed; every listed address is one of them, unless the
/// list is the loopback fallback alone, which comes only when neither is a
/// non-loopback address.
pub proof fn lemma_local_ip_list_members(local: Option<Seq<char>>, probed: Option<Seq<char>>)
    ensures
        local matches Some(l) ==> !is_loopback(l) ==> local_ip_list(local, probed).contains(l),
        probed matches Some(p) ==> !is_loopback(p) ==> local_ip_list(local, probed).contains(p),
        forall|i: int|
            0 <= i < local_ip_list(local, probed).len() ==> local == Some(
                #[trigger] local_ip_list(local, probed)[i],
            ) || probed == Some(local_ip_list(local, probed)[i])
                || local_ip_list(local, probed) == seq![fallback_ip()],
        local_ip_list(local, probed) == seq![fallback_ip()] <==> !(local matches Some(l)
            && !is_loopback(l)) && !(probed matches Some(p) && !is_loopback(p)),
{
    reveal_strlit("127.0.0.1");
    reveal_strlit("127.");
    let l = local_ip_list(local, probed);
    assert(is_loopback(fallback_ip())) by {
        assert(fallback_ip().subrange(0, 4) =~= "127."@);
    }
    if let Some(x) = local {
        if !is_loopback(x) {
            assert(l[0] == x);
        }
    }
    if let Some(p) = probed {
        if !is_loopback(p) {
            if let Some(x) = local {
                if !is_loopback(x) && x == p {
                    assert(l[0] == p);
                } else if !is_loopback(x) {
                    assert(l[1] == p);
                } else {
                    assert(l[0] == p);
                }
            } else {
                assert(l[0] == p);
            }
        }
    }
    if l == seq![fallback_ip()] {
        assert(l[0] == fallback_ip());
    }
}

} // verus!
