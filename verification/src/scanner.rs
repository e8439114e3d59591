//! TCP port scanning: the port list, the service names, what a probe's
//! outcome becomes, and how the results of one host are collected.
use vstd::prelude::*;

use crate::sorting::{insert_at, insert_by, isort_by, lemma_isort_multiset, lemma_isort_sorted, sorted_by, strict_weak_order};
use crate::text::{chars_of, str_eq, string_from_chars, to_owned_string, trim, trim_chars};

verus! {

/// The outcome of probing one TCP port.
#[derive(Debug)]
pub struct PortResult {
    pub port: u16,
    /// `"open"` or `"closed"`.
    pub state: String,
    pub banner: Option<String>,
    pub service_hint: Option<String>,
}

/// A copy of an optional string.
pub fn clone_opt_string(o: &Option<String>) -> (r: Option<String>)
    ensures
        r == *o,
{
    match o {
        Some(s) => Some(s.clone()),
        None => None,
    }
}

impl Clone for PortResult {
    fn clone(&self) -> (r: Self)
        ensures
            r == *self,
    {
        PortResult {
            port: self.port,
            state: self.state.clone(),
            banner: clone_opt_string(&self.banner),
            service_hint: clone_opt_string(&self.service_hint),
        }
    }
}

/// The ports probed on every host, in probing order.
pub open spec fn common_ports_spec() -> Seq<u16> {
    seq![
        21u16, 22, 23, 25, 53, 80, 110, 135, 139, 143, 443, 445, 993, 995, 1723, 3306, 3389,
        5432, 5900, 8080, 8443,
    ]
}

/// The ports probed on every host.
pub fn common_ports() -> (v: Vec<u16>)
    ensures
        v@ == common_ports_spec(),
{
    let v: Vec<u16> = vec![
        21, 22, 23, 25, 53, 80, 110, 135, 139, 143, 443, 445, 993, 995, 1723, 3306, 3389, 5432,
        5900, 8080, 8443,
    ];
    assert(v@ =~= common_ports_spec());
    v
}

/// The usual service name of a well-known port.
pub open spec fn hint_for(port: u16) -> Option<Seq<char>> {
    if port == 21 {
        Some("FTP"@)
    } else if port == 22 {
        Some("SSH"@)
    } else if port == 23 {
        Some("Telnet"@)
    } else if port == 25 {
        Some("SMTP"@)
    } else if port == 53 {
        Some("DNS"@)
    } else if port == 80 {
        Some("HTTP"@)
    } else if port == 110 {
        Some("POP3"@)
    } else if port == 135 {
        Some("MSRPC"@)
    } else if port == 139 {
        Some("NetBIOS"@)
    } else if port == 143 {
        Some("IMAP"@)
    } else if port == 443 {
        Some("HTTPS"@)
    } else if port == 445 {
        Some("SMB"@)
    } else if port == 993 {
        Some("IMAPS"@)
    } else if port == 995 {
        Some("POP3S"@)
    } else if port == 1723 {
        Some("PPTP"@)
    } else if port == 3306 {
        Some("MySQL"@)
    } else if port == 3389 {
        Some("RDP"@)
    } else if port == 5432 {
        Some("PostgreSQL"@)
    } else if port == 5900 {
        Some("VNC"@)
    } else if port == 8080 {
        Some("HTTP-Proxy"@)
    } else if port == 8443 {
        Some("HTTPS-Alt"@)
    } else {
        None
    }
}

/// The view of an optional string.
pub open spec fn opt_view(o: Option<String>) -> Option<Seq<char>> {
    match o {
        Some(s) => Some(s@),
        None => None,
    }
}

/// The service name of a well-known port, `None` for any other port.
pub fn service_hint(port: u16) -> (r: Option<String>)
    ensures
        opt_view(r) == hint_for(port),
{
    let name: &str = match port {
        21 => "FTP",
        22 => "SSH",
        23 => "Telnet",
        25 => "SMTP",
        53 => "DNS",
        80 => "HTTP",
        110 => "POP3",
        135 => "MSRPC",
        139 => "NetBIOS",
        143 => "IMAP",
        443 => "HTTPS",
        445 => "SMB",
        993 => "IMAPS",
        995 => "POP3S",
        1723 => "PPTP",
        3306 => "MySQL",
        3389 => "RDP",
        5432 => "PostgreSQL",
        5900 => "VNC",
        8080 => "HTTP-Proxy",
        8443 => "HTTPS-Alt",
        _ => {
            return None;
        },
    };
    Some(to_owned_string(name))
}

/// The most characters of a banner that a report keeps.
pub const BANNER_MAX_CHARS: usize = 200;

/// What std's `String::from_utf8_lossy` makes of a byte sequence.
pub uninterp spec fn utf8_lossy(bytes: Seq<u8>) -> Seq<char>;

/// std's `String::from_utf8_lossy`: the result is the named decoding of the
/// bytes (invalid sequences become U+FFFD); nothing more of it is stated.
#[verifier::external_body]
pub(crate) fn decode_lossy(bytes: &[u8]) -> (r: String)
    ensures
        r@ == utf8_lossy(bytes@),
{
    String::from_utf8_lossy(bytes).into_owned()
}

/// The banner that a report shows for the first bytes a service sent.
pub open spec fn banner_spec(bytes: Seq<u8>) -> Option<Seq<char>> {
    if bytes.len() == 0 {
        None
    } else {
        let t = trim(utf8_lossy(bytes));
        if t.len() == 0 {
            None
        } else if t.len() <= BANNER_MAX_CHARS {
            Some(t)
        } else {
            Some(t.take(BANNER_MAX_CHARS as int))
        }
    }
}

/// The banner kept from the bytes a service sent first: decoded, trimmed,
/// cut to [`BANNER_MAX_CHARS`] characters; `None` when nothing remains.
pub fn banner_from_bytes(bytes: &[u8]) -> (r: Option<String>)
    ensures
        opt_view(r) == banner_spec(bytes@),
{
    if bytes.len() == 0 {
        return None;
    }
    let raw = decode_lossy(bytes);
    let cs = chars_of(raw.as_str());
    let t = trim_chars(&cs);
    if t.len() == 0 {
        return None;
    }
    if t.len() <= BANNER_MAX_CHARS {
        return Some(string_from_chars(&t));
    }
    let mut cut: Vec<char> = Vec::new();
    let mut i: usize = 0;
    while i < BANNER_MAX_CHARS
        invariant
            i <= BANNER_MAX_CHARS < t.len(),
            cut@ == t@.take(i as int),
        decreases BANNER_MAX_CHARS - i,
    {
        cut.push(t[i]);
        assert(t@.take(i as int).push(t@[i as int]) =~= t@.take(i + 1));
        i += 1;
    }
    Some(string_from_chars(&cut))
}

/// The result of a probe: `"open"` with the banner when the connection was
/// made, `"closed"` without one otherwise; the service name in both cases.
pub open spec fn probe_result_ok(r: PortResult, port: u16, connected: bool, banner: Option<String>) -> bool {
    &&& r.port == port
    &&& r.state@ == (if connected { "open"@ } else { "closed"@ })
    &&& r.banner == (if connected { banner } else { None })
    &&& opt_view(r.service_hint) == hint_for(port)
}

impl PortResult {
    /// The result of probing `port`: `connected` tells whether the TCP
    /// connection was made, `banner` is what was read from it.
    pub fn from_probe(port: u16, connected: bool, banner: Option<String>) -> (r: PortResult)
        ensures
            probe_result_ok(r, port, connected, banner),
    {
        if connected {
            PortResult {
                port,
                state: to_owned_string("open"),
                banner,
                service_hint: service_hint(port),
            }
        } else {
            PortResult {
                port,
                state: to_owned_string("closed"),
                banner: None,
                service_hint: service_hint(port),
            }
        }
    }

    /// Whether this port was found open.
    pub fn is_open(&self) -> (r: bool)
        ensures
            r == (self.state@ == "open"@),
    {
        str_eq(self.state.as_str(), "open")
    }
}

/// Port results ordered by port number.
pub open spec fn by_port() -> spec_fn(PortResult, PortResult) -> bool {
    |a: PortResult, b: PortResult| a.port < b.port
}

/// The open results of `s`, in order.
pub open spec fn open_results(s: Seq<PortResult>) -> Seq<PortResult>
    decreases s.len(),
{
    if s.len() == 0 {
        Seq::empty()
    } else if s.last().state@ == "open"@ {
        open_results(s.drop_last()).push(s.last())
    } else {
        open_results(s.drop_last())
    }
}

/// Ordering by port is a strict weak order.
pub proof fn lemma_by_port_order()
    ensures
        strict_weak_order(by_port()),
{
}

/// The open ports among the probe results, ordered by port number; results
/// with equal ports keep their order.
pub fn collect_open_ports(results: Vec<PortResult>) -> (r: Vec<PortResult>)
    ensures
        r@ == isort_by(open_results(results@), by_port()),
{
    let ghost orig = results@;
    let mut rest = results;
    let mut out: Vec<PortResult> = Vec::new();
    let mut n: usize = 0;
    let total = rest.len();
    while rest.len() > 0
        invariant
            n + rest@.len() == total,
            total == orig.len(),
            rest@ == orig.skip(n as int),
            out@ == isort_by(open_results(orig.take(n as int)), by_port()),
        decreases rest@.len(),
    {
        let x = rest.remove(0);
        assert(orig.take(n + 1).drop_last() =~= orig.take(n as int));
        assert(orig.take(n + 1).last() == x);
        if x.is_open() {
            let mut j: usize = out.len();
            while j > 0 && x.port < out[j - 1].port
                invariant
                    j <= out@.len(),
                    forall|k: int| j <= k < out@.len() ==> x.port < #[trigger] out@[k].port,
                decreases j,
            {
                j -= 1;
            }
            let ghost o = open_results(orig.take(n as int));
            insert_at(&mut out, x, j, Ghost(by_port()));
            assert(o.push(x).drop_last() =~= o);
            assert(open_results(orig.take(n + 1)) == o.push(x));
        }
        n += 1;
        assert(rest@ =~= orig.skip(n as int));
    }
    assert(orig.take(n as int) =~= orig);
    out
}

/// Collected results are exactly the open ones, ordered by port.
pub proof fn lemma_collect_open_ports(results: Seq<PortResult>)
    ensures
        sorted_by(isort_by(open_results(results), by_port()), by_port()),
        isort_by(open_results(results), by_port()).to_multiset() == open_results(results).to_multiset(),
{
    lemma_by_port_order();
    lemma_isort_sorted(open_results(results), by_port());
    lemma_isort_multiset(open_results(results), by_port());
}

/// No two results are for the same port.
pub open spec fn distinct_ports(s: Seq<PortResult>) -> bool {
    forall|i: int, j: int| 0 <= i < j < s.len() ==> (#[trigger] s[i]).port != (#[trigger] s[j]).port
}

proof fn lemma_isort_members(s: Seq<PortResult>)
    ensures
        forall|y: PortResult| #[trigger] isort_by(s, by_port()).contains(y) ==> s.contains(y),
{
    lemma_isort_multiset(s, by_port());
    assert forall|y: PortResult| #[trigger] isort_by(s, by_port()).contains(y) implies s.contains(y) by {
        isort_by(s, by_port()).to_multiset_ensures();
        s.to_multiset_ensures();
        assert(isort_by(s, by_port()).to_multiset().count(y) > 0);
        assert(s.to_multiset().count(y) > 0);
    }
}

proof fn lemma_insert_distinct(t: Seq<PortResult>, x: PortResult)
    requires
        distinct_ports(t),
        forall|k: int| 0 <= k < t.len() ==> (#[trigger] t[k]).port != x.port,
    ensures
        distinct_ports(insert_by(t, x, by_port())),
    decreases t.len(),
{
    if t.len() > 0 && (by_port())(x, t.last()) {
        let t0 = t.drop_last();
        assert forall|k: int| 0 <= k < t0.len() implies (#[trigger] t0[k]).port != x.port by {
            assert(t0[k] == t[k]);
        }
        assert forall|i: int, j: int| 0 <= i < j < t0.len() implies (#[trigger] t0[i]).port != (
        #[trigger] t0[j]).port by {
            assert(t0[i] == t[i] && t0[j] == t[j]);
        }
        lemma_insert_distinct(t0, x);
        let r0 = insert_by(t0, x, by_port());
        crate::sorting::lemma_insert_multiset(t0, x, by_port());
        assert forall|k: int| 0 <= k < r0.len() implies (#[trigger] r0[k]).port != t.last().port by {
            r0.to_multiset_ensures();
            t0.to_multiset_ensures();
            assert(r0.contains(r0[k]));
            if r0[k] != x {
                assert(r0.to_multiset().count(r0[k]) > 0);
                assert(t0.to_multiset().count(r0[k]) > 0);
                assert(t0.contains(r0[k]));
                let m = choose|m: int| 0 <= m < t0.len() && t0[m] == r0[k];
                assert(t[m] == t0[m]);
                assert(t[t.len() - 1] == t.last());
            }
        }
        let r = r0.push(t.last());
        assert forall|i: int, j: int| 0 <= i < j < r.len() implies (#[trigger] r[i]).port != (
        #[trigger] r[j]).port by {
            if j == r.len() - 1 {
                assert(r[i] == r0[i]);
            } else {
                assert(r[i] == r0[i] && r[j] == r0[j]);
            }
        }
    } else if t.len() > 0 {
        let r = t.push(x);
        assert forall|i: int, j: int| 0 <= i < j < r.len() implies (#[trigger] r[i]).port != (
        #[trigger] r[j]).port by {
            if j == r.len() - 1 {
                assert(r[i] == t[i]);
            } else {
                assert(r[i] == t[i] && r[j] == t[j]);
            }
        }
    }
}

proof fn lemma_isort_distinct(s: Seq<PortResult>)
    requires
        distinct_ports(s),
    ensures
        distinct_ports(isort_by(s, by_port())),
    decreases s.len(),
{
    if s.len() > 0 {
        let s0 = s.drop_last();
        assert forall|i: int, j: int| 0 <= i < j < s0.len() implies (#[trigger] s0[i]).port != (
        #[trigger] s0[j]).port by {
            assert(s0[i] == s[i] && s0[j] == s[j]);
        }
        lemma_isort_distinct(s0);
        let t = isort_by(s0, by_port());
        lemma_isort_members(s0);
        assert forall|k: int| 0 <= k < t.len() implies (#[trigger] t[k]).port != s.last().port by {
            assert(t.contains(t[k]));
            let m = choose|m: int| 0 <= m < s0.len() && s0[m] == t[k];
            assert(s[m] == s0[m]);
            assert(s[s.len() - 1] == s.last());
        }
        lemma_insert_distinct(t, s.last());
    }
}

proof fn lemma_open_results_members(r: Seq<PortResult>)
    ensures
        forall|y: PortResult| #[trigger] open_results(r).contains(y) ==> r.contains(y) && y.state@ == "open"@,
        distinct_ports(r) ==> distinct_ports(open_results(r)),
    decreases r.len(),
{
    if r.len() > 0 {
        let r0 = r.drop_last();
        lemma_open_results_members(r0);
        let o0 = open_results(r0);
        assert forall|y: PortResult| #[trigger] open_results(r).contains(y) implies r.contains(y)
            && y.state@ == "open"@ by {
            let k = choose|k: int| 0 <= k < open_results(r).len() && open_results(r)[k] == y;
            if k < o0.len() {
                assert(open_results(r)[k] == o0[k]);
                assert(o0.contains(y));
                let m = choose|m: int| 0 <= m < r0.len() && r0[m] == y;
                assert(r[m] == r0[m]);
            } else {
                assert(r[r.len() - 1] == y);
            }
        }
        if distinct_ports(r) {
            assert forall|i: int, j: int| 0 <= i < j < r0.len() implies (#[trigger] r0[i]).port != (
            #[trigger] r0[j]).port by {
                assert(r0[i] == r[i] && r0[j] == r[j]);
            }
            if r.last().state@ == "open"@ {
                let o = o0.push(r.last());
                assert forall|i: int, j: int| 0 <= i < j < o.len() implies (#[trigger] o[i]).port != (
                #[trigger] o[j]).port by {
                    if j == o.len() - 1 {
                        assert(o[i] == o0[i]);
                        assert(o0.contains(o0[i]));
                        let m = choose|m: int| 0 <= m < r0.len() && r0[m] == o0[i];
                        assert(r[m] == r0[m]);
                        assert(r[r.len() - 1] == r.last());
                    } else {
                        assert(o[i] == o0[i] && o[j] == o0[j]);
                    }
                }
            }
        }
    }
}

/// Scanning a list of distinct ports gives the open ones in strictly
/// increasing port order, each one of the probe results; when the probed
/// ports are common ports with their usual service names (as
/// [`PortResult::from_probe`] gives them), every collected port is a common
/// port and carries a service name.
pub proof fn lemma_collected_ports_increasing(results: Seq<PortResult>)
    requires
        distinct_ports(results),
    ensures
        forall|i: int, j: int|
            0 <= i < j < isort_by(open_results(results), by_port()).len() ==> (#[trigger] isort_by(
                open_results(results),
                by_port(),
            )[i]).port < (#[trigger] isort_by(open_results(results), by_port())[j]).port,
        forall|k: int|
            0 <= k < isort_by(open_results(results), by_port()).len() ==> results.contains(
                #[trigger] isort_by(open_results(results), by_port())[k],
            ) && isort_by(open_results(results), by_port())[k].state@ == "open"@,
        (forall|k: int|
            0 <= k < results.len() ==> common_ports_spec().contains((#[trigger] results[k]).port)
                && opt_view(results[k].service_hint) == hint_for(results[k].port)) ==> forall|k: int|
            0 <= k < isort_by(open_results(results), by_port()).len() ==> common_ports_spec().contains(
                (#[trigger] isort_by(open_results(results), by_port())[k]).port,
            ) && isort_by(open_results(results), by_port())[k].service_hint is Some,
{
    let o = open_results(results);
    let out = isort_by(o, by_port());
    lemma_open_results_members(results);
    lemma_isort_distinct(o);
    lemma_isort_members(o);
    lemma_by_port_order();
    lemma_isort_sorted(o, by_port());
    lemma_common_ports_named();
    assert forall|i: int, j: int| 0 <= i < j < out.len() implies (#[trigger] out[i]).port < (
    #[trigger] out[j]).port by {
        assert(!(by_port())(out[j], out[i]));
    }
    assert forall|k: int| 0 <= k < out.len() implies results.contains(#[trigger] out[k])
        && out[k].state@ == "open"@ by {
        assert(out.contains(out[k]));
    }
    if forall|k: int|
        0 <= k < results.len() ==> common_ports_spec().contains((#[trigger] results[k]).port)
            && opt_view(results[k].service_hint) == hint_for(results[k].port) {
        assert forall|k: int| 0 <= k < out.len() implies common_ports_spec().contains(
            (#[trigger] out[k]).port,
        ) && out[k].service_hint is Some by {
            assert(out.contains(out[k]));
            assert(o.contains(out[k]));
            let m = choose|m: int| 0 <= m < results.len() && results[m] == out[k];
            assert(common_ports_spec().contains(results[m].port));
            let c = choose|c: int| 0 <= c < common_ports_spec().len() && common_ports_spec()[c] == results[m].port;
            assert(hint_for(common_ports_spec()[c]) is Some);
        }
    }
}

} // verus!

verus! {

/// Every probed port has a service name.
pub proof fn lemma_common_ports_named()
    ensures
        forall|i: int|
            0 <= i < common_ports_spec().len() ==> hint_for(#[trigger] common_ports_spec()[i]) is Some,
{
    assert forall|i: int| 0 <= i < common_ports_spec().len() implies hint_for(
        #[trigger] common_ports_spec()[i],
    ) is Some by {
        let p = common_ports_spec()[i];
        assert(p == 21 || p == 22 || p == 23 || p == 25 || p == 53 || p == 80 || p == 110 || p
            == 135 || p == 139 || p == 143 || p == 443 || p == 445 || p == 993 || p == 995 || p
            == 1723 || p == 3306 || p == 3389 || p == 5432 || p == 5900 || p == 8080 || p == 8443);
    }
}

/// A kept banner is never empty and holds at most [`BANNER_MAX_CHARS`]
/// characters.
pub proof fn lemma_banner_bounds(bytes: Seq<u8>)
    ensures
        banner_spec(bytes) matches Some(b) ==> 0 < b.len() <= BANNER_MAX_CHARS,
{
}


/// The IANA services of the common ports, port by port.
pub open spec fn well_known_services() -> Seq<(u16, Seq<char>)> {
    seq![
        (21u16, "FTP"@),
        (22u16, "SSH"@),
        (23u16, "Telnet"@),
        (25u16, "SMTP"@),
        (53u16, "DNS"@),
        (80u16, "HTTP"@),
        (110u16, "POP3"@),
        (135u16, "MSRPC"@),
        (139u16, "NetBIOS"@),
        (143u16, "IMAP"@),
        (443u16, "HTTPS"@),
        (445u16, "SMB"@),
        (993u16, "IMAPS"@),
        (995u16, "POP3S"@),
        (1723u16, "PPTP"@),
        (3306u16, "MySQL"@),
        (3389u16, "RDP"@),
        (5432u16, "PostgreSQL"@),
        (5900u16, "VNC"@),
        (8080u16, "HTTP-Proxy"@),
        (8443u16, "HTTPS-Alt"@),
    ]
}

/// Each common port is named by its well-known service (FTP on 21, SSH on
/// 22, ..., MySQL on 3306, PostgreSQL on 5432, ...), in the order of the
/// common ports, and no other port is named.
pub proof fn lemma_service_names(port: u16)
    ensures
        well_known_services().len() == common_ports_spec().len(),
        forall|i: int|
            0 <= i < well_known_services().len() ==> (#[trigger] well_known_services()[i]).0
                == common_ports_spec()[i] && hint_for(well_known_services()[i].0) == Some(
                well_known_services()[i].1,
            ),
        hint_for(port) is Some <==> common_ports_spec().contains(port),
{
    let t = well_known_services();
    let c = common_ports_spec();
    assert forall|i: int| 0 <= i < t.len() implies (#[trigger] t[i]).0 == c[i] && hint_for(t[i].0)
        == Some(t[i].1) by {
        if i == 0 { assert(t[i] == (21u16, "FTP"@)); }
        if i == 1 { assert(t[i] == (22u16, "SSH"@)); }
        if i == 2 { assert(t[i] == (23u16, "Telnet"@)); }
        if i == 3 { assert(t[i] == (25u16, "SMTP"@)); }
        if i == 4 { assert(t[i] == (53u16, "DNS"@)); }
        if i == 5 { assert(t[i] == (80u16, "HTTP"@)); }
        if i == 6 { assert(t[i] == (110u16, "POP3"@)); }
        if i == 7 { assert(t[i] == (135u16, "MSRPC"@)); }
        if i == 8 { assert(t[i] == (139u16, "NetBIOS"@)); }
        if i == 9 { assert(t[i] == (143u16, "IMAP"@)); }
        if i == 10 { assert(t[i] == (443u16, "HTTPS"@)); }
        if i == 11 { assert(t[i] == (445u16, "SMB"@)); }
        if i == 12 { assert(t[i] == (993u16, "IMAPS"@)); }
        if i == 13 { assert(t[i] == (995u16, "POP3S"@)); }
        if i == 14 { assert(t[i] == (1723u16, "PPTP"@)); }
        if i == 15 { assert(t[i] == (3306u16, "MySQL"@)); }
        if i == 16 { assert(t[i] == (3389u16, "RDP"@)); }
        if i == 17 { assert(t[i] == (5432u16, "PostgreSQL"@)); }
        if i == 18 { assert(t[i] == (5900u16, "VNC"@)); }
        if i == 19 { assert(t[i] == (8080u16, "HTTP-Proxy"@)); }
        if i == 20 { assert(t[i] == (8443u16, "HTTPS-Alt"@)); }
    }
    if hint_for(port) is Some {
        if port == 21 { assert(c[0] == port); }
        if port == 22 { assert(c[1] == port); }
        if port == 23 { assert(c[2] == port); }
        if port == 25 { assert(c[3] == port); }
        if port == 53 { assert(c[4] == port); }
        if port == 80 { assert(c[5] == port); }
        if port == 110 { assert(c[6] == port); }
        if port == 135 { assert(c[7] == port); }
        if port == 139 { assert(c[8] == port); }
        if port == 143 { assert(c[9] == port); }
        if port == 443 { assert(c[10] == port); }
        if port == 445 { assert(c[11] == port); }
        if port == 993 { assert(c[12] == port); }
        if port == 995 { assert(c[13] == port); }
        if port == 1723 { assert(c[14] == port); }
        if port == 3306 { assert(c[15] == port); }
        if port == 3389 { assert(c[16] == port); }
        if port == 5432 { assert(c[17] == port); }
        if port == 5900 { assert(c[18] == port); }
        if port == 8080 { assert(c[19] == port); }
        if port == 8443 { assert(c[20] == port); }
    }
    if c.contains(port) {
        let k = choose|k: int| 0 <= k < c.len() && c[k] == port;
        assert(c[k] == t[k].0);
    }
}
} // verus!
