//! The local network: IPv4 addresses and the /24 subnet, the OUI vendor
//! table, the ARP table, and how discovered hosts are assembled.
use vstd::prelude::*;

use crate::json::{json_string_map, parse_string_map};
use crate::scanner::PortResult;
use crate::sorting::{isort_by, lemma_insert_at, lemma_isort_multiset, lemma_isort_sorted, sorted_by, strict_weak_order};
use crate::text::{chars_eq, chars_le, chars_of, dec, decimal, ends_with, ends_with_chars, has_char, has_char_exec, join, join_chars, lines, lines_of, push_chars, replace_all, replace_chars, seq_lt, split_chars, split_on, starts_with, starts_with_chars, upper_text, string_from_chars, to_owned_string, to_uppercase, words, words_of};
use crate::vuln::{check_host, host_findings, Finding, VulnEntry};

verus! {

// ---------------------------------------------------------------------------
// IPv4 addresses
// ---------------------------------------------------------------------------

/// An IPv4 address, by its four octets.
#[derive(Clone, Copy, Debug, PartialEq, Eq, Structural)]
pub struct Ipv4 {
    pub a: u8,
    pub b: u8,
    pub c: u8,
    pub d: u8,
}

/// Dotted-decimal text of an address.
pub open spec fn ipv4_text(ip: Ipv4) -> Seq<char> {
    dec(ip.a as nat) + seq!['.'] + dec(ip.b as nat) + seq!['.'] + dec(ip.c as nat) + seq!['.']
        + dec(ip.d as nat)
}

/// Whether `c` is an ASCII decimal digit.
pub open spec fn is_digit(c: char) -> bool {
    '0' <= c && c <= '9'
}

/// The value of a string of ASCII digits.
pub open spec fn digits_value(s: Seq<char>) -> nat
    decreases s.len(),
{
    if s.len() == 0 {
        0
    } else {
        digits_value(s.drop_last()) * 10 + ((s.last() as int - '0' as int) as nat)
    }
}

/// A valid octet in dotted-decimal notation: one to three ASCII digits, no
/// leading zero unless the octet is `0`, value at most 255.
pub open spec fn octet_ok(s: Seq<char>) -> bool {
    &&& 1 <= s.len() <= 3
    &&& forall|i: int| 0 <= i < s.len() ==> is_digit(#[trigger] s[i])
    &&& !(s.len() > 1 && s[0] == '0')
    &&& digits_value(s) <= 255
}

/// The address that a dotted-decimal text denotes: exactly four valid
/// octets separated by dots (the grammar of std's `Ipv4Addr::from_str`).
pub open spec fn parse_ipv4_spec(s: Seq<char>) -> Option<Ipv4> {
    let p = split_on(s, '.');
    if p.len() == 4 && octet_ok(p[0]) && octet_ok(p[1]) && octet_ok(p[2]) && octet_ok(p[3]) {
        Some(
            Ipv4 {
                a: digits_value(p[0]) as u8,
                b: digits_value(p[1]) as u8,
                c: digits_value(p[2]) as u8,
                d: digits_value(p[3]) as u8,
            },
        )
    } else {
        None
    }
}

fn parse_octet(s: &Vec<char>) -> (r: Option<u8>)
    ensures
        r is Some <==> octet_ok(s@),
        r matches Some(v) ==> v as nat == digits_value(s@),
{
    if s.len() < 1 || s.len() > 3 {
        return None;
    }
    if s.len() > 1 && s[0] == '0' {
        return None;
    }
    let mut v: u32 = 0;
    let mut i: usize = 0;
    while i < s.len()
        invariant
            1 <= s.len() <= 3,
            i <= s.len(),
            forall|k: int| 0 <= k < i ==> is_digit(#[trigger] s@[k]),
            v as nat == digits_value(s@.take(i as int)),
            v < 1000,
        decreases s.len() - i,
    {
        let c = s[i];
        if !('0' <= c && c <= '9') {
            return None;
        }
        assert(s@.take(i + 1).drop_last() =~= s@.take(i as int));
        proof {
            assert(digits_value(s@.take(i as int)) < 100) by {
                lemma_digits_bound(s@.take(i as int));
            }
        }
        v = v * 10 + (c as u32 - '0' as u32);
        i += 1;
    }
    assert(s@.take(s.len() as int) =~= s@);
    if v > 255 {
        return None;
    }
    Some(v as u8)
}

proof fn lemma_digits_bound(s: Seq<char>)
    requires
        s.len() <= 2,
        forall|i: int| 0 <= i < s.len() ==> is_digit(#[trigger] s[i]),
    ensures
        digits_value(s) < (if s.len() <= 1 { 10int } else { 100int }),
    decreases s.len(),
{
    if s.len() > 0 {
        assert(is_digit(s[s.len() - 1]));
        assert forall|i: int| 0 <= i < s.drop_last().len() implies is_digit(
            #[trigger] s.drop_last()[i],
        ) by {
            assert(s.drop_last()[i] == s[i]);
        }
        lemma_digits_bound(s.drop_last());
        let p = digits_value(s.drop_last());
        if s.len() == 1 {
            assert(s.drop_last().len() == 0);
            assert(p == 0);
        } else {
            assert(p < 10);
            assert(p * 10 <= 90) by (nonlinear_arith)
                requires
                    p < 10,
            ;
        }
    }
}

/// The address that a dotted-decimal text denotes, if it is one.
pub fn parse_ipv4(s: &str) -> (r: Option<Ipv4>)
    ensures
        r == parse_ipv4_spec(s@),
{
    let cs = chars_of(s);
    parse_ipv4_chars(&cs)
}

fn parse_ipv4_chars(cs: &Vec<char>) -> (r: Option<Ipv4>)
    ensures
        r == parse_ipv4_spec(cs@),
{
    let parts = split_chars(cs, '.');
    let ghost pv = parts@.map_values(|p: Vec<char>| p@);
    if parts.len() != 4 {
        return None;
    }
    assert(pv[0] == parts@[0]@ && pv[1] == parts@[1]@ && pv[2] == parts@[2]@ && pv[3]
        == parts@[3]@);
    let a = parse_octet(&parts[0]);
    let b = parse_octet(&parts[1]);
    let c = parse_octet(&parts[2]);
    let d = parse_octet(&parts[3]);
    match (a, b, c, d) {
        (Some(a), Some(b), Some(c), Some(d)) => Some(Ipv4 { a, b, c, d }),
        _ => None,
    }
}

// ---------------------------------------------------------------------------
// IP address text (IPv4 or IPv6)
// ---------------------------------------------------------------------------

/// Whether `c` is an ASCII hexadecimal digit (either case).
pub open spec fn is_hex(c: char) -> bool {
    ('0' <= c && c <= '9') || ('a' <= c && c <= 'f') || ('A' <= c && c <= 'F')
}

/// A group of an IPv6 address: one to four hexadecimal digits.
pub open spec fn hex_group(s: Seq<char>) -> bool {
    1 <= s.len() <= 4 && forall|i: int| 0 <= i < s.len() ==> is_hex(#[trigger] s[i])
}

/// Every piece is a group.
pub open spec fn all_groups(p: Seq<Seq<char>>) -> bool {
    forall|i: int| 0 <= i < p.len() ==> hex_group(#[trigger] p[i])
}

/// The number of groups in the part of an IPv6 address before `::`: none
/// for an empty part, else colon-separated groups (`None` when it is not
/// such a run).
pub open spec fn head_groups(s: Seq<char>) -> Option<nat> {
    if s.len() == 0 {
        Some(0)
    } else if all_groups(split_on(s, ':')) {
        Some(split_on(s, ':').len())
    } else {
        None
    }
}

/// The number of 16-bit groups that a part of an IPv6 address stands for:
/// colon-separated groups, of which the last may be an IPv4 address that
/// counts for two (`None` when it is not such a run).
pub open spec fn tail_units(s: Seq<char>) -> Option<nat> {
    let p = split_on(s, ':');
    if s.len() == 0 {
        Some(0)
    } else if all_groups(p) {
        Some(p.len())
    } else if all_groups(p.drop_last()) && parse_ipv4_spec(p.last()) is Some {
        Some(p.len() + 1)
    } else {
        None
    }
}

/// The index of the first `::` in `s`, or -1.
pub open spec fn first_double_colon(s: Seq<char>) -> int
    decreases s.len(),
{
    if s.len() < 2 {
        -1
    } else if s[0] == ':' && s[1] == ':' {
        0
    } else {
        let r = first_double_colon(s.skip(1));
        if r < 0 {
            -1
        } else {
            r + 1
        }
    }
}

/// IPv6 text (the grammar of std's `Ipv6Addr::from_str`): eight groups,
/// the last two possibly written as an IPv4 address; or at most seven
/// such groups with one `::` standing for the zero groups left out.
pub open spec fn ipv6_ok(s: Seq<char>) -> bool {
    let j = first_double_colon(s);
    ||| tail_units(s) == Some(8nat)
    ||| {
        &&& j >= 0
        &&& head_groups(s.take(j)) is Some
        &&& tail_units(s.skip(j + 2)) is Some
        &&& head_groups(s.take(j))->0 + tail_units(s.skip(j + 2))->0 <= 7
    }
}

/// IP address text, IPv4 or IPv6 (the grammar of std's `IpAddr::from_str`).
pub open spec fn ip_addr_ok(s: Seq<char>) -> bool {
    parse_ipv4_spec(s) is Some || ipv6_ok(s)
}

fn hex_group_exec(s: &Vec<char>) -> (r: bool)
    ensures
        r == hex_group(s@),
{
    if s.len() < 1 || s.len() > 4 {
        return false;
    }
    let mut i: usize = 0;
    while i < s.len()
        invariant
            i <= s.len(),
            forall|k: int| 0 <= k < i ==> is_hex(#[trigger] s@[k]),
        decreases s.len() - i,
    {
        let c = s[i];
        if !(('0' <= c && c <= '9') || ('a' <= c && c <= 'f') || ('A' <= c && c <= 'F')) {
            return false;
        }
        i += 1;
    }
    true
}

/// Whether the first `n` pieces are all groups.
fn groups_upto(p: &Vec<Vec<char>>, n: usize) -> (r: bool)
    requires
        n <= p.len(),
    ensures
        r == all_groups(p@.map_values(|q: Vec<char>| q@).take(n as int)),
{
    let ghost pv = p@.map_values(|q: Vec<char>| q@);
    let mut i: usize = 0;
    while i < n
        invariant
            n <= p.len(),
            i <= n,
            pv == p@.map_values(|q: Vec<char>| q@),
            forall|k: int| 0 <= k < i ==> hex_group(#[trigger] pv[k]),
        decreases n - i,
    {
        assert(pv[i as int] == p@[i as int]@);
        if !hex_group_exec(&p[i]) {
            assert(pv.take(n as int)[i as int] == pv[i as int]);
            return false;
        }
        i += 1;
    }
    assert forall|k: int| 0 <= k < pv.take(n as int).len() implies hex_group(
        #[trigger] pv.take(n as int)[k],
    ) by {
        assert(pv.take(n as int)[k] == pv[k]);
    }
    true
}

fn head_groups_exec(s: &Vec<char>) -> (r: Option<usize>)
    ensures
        match r {
            Some(n) => head_groups(s@) == Some(n as nat),
            None => head_groups(s@) is None,
        },
{
    if s.len() == 0 {
        return Some(0);
    }
    let p = split_chars(s, ':');
    let ghost pv = p@.map_values(|q: Vec<char>| q@);
    let ok = groups_upto(&p, p.len());
    assert(pv.take(p.len() as int) =~= pv);
    if ok {
        Some(p.len())
    } else {
        None
    }
}

fn tail_units_exec(s: &Vec<char>) -> (r: Option<u128>)
    ensures
        match r {
            Some(n) => tail_units(s@) == Some(n as nat),
            None => tail_units(s@) is None,
        },
{
    if s.len() == 0 {
        return Some(0);
    }
    let p = split_chars(s, ':');
    let ghost pv = p@.map_values(|q: Vec<char>| q@);
    let n = p.len();
    assert(pv.take(n as int) =~= pv);
    assert(pv.take(n - 1) =~= pv.drop_last());
    if groups_upto(&p, n) {
        return Some(n as u128);
    }
    if groups_upto(&p, n - 1) {
        assert(pv.last() == p@[n - 1]@);
        if parse_ipv4_chars(&p[n - 1]).is_some() {
            return Some(n as u128 + 1);
        }
    }
    None
}

proof fn lemma_first_double_colon(s: Seq<char>)
    ensures
        -1 <= first_double_colon(s) < s.len(),
        first_double_colon(s) >= 0 ==> first_double_colon(s) + 1 < s.len() && s[first_double_colon(s)] == ':'
            && s[first_double_colon(s) + 1] == ':',
        forall|i: int|
            0 <= i && i + 1 < s.len() && (first_double_colon(s) < 0 || i < first_double_colon(s))
                ==> !(#[trigger] s[i] == ':' && s[i + 1] == ':'),
    decreases s.len(),
{
    if s.len() >= 2 && !(s[0] == ':' && s[1] == ':') {
        let t = s.skip(1);
        lemma_first_double_colon(t);
        assert forall|i: int|
            0 <= i && i + 1 < s.len() && (first_double_colon(s) < 0 || i < first_double_colon(s))
                implies !(#[trigger] s[i] == ':' && s[i + 1] == ':') by {
            if i > 0 {
                assert(t[i - 1] == s[i] && t[i] == s[i + 1]);
            }
        }
    }
}

fn first_double_colon_exec(s: &Vec<char>) -> (r: Option<usize>)
    ensures
        match r {
            Some(j) => first_double_colon(s@) == j as int,
            None => first_double_colon(s@) == -1,
        },
{
    proof {
        lemma_first_double_colon(s@);
    }
    if s.len() < 2 {
        return None;
    }
    let mut i: usize = 0;
    while i < s.len() - 1
        invariant
            s.len() >= 2,
            i <= s.len() - 1,
            forall|k: int| 0 <= k < i && k + 1 < s@.len() ==> !(#[trigger] s@[k] == ':' && s@[k + 1] == ':'),
        decreases s.len() - i,
    {
        if s[i] == ':' && s[i + 1] == ':' {
            proof {
                lemma_first_double_colon(s@);
            }
            return Some(i);
        }
        i += 1;
    }
    proof {
        lemma_first_double_colon(s@);
    }
    None
}

fn sub_chars(s: &Vec<char>, from: usize, to: usize) -> (r: Vec<char>)
    requires
        from <= to <= s.len(),
    ensures
        r@ == s@.subrange(from as int, to as int),
{
    let mut r: Vec<char> = Vec::new();
    let mut i: usize = from;
    while i < to
        invariant
            from <= i <= to <= s.len(),
            r@ == s@.subrange(from as int, i as int),
        decreases to - i,
    {
        r.push(s[i]);
        i += 1;
        assert(r@ =~= s@.subrange(from as int, i as int));
    }
    r
}

fn ipv6_ok_exec(s: &Vec<char>) -> (r: bool)
    ensures
        r == ipv6_ok(s@),
{
    if let Some(8) = tail_units_exec(s) {
        return true;
    }
    match first_double_colon_exec(s) {
        None => false,
        Some(j) => {
            proof {
                lemma_first_double_colon(s@);
            }
            assert(j + 2 <= s.len());
            let head = sub_chars(s, 0, j);
            let tail = sub_chars(s, j + 2, s.len());
            assert(head@ =~= s@.take(j as int));
            assert(tail@ =~= s@.skip(j + 2));
            match (head_groups_exec(&head), tail_units_exec(&tail)) {
                (Some(k), Some(u)) => k <= 7 && u <= 7 - k as u128,
                _ => false,
            }
        },
    }
}

/// Whether a text is an IP address, IPv4 or IPv6.
pub fn is_ip_addr(s: &str) -> (r: bool)
    ensures
        r == ip_addr_ok(s@),
{
    let cs = chars_of(s);
    parse_ipv4_chars(&cs).is_some() || ipv6_ok_exec(&cs)
}

/// Appends the decimal text of `n` to `s`.
fn push_decimal(s: &mut String, n: u128)
    ensures
        final(s)@ == old(s)@ + dec(n as nat),
{
    let v = decimal(n);
    push_chars(s, &v);
}

/// Dotted-decimal text of an address.
pub fn ipv4_to_string(ip: Ipv4) -> (r: String)
    ensures
        r@ == ipv4_text(ip),
{
    let mut s = String::new();
    push_decimal(&mut s, ip.a as u128);
    crate::text::push_char(&mut s, '.');
    push_decimal(&mut s, ip.b as u128);
    crate::text::push_char(&mut s, '.');
    push_decimal(&mut s, ip.c as u128);
    crate::text::push_char(&mut s, '.');
    push_decimal(&mut s, ip.d as u128);
    assert(s@ =~= ipv4_text(ip));
    s
}

/// An address that can stand for this machine on the network: neither
/// unspecified (`0.0.0.0`) nor loopback (`127.x.x.x`).
pub open spec fn usable_local(ip: Ipv4) -> bool {
    !(ip.a == 0 && ip.b == 0 && ip.c == 0 && ip.d == 0) && ip.a != 127
}

/// The address the operating system chose for outgoing traffic, when it can
/// stand for this machine (`None` for the unspecified or a loopback address).
pub fn accept_local_ipv4(ip: Ipv4) -> (r: Option<Ipv4>)
    ensures
        r == (if usable_local(ip) { Some(ip) } else { None }),
{
    if (ip.a == 0 && ip.b == 0 && ip.c == 0 && ip.d == 0) || ip.a == 127 {
        None
    } else {
        Some(ip)
    }
}

/// The `/24` network of an address, as `a.b.c.0/24`.
pub open spec fn cidr24_text(ip: Ipv4) -> Seq<char> {
    dec(ip.a as nat) + seq!['.'] + dec(ip.b as nat) + seq!['.'] + dec(ip.c as nat) + seq![
        '.',
        '0',
        '/',
        '2',
        '4',
    ]
}

/// The local subnet, assumed to be the `/24` of the local address, in CIDR
/// notation; `None` without a local address.
pub fn local_subnet_cidr(local: Option<Ipv4>) -> (r: Option<String>)
    ensures
        match local {
            Some(ip) => r is Some && r->0@ == cidr24_text(ip),
            None => r is None,
        },
{
    match local {
        Some(ip) => {
            let mut s = String::new();
            push_decimal(&mut s, ip.a as u128);
            crate::text::push_char(&mut s, '.');
            push_decimal(&mut s, ip.b as u128);
            crate::text::push_char(&mut s, '.');
            push_decimal(&mut s, ip.c as u128);
            crate::text::push_char(&mut s, '.');
            crate::text::push_char(&mut s, '0');
            crate::text::push_char(&mut s, '/');
            crate::text::push_char(&mut s, '2');
            crate::text::push_char(&mut s, '4');
            assert(s@ =~= cidr24_text(ip));
            Some(s)
        },
        None => None,
    }
}

/// The addresses probed in a subnet: the 254 host addresses `a.b.c.1` up
/// to `a.b.c.254` of the address's `/24`, whatever the prefix length (only
/// `/24` is scanned).
pub open spec fn subnet_hosts_spec(ip: Ipv4) -> Seq<Ipv4> {
    Seq::new(254, |i: int| Ipv4 { a: ip.a, b: ip.b, c: ip.c, d: (i + 1) as u8 })
}

/// The addresses probed in the subnet of `ip`.
pub fn hosts_in_subnet(ip: Ipv4, prefix_len: u8) -> (r: Vec<Ipv4>)
    ensures
        r@ == subnet_hosts_spec(ip),
{
    let mut out: Vec<Ipv4> = Vec::new();
    let mut d: u8 = 1;
    while d < 255
        invariant
            1 <= d <= 255,
            out@ == subnet_hosts_spec(ip).take(d - 1),
        decreases 255 - d,
    {
        out.push(Ipv4 { a: ip.a, b: ip.b, c: ip.c, d });
        assert(out@ =~= subnet_hosts_spec(ip).take(d as int));
        d += 1;
    }
    assert(out@ =~= subnet_hosts_spec(ip));
    out
}

/// The addresses of `s` other than `x`, in order.
pub open spec fn without_addr(s: Seq<Ipv4>, x: Ipv4) -> Seq<Ipv4>
    decreases s.len(),
{
    if s.len() == 0 {
        Seq::empty()
    } else if s.last() == x {
        without_addr(s.drop_last(), x)
    } else {
        without_addr(s.drop_last(), x).push(s.last())
    }
}

/// The addresses to probe when discovering hosts: the subnet's addresses
/// other than the local one, in order.
pub open spec fn discovery_targets_spec(local: Ipv4) -> Seq<Ipv4> {
    without_addr(subnet_hosts_spec(local), local)
}

/// The addresses to probe when discovering hosts from `local`.
pub fn discovery_targets(local: Ipv4) -> (r: Vec<Ipv4>)
    ensures
        r@ == discovery_targets_spec(local),
{
    let all = hosts_in_subnet(local, 24);
    let mut out: Vec<Ipv4> = Vec::new();
    let mut i: usize = 0;
    while i < all.len()
        invariant
            i <= all.len(),
            all@ == subnet_hosts_spec(local),
            out@ == without_addr(all@.take(i as int), local),
        decreases all.len() - i,
    {
        let x = all[i];
        assert(all@.take(i + 1).drop_last() =~= all@.take(i as int));
        if x != local {
            out.push(x);
        }
        i += 1;
    }
    assert(all@.take(all.len() as int) =~= all@);
    out
}

} // verus!

verus! {

// ---------------------------------------------------------------------------
// Vendors by OUI
// ---------------------------------------------------------------------------

/// The vendor table: MAC prefixes (`XX:XX:XX`) and vendor names.
#[derive(Debug)]
pub struct OuiDb {
    pub entries: Vec<(String, String)>,
}

/// A decoded map, or no entries when the text is not one.
pub open spec fn pairs_or_empty(o: Option<Seq<(Seq<char>, Seq<char>)>>) -> Seq<(Seq<char>, Seq<char>)> {
    match o {
        Some(p) => p,
        None => Seq::empty(),
    }
}

impl OuiDb {
    /// The table's entries, by their text.
    pub open spec fn pairs(&self) -> Seq<(Seq<char>, Seq<char>)> {
        self.entries.deep_view()
    }

    /// The table stored as a JSON object of prefix to vendor, if the text
    /// is such an object.
    pub fn parse(text: &str) -> (db: Option<OuiDb>)
        ensures
            match db {
                Some(d) => json_string_map(text@) == Some(d.pairs()),
                None => json_string_map(text@) is None,
            },
    {
        match parse_string_map(text) {
            Some(entries) => Some(OuiDb { entries }),
            None => None,
        }
    }

    /// The table stored as a JSON object of prefix to vendor; a text that
    /// is not such an object gives the empty table.
    pub fn from_json(text: &str) -> (db: OuiDb)
        ensures
            db.pairs() == pairs_or_empty(json_string_map(text@)),
    {
        match OuiDb::parse(text) {
            Some(db) => db,
            None => {
                let db = OuiDb { entries: Vec::new() };
                assert(db.pairs() =~= Seq::<(Seq<char>, Seq<char>)>::empty());
                db
            },
        }
    }

    /// The number of entries.
    pub fn len(&self) -> (n: usize)
        ensures
            n == self.pairs().len(),
    {
        self.entries.len()
    }
}

/// The first three groups of a text, with `-` read as `:`, joined by `:`.
pub open spec fn oui_groups(u: Seq<char>) -> Seq<char> {
    let p = split_on(replace_all(u, seq!['-'], seq![':']), ':');
    join(if p.len() > 3 { p.take(3) } else { p }, seq![':'])
}

/// The OUI part of a MAC address: in upper case, with `-` read as `:`, the
/// first three `:`-separated groups joined by `:`.
pub open spec fn oui_prefix(mac: Seq<char>) -> Seq<char> {
    oui_groups(upper_text(mac))
}

/// The value of the first entry whose key is `key`.
pub open spec fn find_exact(pairs: Seq<(Seq<char>, Seq<char>)>, key: Seq<char>) -> Option<Seq<char>>
    decreases pairs.len(),
{
    if pairs.len() == 0 {
        None
    } else if pairs[0].0 == key {
        Some(pairs[0].1)
    } else {
        find_exact(pairs.skip(1), key)
    }
}

/// The value of the first entry whose key, in upper case, is `key`.
pub open spec fn find_upper(pairs: Seq<(Seq<char>, Seq<char>)>, key: Seq<char>) -> Option<Seq<char>>
    decreases pairs.len(),
{
    if pairs.len() == 0 {
        None
    } else if upper_text(pairs[0].0) == key {
        Some(pairs[0].1)
    } else {
        find_upper(pairs.skip(1), key)
    }
}

/// The vendor that the OUI table gives a MAC address: none unless its OUI
/// part is 8 bytes long; then the entry with exactly that key, else the
/// first entry whose key in upper case is that OUI part.
pub open spec fn oui_vendor_spec(mac: Seq<char>, pairs: Seq<(Seq<char>, Seq<char>)>) -> Option<Seq<char>> {
    let pre = oui_prefix(mac);
    if (vstd::utf8::encode_utf8(pre).len() as usize) != 8 {
        None
    } else {
        match find_exact(pairs, pre) {
            Some(v) => Some(v),
            None => find_upper(pairs, pre),
        }
    }
}

/// The OUI part of a MAC address.
fn oui_prefix_of(mac: &str) -> (r: String)
    ensures
        r@ == oui_prefix(mac@),
{
    let upper = to_uppercase(mac);
    let uc = chars_of(upper.as_str());
    let dash: Vec<char> = vec!['-'];
    let colon: Vec<char> = vec![':'];
    assert(dash@ =~= seq!['-']);
    assert(colon@ =~= seq![':']);
    let clean = replace_chars(&uc, &dash, &colon);
    let pieces = split_chars(&clean, ':');
    let ghost pv = pieces@.map_values(|p: Vec<char>| p@);
    let mut first: Vec<Vec<char>> = Vec::new();
    let mut i: usize = 0;
    let n = if pieces.len() > 3 { 3 } else { pieces.len() };
    while i < n
        invariant
            n <= pieces.len(),
            i <= n,
            pv == pieces@.map_values(|p: Vec<char>| p@),
            first@.map_values(|p: Vec<char>| p@) == pv.take(i as int),
        decreases n - i,
    {
        let p = &pieces[i];
        let mut copy: Vec<char> = Vec::new();
        let mut k: usize = 0;
        while k < p.len()
            invariant
                k <= p.len(),
                copy@ == p@.take(k as int),
            decreases p.len() - k,
        {
            copy.push(p[k]);
            assert(p@.take(k as int).push(p@[k as int]) =~= p@.take(k + 1));
            k += 1;
        }
        assert(copy@ =~= pv[i as int]);
        let ghost old_view = first@.map_values(|p: Vec<char>| p@);
        first.push(copy);
        assert(first@.map_values(|p: Vec<char>| p@) =~= old_view.push(pv[i as int]));
        assert(pv.take(i + 1) =~= pv.take(i as int).push(pv[i as int]));
        i += 1;
    }
    assert(pv.take(n as int) =~= (if pv.len() > 3 { pv.take(3) } else { pv }));
    let joined = join_chars(&first, &colon);
    string_from_chars(&joined)
}

/// Whether `c` is a hexadecimal digit whose value has the bit `0x02` set.
pub open spec fn local_bit_digit(c: char) -> bool {
    c == '2' || c == '3' || c == '6' || c == '7' || c == 'a' || c == 'b' || c == 'e' || c == 'f'
        || c == 'A' || c == 'B' || c == 'E' || c == 'F'
}

/// The first octet of a MAC address: the first group of its OUI part.
pub open spec fn first_octet_text(mac: Seq<char>) -> Seq<char> {
    split_on(oui_prefix(mac), ':')[0]
}

/// A locally administered MAC address (a random or private one, which no
/// vendor owns): its first octet is two hexadecimal digits with the bit
/// `0x02` set.
pub open spec fn locally_administered(mac: Seq<char>) -> bool {
    let o = first_octet_text(mac);
    o.len() == 2 && is_hex(o[0]) && local_bit_digit(o[1])
}

/// What the vendor column shows for a locally administered address that
/// the OUI table does not know.
pub const LOCAL_MAC_VENDOR: &'static str = "MAC local (aleatoria)";

/// The vendor of a MAC address: what the OUI table gives it; else, for a
/// locally administered address, [`LOCAL_MAC_VENDOR`]; else none.
pub open spec fn vendor_spec(mac: Seq<char>, pairs: Seq<(Seq<char>, Seq<char>)>) -> Option<Seq<char>> {
    match oui_vendor_spec(mac, pairs) {
        Some(v) => Some(v),
        None => if locally_administered(mac) {
            Some(LOCAL_MAC_VENDOR@)
        } else {
            None
        },
    }
}

/// The vendor of an ASCII MAC address ignores letter case, the `-`/`:`
/// separator and everything after the third group: two addresses whose
/// first three groups agree once upper-cased and with `-` read as `:` (such
/// as `24-a6-5e-01-02-03` and `24:A6:5E:ff:ee:dd`) have the same vendor.
pub proof fn lemma_vendor_ignores_case(mac: Seq<char>, mac2: Seq<char>, pairs: Seq<(Seq<char>, Seq<char>)>)
    requires
        crate::text::all_ascii(mac),
        crate::text::all_ascii(mac2),
        oui_groups(crate::text::ascii_upper(mac)) == oui_groups(crate::text::ascii_upper(mac2)),
    ensures
        vendor_spec(mac, pairs) == vendor_spec(mac2, pairs),
{
    assert(oui_prefix(mac) == oui_prefix(mac2));
}

/// The value of a hexadecimal digit.
pub open spec fn hex_value(c: char) -> int {
    if '0' <= c && c <= '9' {
        c as int - '0' as int
    } else if 'a' <= c && c <= 'f' {
        c as int - 'a' as int + 10
    } else {
        c as int - 'A' as int + 10
    }
}

proof fn lemma_local_bit_digit(c: char)
    requires
        is_hex(c),
    ensures
        0 <= hex_value(c) < 16,
        local_bit_digit(c) <==> (hex_value(c) / 2) % 2 == 1,
{
    let v = hex_value(c);
    if '0' <= c && c <= '9' {
        assert(c == '0' || c == '1' || c == '2' || c == '3' || c == '4' || c == '5' || c == '6'
            || c == '7' || c == '8' || c == '9') by {
            assert(48 <= c as u32 <= 57);
        }
    } else if 'a' <= c && c <= 'f' {
        assert(c == 'a' || c == 'b' || c == 'c' || c == 'd' || c == 'e' || c == 'f') by {
            assert(97 <= c as u32 <= 102);
        }
    } else {
        assert(c == 'A' || c == 'B' || c == 'C' || c == 'D' || c == 'E' || c == 'F') by {
            assert(65 <= c as u32 <= 70);
        }
    }
}

/// A MAC address whose first octet is two hexadecimal digits is locally
/// administered exactly when the octet's value has the bit `0x02` set.
pub proof fn lemma_locally_administered_bit(mac: Seq<char>)
    requires
        first_octet_text(mac).len() == 2,
        is_hex(first_octet_text(mac)[0]),
        is_hex(first_octet_text(mac)[1]),
    ensures
        locally_administered(mac) <==> ((hex_value(first_octet_text(mac)[0]) * 16 + hex_value(
            first_octet_text(mac)[1],
        )) / 2) % 2 == 1,
{
    let o = first_octet_text(mac);
    lemma_local_bit_digit(o[0]);
    lemma_local_bit_digit(o[1]);
    let hi = hex_value(o[0]);
    let lo = hex_value(o[1]);
    assert((hi * 16 + lo) / 2 == hi * 8 + lo / 2) by (nonlinear_arith)
        requires
            0 <= lo < 16,
            0 <= hi < 16,
    ;
    assert((hi * 8 + lo / 2) % 2 == (lo / 2) % 2) by (nonlinear_arith)
        requires
            0 <= lo < 16,
            0 <= hi < 16,
    ;
}

/// Whether a MAC address is locally administered.
pub fn is_locally_administered(mac: &str) -> (r: bool)
    ensures
        r == locally_administered(mac@),
{
    let prefix = oui_prefix_of(mac);
    let cs = chars_of(prefix.as_str());
    let pieces = split_chars(&cs, ':');
    let ghost pv = pieces@.map_values(|p: Vec<char>| p@);
    assert(pv[0] == pieces@[0]@);
    let o = &pieces[0];
    if o.len() != 2 {
        return false;
    }
    let a = o[0];
    let b = o[1];
    (('0' <= a && a <= '9') || ('a' <= a && a <= 'f') || ('A' <= a && a <= 'F')) && (b == '2' || b
        == '3' || b == '6' || b == '7' || b == 'a' || b == 'b' || b == 'e' || b == 'f' || b == 'A'
        || b == 'B' || b == 'E' || b == 'F')
}

/// The vendor of a MAC address: looked up by its OUI part, and for a
/// locally administered address that the table does not know,
/// [`LOCAL_MAC_VENDOR`].
pub fn lookup_vendor(mac: &str, db: &OuiDb) -> (r: Option<String>)
    ensures
        crate::scanner::opt_view(r) == vendor_spec(mac@, db.pairs()),
{
    match oui_vendor(mac, db) {
        Some(v) => Some(v),
        None => if is_locally_administered(mac) {
            Some(to_owned_string(LOCAL_MAC_VENDOR))
        } else {
            None
        },
    }
}

/// The vendor that the OUI table gives a MAC address.
fn oui_vendor(mac: &str, db: &OuiDb) -> (r: Option<String>)
    ensures
        crate::scanner::opt_view(r) == oui_vendor_spec(mac@, db.pairs()),
{
    let prefix = oui_prefix_of(mac);
    if prefix.as_str().len() != 8 {
        return None;
    }
    let pc = chars_of(prefix.as_str());
    let ghost all = db.pairs();
    let mut i: usize = 0;
    assert(all.skip(0) =~= all);
    while i < db.entries.len()
        invariant
            i <= db.entries.len(),
            all == db.pairs(),
            all.len() == db.entries.len(),
            pc@ == oui_prefix(mac@),
            (vstd::utf8::encode_utf8(pc@).len() as usize) == 8,
            find_exact(all, pc@) == find_exact(all.skip(i as int), pc@),
        decreases db.entries.len() - i,
    {
        let k = chars_of(db.entries[i].0.as_str());
        assert(all[i as int] == (db.entries@[i as int].0@, db.entries@[i as int].1@));
        assert(all.skip(i as int).skip(1) =~= all.skip(i + 1));
        if chars_eq(&k, &pc) {
            assert(all.skip(i as int)[0] == all[i as int]);
            let v = db.entries[i].1.clone();
            assert(v@ == all[i as int].1);
            return Some(v);
        }
        i += 1;
    }
    let mut j: usize = 0;
    assert(all.skip(i as int) =~= Seq::<(Seq<char>, Seq<char>)>::empty());
    while j < db.entries.len()
        invariant
            j <= db.entries.len(),
            all == db.pairs(),
            all.len() == db.entries.len(),
            pc@ == oui_prefix(mac@),
            (vstd::utf8::encode_utf8(pc@).len() as usize) == 8,
            find_exact(all, pc@) is None,
            find_upper(all, pc@) == find_upper(all.skip(j as int), pc@),
        decreases db.entries.len() - j,
    {
        let ku = to_uppercase(db.entries[j].0.as_str());
        let k = chars_of(ku.as_str());
        assert(all[j as int] == (db.entries@[j as int].0@, db.entries@[j as int].1@));
        assert(all.skip(j as int).skip(1) =~= all.skip(j + 1));
        if chars_eq(&k, &pc) {
            assert(all.skip(j as int)[0] == all[j as int]);
            let v = db.entries[j].1.clone();
            assert(v@ == all[j as int].1);
            return Some(v);
        }
        j += 1;
    }
    None
}

} // verus!

verus! {

// ---------------------------------------------------------------------------
// Hosts
// ---------------------------------------------------------------------------

/// What the audit knows of one host of the network.
#[derive(Debug)]
pub struct HostInfo {
    pub ip: String,
    pub hostname: Option<String>,
    pub mac: Option<String>,
    pub vendor: Option<String>,
    pub is_alive: bool,
    pub open_ports: Vec<PortResult>,
    pub latency_ms: Option<u128>,
    pub vulnerabilities: Vec<Finding>,
    pub mdns_names: Vec<String>,
    pub ssdp_location: Option<String>,
}

/// The content of a [`HostInfo`], by value.
#[verifier::ext_equal]
pub struct HostView {
    pub ip: Seq<char>,
    pub hostname: Option<Seq<char>>,
    pub mac: Option<Seq<char>>,
    pub vendor: Option<Seq<char>>,
    pub is_alive: bool,
    pub open_ports: Seq<PortResult>,
    pub latency_ms: Option<u128>,
    pub vulnerabilities: Seq<Finding>,
    pub mdns_names: Seq<Seq<char>>,
    pub ssdp_location: Option<Seq<char>>,
}

impl View for HostInfo {
    type V = HostView;

    open spec fn view(&self) -> HostView {
        HostView {
            ip: self.ip@,
            hostname: crate::scanner::opt_view(self.hostname),
            mac: crate::scanner::opt_view(self.mac),
            vendor: crate::scanner::opt_view(self.vendor),
            is_alive: self.is_alive,
            open_ports: self.open_ports@,
            latency_ms: self.latency_ms,
            vulnerabilities: self.vulnerabilities@,
            mdns_names: self.mdns_names.deep_view(),
            ssdp_location: crate::scanner::opt_view(self.ssdp_location),
        }
    }
}

/// The contents of a list of hosts.
pub open spec fn host_views(s: Seq<HostInfo>) -> Seq<HostView> {
    s.map_values(|h: HostInfo| h@)
}

/// Hosts ordered by the text of their address.
pub open spec fn by_ip() -> spec_fn(HostView, HostView) -> bool {
    |a: HostView, b: HostView| seq_lt(a.ip, b.ip)
}

/// Ordering hosts by address text is a strict weak order.
pub proof fn lemma_by_ip_order()
    ensures
        strict_weak_order(by_ip()),
{
    let before = by_ip();
    assert forall|a: HostView, b: HostView| #[trigger] before(a, b) implies !before(b, a) by {
        crate::text::lemma_seq_lt_weak_order(a.ip, b.ip, b.ip);
    }
    assert forall|a: HostView, b: HostView, c: HostView|
        #![trigger before(a, b), before(b, c)]
        !before(a, b) && !before(b, c) implies !before(a, c) by {
        crate::text::lemma_seq_lt_weak_order(a.ip, b.ip, c.ip);
    }
}

/// Orders hosts by the text of their address; hosts with the same address
/// keep their order.
pub fn sort_hosts_by_ip(hosts: Vec<HostInfo>) -> (r: Vec<HostInfo>)
    ensures
        host_views(r@) == isort_by(host_views(hosts@), by_ip()),
{
    let ghost orig = host_views(hosts@);
    let mut rest = hosts;
    let mut out: Vec<HostInfo> = Vec::new();
    let mut n: usize = 0;
    let total = rest.len();
    while rest.len() > 0
        invariant
            total == orig.len(),
            n + rest@.len() == orig.len(),
            host_views(rest@) == orig.skip(n as int),
            host_views(out@) == isort_by(orig.take(n as int), by_ip()),
        decreases rest@.len(),
    {
        let ghost rv = host_views(rest@);
        let x = rest.remove(0);
        assert(rv[0] == x@);
        assert(host_views(rest@) =~= rv.skip(1));
        assert(orig.take(n + 1).drop_last() =~= orig.take(n as int));
        assert(orig.take(n + 1).last() == x@);
        let xc = chars_of(x.ip.as_str());
        let mut j: usize = out.len();
        let ghost ov = host_views(out@);
        loop
            invariant
                j <= out@.len(),
                ov == host_views(out@),
                xc@ == x@.ip,
                forall|k: int| j <= k < ov.len() ==> (by_ip())(x@, #[trigger] ov[k]),
            ensures
                j <= out@.len(),
                forall|k: int| j <= k < ov.len() ==> (by_ip())(x@, #[trigger] ov[k]),
                j == 0 || !(by_ip())(x@, ov[j - 1]),
            decreases j,
        {
            if j == 0 {
                break;
            }
            let yc = chars_of(out[j - 1].ip.as_str());
            assert(ov[j - 1] == out@[j - 1]@);
            let lt = chars_le(&xc, &yc) && !chars_eq(&xc, &yc);
            if !lt {
                break;
            }
            j -= 1;
        }
        proof {
            lemma_insert_at(ov, x@, by_ip(), j as int);
        }
        out.insert(j, x);
        assert(host_views(out@) =~= ov.take(j as int).push(x@) + ov.skip(j as int));
        n += 1;
        assert(host_views(rest@) =~= orig.skip(n as int));
    }
    assert(orig.take(n as int) =~= orig);
    out
}

/// The live hosts of `s`, in order.
pub open spec fn alive_only(s: Seq<HostView>) -> Seq<HostView>
    decreases s.len(),
{
    if s.len() == 0 {
        Seq::empty()
    } else if s.last().is_alive {
        alive_only(s.drop_last()).push(s.last())
    } else {
        alive_only(s.drop_last())
    }
}

/// The hosts a discovery reports: the local host and the live probed
/// hosts, ordered by address text.
pub open spec fn discovery_spec(local: HostView, probed: Seq<HostView>) -> Seq<HostView> {
    isort_by(seq![local] + alive_only(probed), by_ip())
}

/// Assembles a discovery: keeps the live probed hosts, puts the local host
/// first, and orders everything by address text.
pub fn assemble_discovery(local: HostInfo, probed: Vec<HostInfo>) -> (r: Vec<HostInfo>)
    ensures
        host_views(r@) == discovery_spec(local@, host_views(probed@)),
{
    let ghost orig = host_views(probed@);
    let mut rest = probed;
    let mut alive: Vec<HostInfo> = Vec::new();
    alive.push(local);
    let mut n: usize = 0;
    let total = rest.len();
    assert(host_views(alive@) =~= seq![local@] + alive_only(orig.take(0)));
    while rest.len() > 0
        invariant
            total == orig.len(),
            n + rest@.len() == orig.len(),
            host_views(rest@) == orig.skip(n as int),
            host_views(alive@) == seq![local@] + alive_only(orig.take(n as int)),
        decreases rest@.len(),
    {
        let ghost rv = host_views(rest@);
        let ghost av = host_views(alive@);
        let h = rest.remove(0);
        assert(rv[0] == h@);
        assert(host_views(rest@) =~= rv.skip(1));
        assert(orig.take(n + 1).drop_last() =~= orig.take(n as int));
        assert(orig.take(n + 1).last() == h@);
        if h.is_alive {
            alive.push(h);
            assert(host_views(alive@) =~= av.push(h@));
        }
        n += 1;
        assert(host_views(rest@) =~= orig.skip(n as int));
    }
    assert(orig.take(n as int) =~= orig);
    sort_hosts_by_ip(alive)
}

/// A host found by probing: a live host keeps its open ports and gets the
/// findings they give; a silent one has neither.
pub open spec fn probed_host_ok(h: HostView, ip: Ipv4, alive: bool, latency: Option<u128>, ports: Seq<PortResult>, db: Seq<VulnEntry>) -> bool {
    &&& h.ip == ipv4_text(ip)
    &&& h.hostname is None
    &&& h.mac is None
    &&& h.vendor is None
    &&& h.is_alive == alive
    &&& h.open_ports == (if alive { ports } else { Seq::empty() })
    &&& h.latency_ms == latency
    &&& h.vulnerabilities == (if alive { host_findings(ports, db) } else { Seq::empty() })
    &&& h.mdns_names.len() == 0
    &&& h.ssdp_location is None
}

/// A host reached by scanning this machine itself: alive, no latency, its
/// open ports and the findings they give.
pub open spec fn self_host_ok(h: HostView, ip: Seq<char>, hostname: Option<Seq<char>>, ports: Seq<PortResult>, db: Seq<VulnEntry>) -> bool {
    &&& h.ip == ip
    &&& h.hostname == hostname
    &&& h.mac is None
    &&& h.vendor is None
    &&& h.is_alive
    &&& h.open_ports == ports
    &&& h.latency_ms == Some(0u128)
    &&& h.vulnerabilities == host_findings(ports, db)
    &&& h.mdns_names.len() == 0
    &&& h.ssdp_location is None
}

impl HostInfo {
    /// The host at `ip` after probing it: `alive` and `latency` are the
    /// probe's verdict, `open_ports` what the port scan found (only scanned
    /// on live hosts).
    pub fn probed(ip: Ipv4, alive: bool, latency: Option<u128>, open_ports: Vec<PortResult>, db: &[VulnEntry]) -> (h: HostInfo)
        ensures
            probed_host_ok(h@, ip, alive, latency, open_ports@, db@),
    {
        let vulnerabilities = if alive {
            check_host(open_ports.as_slice(), db)
        } else {
            Vec::new()
        };
        let ports = if alive {
            open_ports
        } else {
            Vec::new()
        };
        let h = HostInfo {
            ip: ipv4_to_string(ip),
            hostname: None,
            mac: None,
            vendor: None,
            is_alive: alive,
            open_ports: ports,
            latency_ms: latency,
            vulnerabilities,
            mdns_names: Vec::new(),
            ssdp_location: None,
        };
        assert(h@.open_ports =~= (if alive { open_ports@ } else { Seq::empty() }));
        assert(h@.vulnerabilities =~= (if alive { host_findings(open_ports@, db@) } else { Seq::empty() }));
        h
    }

    /// This machine, scanned directly: `ip` is its address text.
    pub fn scanned_self(ip: String, hostname: Option<String>, open_ports: Vec<PortResult>, db: &[VulnEntry]) -> (h: HostInfo)
        ensures
            self_host_ok(h@, ip@, crate::scanner::opt_view(hostname), open_ports@, db@),
    {
        let vulnerabilities = check_host(open_ports.as_slice(), db);
        HostInfo {
            ip,
            hostname,
            mac: None,
            vendor: None,
            is_alive: true,
            open_ports,
            latency_ms: Some(0),
            vulnerabilities,
            mdns_names: Vec::new(),
            ssdp_location: None,
        }
    }
}

} // verus!

verus! {

// ---------------------------------------------------------------------------
// The ARP table
// ---------------------------------------------------------------------------

/// The system's ARP table: IP address text to MAC address text, one entry
/// per address.
#[derive(Debug)]
pub struct ArpTable {
    pub entries: Vec<(String, String)>,
}

impl ArpTable {
    /// The table's entries, by their text.
    pub open spec fn pairs(&self) -> Seq<(Seq<char>, Seq<char>)> {
        self.entries.deep_view()
    }
}

/// The position of the entry for `k`, or -1.
pub open spec fn key_pos(t: Seq<(Seq<char>, Seq<char>)>, k: Seq<char>) -> int
    decreases t.len(),
{
    if t.len() == 0 {
        -1
    } else {
        let p = key_pos(t.drop_last(), k);
        if p >= 0 {
            p
        } else if t.last().0 == k {
            t.len() - 1
        } else {
            -1
        }
    }
}

/// The MAC address recorded for `ip`.
pub open spec fn arp_get(t: Seq<(Seq<char>, Seq<char>)>, ip: Seq<char>) -> Option<Seq<char>> {
    let p = key_pos(t, ip);
    if p >= 0 {
        Some(t[p].1)
    } else {
        None
    }
}

/// Records `mac` for `ip`, replacing an earlier record for `ip`.
pub open spec fn arp_insert(t: Seq<(Seq<char>, Seq<char>)>, ip: Seq<char>, mac: Seq<char>) -> Seq<(Seq<char>, Seq<char>)> {
    let p = key_pos(t, ip);
    if p >= 0 {
        t.update(p, (ip, mac))
    } else {
        t.push((ip, mac))
    }
}

/// The entry that a line of Linux's `/proc/net/arp` gives: its first and
/// fourth fields, unless the MAC address is all zeros.
pub open spec fn linux_arp_entry(line: Seq<char>) -> Option<(Seq<char>, Seq<char>)> {
    let w = words(line);
    if w.len() >= 4 && w[3] != "00:00:00:00:00:00"@ {
        Some((w[0], w[3]))
    } else {
        None
    }
}

/// The entry that a line of Windows' `arp -a` gives: its first two fields,
/// when the first is an IP address (IPv4 or IPv6) and the second holds a
/// `-`, or whenever the second holds a `:`.
pub open spec fn windows_arp_entry(line: Seq<char>) -> Option<(Seq<char>, Seq<char>)> {
    let w = words(line);
    if w.len() >= 2 && ((ip_addr_ok(w[0]) && has_char(w[1], '-')) || has_char(
        w[1],
        ':',
    )) {
        Some((w[0], w[1]))
    } else {
        None
    }
}

/// The table built from listing lines, line after line.
pub open spec fn arp_from_lines(ls: Seq<Seq<char>>, windows: bool) -> Seq<(Seq<char>, Seq<char>)>
    decreases ls.len(),
{
    if ls.len() == 0 {
        Seq::empty()
    } else {
        let t = arp_from_lines(ls.drop_last(), windows);
        let e = if windows {
            windows_arp_entry(ls.last())
        } else {
            linux_arp_entry(ls.last())
        };
        match e {
            Some((ip, mac)) => arp_insert(t, ip, mac),
            None => t,
        }
    }
}

/// The lines of a listing that hold entries: every line of `arp -a`, every
/// line but the header of `/proc/net/arp`.
pub open spec fn arp_lines(listing: Seq<char>, windows: bool) -> Seq<Seq<char>> {
    let ls = lines(listing);
    if windows || ls.len() == 0 {
        ls
    } else {
        ls.skip(1)
    }
}

fn key_pos_exec(t: &Vec<(String, String)>, k: &Vec<char>) -> (r: Option<usize>)
    ensures
        match r {
            Some(i) => key_pos(t.deep_view(), k@) == i as int,
            None => key_pos(t.deep_view(), k@) == -1,
        },
{
    let ghost tv = t.deep_view();
    let mut i: usize = 0;
    while i < t.len()
        invariant
            i <= t.len(),
            tv == t.deep_view(),
            tv.len() == t.len(),
            key_pos(tv.take(i as int), k@) == -1,
        decreases t.len() - i,
    {
        assert(tv.take(i + 1).drop_last() =~= tv.take(i as int));
        assert(tv[i as int] == (t@[i as int].0@, t@[i as int].1@));
        let kc = chars_of(t[i].0.as_str());
        if chars_eq(&kc, k) {
            proof {
                lemma_key_pos_prefix(tv, k@, i as int + 1);
            }
            return Some(i);
        }
        i += 1;
    }
    assert(tv.take(i as int) =~= tv);
    None
}

proof fn lemma_key_pos_prefix(t: Seq<(Seq<char>, Seq<char>)>, k: Seq<char>, n: int)
    requires
        0 <= n <= t.len(),
        key_pos(t.take(n), k) >= 0,
    ensures
        key_pos(t, k) == key_pos(t.take(n), k),
    decreases t.len() - n,
{
    if n < t.len() {
        assert(t.take(n + 1).drop_last() =~= t.take(n));
        lemma_key_pos_prefix(t, k, n + 1);
    } else {
        assert(t.take(n) =~= t);
    }
}

proof fn lemma_key_pos_bounds(t: Seq<(Seq<char>, Seq<char>)>, k: Seq<char>)
    ensures
        -1 <= key_pos(t, k) < t.len(),
        key_pos(t, k) >= 0 ==> t[key_pos(t, k)].0 == k,
        key_pos(t, k) == -1 ==> forall|i: int| 0 <= i < t.len() ==> (#[trigger] t[i]).0 != k,
    decreases t.len(),
{
    if t.len() > 0 {
        lemma_key_pos_bounds(t.drop_last(), k);
        if key_pos(t, k) == -1 {
            assert forall|i: int| 0 <= i < t.len() implies (#[trigger] t[i]).0 != k by {
                if i < t.len() - 1 {
                    assert(t.drop_last()[i] == t[i]);
                }
            }
        }
        let p = key_pos(t.drop_last(), k);
        if p >= 0 {
            assert(t.drop_last()[p] == t[p]);
        }
    }
}

fn arp_insert_exec(t: &mut Vec<(String, String)>, ip: String, mac: String)
    ensures
        final(t).deep_view() == arp_insert(old(t).deep_view(), ip@, mac@),
{
    let ipc = chars_of(ip.as_str());
    proof {
        lemma_key_pos_bounds(t.deep_view(), ip@);
    }
    let ghost tv = t.deep_view();
    match key_pos_exec(t, &ipc) {
        Some(i) => {
            t.set(i, (ip, mac));
            assert(t.deep_view() =~= tv.update(i as int, (ipc@, mac@)));
        },
        None => {
            t.push((ip, mac));
            assert(t.deep_view() =~= tv.push((ipc@, mac@)));
        },
    }
}

/// The entry a listing line gives, as owned strings.
fn arp_line_entry(line: &Vec<char>, windows: bool) -> (r: Option<(String, String)>)
    ensures
        match r {
            Some(e) => (if windows { windows_arp_entry(line@) } else { linux_arp_entry(line@) })
                == Some((e.0@, e.1@)),
            None => (if windows { windows_arp_entry(line@) } else { linux_arp_entry(line@) }) is None,
        },
{
    let w = words_of(line);
    let ghost wv = w@.map_values(|p: Vec<char>| p@);
    if windows {
        if w.len() < 2 {
            return None;
        }
        assert(wv[0] == w@[0]@ && wv[1] == w@[1]@);
        let ip = string_from_chars(&w[0]);
        let ok = (is_ip_addr(ip.as_str()) && has_char_exec(&w[1], '-')) || has_char_exec(
            &w[1],
            ':',
        );
        if ok {
            Some((ip, string_from_chars(&w[1])))
        } else {
            None
        }
    } else {
        if w.len() < 4 {
            return None;
        }
        assert(wv[0] == w@[0]@ && wv[3] == w@[3]@);
        let zero = chars_of("00:00:00:00:00:00");
        if chars_eq(&w[3], &zero) {
            return None;
        }
        Some((string_from_chars(&w[0]), string_from_chars(&w[3])))
    }
}

/// The ARP table read from the system's listing: `arp -a` output on Windows
/// (`windows`), the content of `/proc/net/arp` elsewhere. A later line for
/// an address replaces an earlier one.
pub fn arp_table_snapshot(listing: &str, windows: bool) -> (t: ArpTable)
    ensures
        t.pairs() == arp_from_lines(arp_lines(listing@, windows), windows),
{
    let cs = chars_of(listing);
    let ls = lines_of(&cs);
    let ghost lv = ls@.map_values(|p: Vec<char>| p@);
    let ghost used = arp_lines(listing@, windows);
    let start: usize = if windows || ls.len() == 0 { 0 } else { 1 };
    assert(used =~= lv.skip(start as int));
    let mut entries: Vec<(String, String)> = Vec::new();
    let mut i: usize = start;
    assert(entries.deep_view() =~= arp_from_lines(used.take(0), windows));
    while i < ls.len()
        invariant
            start <= i <= ls.len(),
            lv == ls@.map_values(|p: Vec<char>| p@),
            used == lv.skip(start as int),
            entries.deep_view() == arp_from_lines(used.take(i - start), windows),
        decreases ls.len() - i,
    {
        assert(used.take(i - start + 1).drop_last() =~= used.take(i - start));
        assert(used.take(i - start + 1).last() == ls@[i as int]@);
        match arp_line_entry(&ls[i], windows) {
            Some((ip, mac)) => {
                arp_insert_exec(&mut entries, ip, mac);
            },
            None => {},
        }
        i += 1;
    }
    assert(used.take(i - start) =~= used);
    ArpTable { entries }
}

// ---------------------------------------------------------------------------
// Enriching hosts with the ARP table
// ---------------------------------------------------------------------------

/// A host with the MAC address and vendor that the ARP table gives it.
pub open spec fn enriched(h: HostView, t: Seq<(Seq<char>, Seq<char>)>, oui: Seq<(Seq<char>, Seq<char>)>) -> HostView {
    match arp_get(t, h.ip) {
        Some(mac) => HostView { mac: Some(mac), vendor: vendor_spec(mac, oui), ..h },
        None => h,
    }
}

/// The hosts, each enriched.
pub open spec fn enriched_all(hs: Seq<HostView>, t: Seq<(Seq<char>, Seq<char>)>, oui: Seq<(Seq<char>, Seq<char>)>) -> Seq<HostView>
    decreases hs.len(),
{
    if hs.len() == 0 {
        Seq::empty()
    } else {
        enriched_all(hs.drop_last(), t, oui).push(enriched(hs.last(), t, oui))
    }
}

/// Some host has address text `ip`.
pub open spec fn has_ip(hs: Seq<HostView>, ip: Seq<char>) -> bool {
    exists|i: int| 0 <= i < hs.len() && (#[trigger] hs[i]).ip == ip
}

/// An ARP entry becomes a host of its own when no host has its address, the
/// address is an IP address (IPv4 or IPv6), not multicast (`224.`,
/// `239.`), not `0.0.0.0`, not a network or broadcast address (`.0`,
/// `.255`), and, when it is IPv4 and the local address is known, lies in
/// the `/24` of the local address.
pub open spec fn arp_only_host(ip: Seq<char>, hs: Seq<HostView>, local: Option<Ipv4>) -> bool {
    &&& !has_ip(hs, ip)
    &&& ip_addr_ok(ip)
    &&& !starts_with(ip, "224."@)
    &&& !starts_with(ip, "239."@)
    &&& ip != "0.0.0.0"@
    &&& !ends_with(ip, ".0"@)
    &&& !ends_with(ip, ".255"@)
    &&& match (local, parse_ipv4_spec(ip)) {
        (Some(l), Some(o)) => o.a == l.a && o.b == l.b && o.c == l.c,
        _ => true,
    }
}

/// A live host known only from the ARP table.
pub open spec fn arp_host(ip: Seq<char>, mac: Seq<char>, oui: Seq<(Seq<char>, Seq<char>)>) -> HostView {
    HostView {
        ip,
        hostname: None,
        mac: Some(mac),
        vendor: vendor_spec(mac, oui),
        is_alive: true,
        open_ports: Seq::empty(),
        latency_ms: None,
        vulnerabilities: Seq::empty(),
        mdns_names: Seq::empty(),
        ssdp_location: None,
    }
}

/// The hosts that the ARP table adds, in table order.
pub open spec fn arp_additions(t: Seq<(Seq<char>, Seq<char>)>, hs: Seq<HostView>, local: Option<Ipv4>, oui: Seq<(Seq<char>, Seq<char>)>) -> Seq<HostView>
    decreases t.len(),
{
    if t.len() == 0 {
        Seq::empty()
    } else {
        let prev = arp_additions(t.drop_last(), hs, local, oui);
        if arp_only_host(t.last().0, hs, local) {
            prev.push(arp_host(t.last().0, t.last().1, oui))
        } else {
            prev
        }
    }
}

/// What enriching gives: the hosts with their MAC address and vendor, then
/// the hosts known only from the ARP table, all ordered by address text.
pub open spec fn enrich_spec(hs: Seq<HostView>, t: Seq<(Seq<char>, Seq<char>)>, local: Option<Ipv4>, oui: Seq<(Seq<char>, Seq<char>)>) -> Seq<HostView> {
    isort_by(enriched_all(hs, t, oui) + arp_additions(t, hs, local, oui), by_ip())
}

fn arp_get_exec(t: &ArpTable, ip: &Vec<char>) -> (r: Option<String>)
    ensures
        crate::scanner::opt_view(r) == arp_get(t.pairs(), ip@),
{
    proof {
        lemma_key_pos_bounds(t.pairs(), ip@);
    }
    match key_pos_exec(&t.entries, ip) {
        Some(i) => {
            assert(t.pairs()[i as int] == (t.entries@[i as int].0@, t.entries@[i as int].1@));
            Some(t.entries[i].1.clone())
        },
        None => None,
    }
}

fn ip_taken(hosts: &Vec<HostInfo>, ip: &Vec<char>) -> (r: bool)
    ensures
        r == has_ip(host_views(hosts@), ip@),
{
    let ghost hv = host_views(hosts@);
    let mut i: usize = 0;
    while i < hosts.len()
        invariant
            i <= hosts.len(),
            hv == host_views(hosts@),
            forall|k: int| 0 <= k < i ==> (#[trigger] hv[k]).ip != ip@,
        decreases hosts.len() - i,
    {
        assert(hv[i as int] == hosts@[i as int]@);
        let hc = chars_of(hosts[i].ip.as_str());
        if chars_eq(&hc, ip) {
            return true;
        }
        i += 1;
    }
    false
}

fn arp_only_host_exec(ip: &String, hosts: &Vec<HostInfo>, local: Option<Ipv4>) -> (r: bool)
    ensures
        r == arp_only_host(ip@, host_views(hosts@), local),
{
    let ic = chars_of(ip.as_str());
    if ip_taken(hosts, &ic) {
        return false;
    }
    if !is_ip_addr(ip.as_str()) {
        return false;
    }
    let parsed = parse_ipv4(ip.as_str());
    let m224 = chars_of("224.");
    let m239 = chars_of("239.");
    let zero = chars_of("0.0.0.0");
    let net = chars_of(".0");
    let bcast = chars_of(".255");
    if starts_with_chars(&ic, &m224) || starts_with_chars(&ic, &m239) || chars_eq(&ic, &zero) {
        return false;
    }
    if ends_with_chars(&ic, &net) || ends_with_chars(&ic, &bcast) {
        return false;
    }
    match (local, parsed) {
        (Some(l), Some(o)) => o.a == l.a && o.b == l.b && o.c == l.c,
        _ => true,
    }
}

/// Adds to the hosts what the ARP table knows: each host's MAC address and
/// vendor, and the live hosts that only the table knows; the result is
/// ordered by address text. `local` is this machine's address, when known.
pub fn enrich_with_arp(hosts: Vec<HostInfo>, arp: &ArpTable, local: Option<Ipv4>, oui: &OuiDb) -> (r: Vec<HostInfo>)
    ensures
        host_views(r@) == enrich_spec(host_views(hosts@), arp.pairs(), local, oui.pairs()),
{
    let ghost orig = host_views(hosts@);
    let mut rest = hosts;
    let mut out: Vec<HostInfo> = Vec::new();
    let mut n: usize = 0;
    let total = rest.len();
    while rest.len() > 0
        invariant
            total == orig.len(),
            n + rest@.len() == orig.len(),
            host_views(rest@) == orig.skip(n as int),
            host_views(out@) == enriched_all(orig.take(n as int), arp.pairs(), oui.pairs()),
        decreases rest@.len(),
    {
        let ghost rv = host_views(rest@);
        let ghost ov = host_views(out@);
        let mut h = rest.remove(0);
        assert(rv[0] == h@);
        assert(host_views(rest@) =~= rv.skip(1));
        assert(orig.take(n + 1).drop_last() =~= orig.take(n as int));
        assert(orig.take(n + 1).last() == h@);
        let ghost hv = h@;
        let ic = chars_of(h.ip.as_str());
        match arp_get_exec(arp, &ic) {
            Some(mac) => {
                let vendor = lookup_vendor(mac.as_str(), oui);
                h.mac = Some(mac);
                h.vendor = vendor;
            },
            None => {},
        }
        assert(h@ == enriched(hv, arp.pairs(), oui.pairs()));
        out.push(h);
        assert(host_views(out@) =~= ov.push(h@));
        n += 1;
        assert(host_views(rest@) =~= orig.skip(n as int));
    }
    assert(orig.take(n as int) =~= orig);
    let ghost base = host_views(out@);
    // Enriching keeps every address, so `out` has the same addresses as before.
    proof {
        lemma_enriched_ips(orig, arp.pairs(), oui.pairs());
    }
    let ghost tp = arp.pairs();
    let mut i: usize = 0;
    let ghost known = host_views(out@);
    let n_known = out.len();
    let mut additions: Vec<HostInfo> = Vec::new();
    while i < arp.entries.len()
        invariant
            i <= arp.entries.len(),
            tp == arp.pairs(),
            tp.len() == arp.entries.len(),
            host_views(out@) == known,
            forall|ip: Seq<char>| #[trigger] has_ip(known, ip) == has_ip(orig, ip),
            host_views(additions@) == arp_additions(tp.take(i as int), orig, local, oui.pairs()),
        decreases arp.entries.len() - i,
    {
        assert(tp.take(i + 1).drop_last() =~= tp.take(i as int));
        assert(tp.take(i + 1).last() == tp[i as int]);
        assert(tp[i as int] == (arp.entries@[i as int].0@, arp.entries@[i as int].1@));
        let ip = &arp.entries[i].0;
        let mac = &arp.entries[i].1;
        if arp_only_host_exec(ip, &out, local) {
            let ghost av = host_views(additions@);
            let h = HostInfo {
                ip: ip.clone(),
                hostname: None,
                mac: Some(mac.clone()),
                vendor: lookup_vendor(mac.as_str(), oui),
                is_alive: true,
                open_ports: Vec::new(),
                latency_ms: None,
                vulnerabilities: Vec::new(),
                mdns_names: Vec::new(),
                ssdp_location: None,
            };
            assert(h@ =~= arp_host(tp[i as int].0, tp[i as int].1, oui.pairs()));
            additions.push(h);
            assert(host_views(additions@) =~= av.push(h@));
        }
        i += 1;
    }
    assert(tp.take(i as int) =~= tp);
    let ghost bv = host_views(out@);
    let ghost addv = host_views(additions@);
    out.append(&mut additions);
    assert(host_views(out@) =~= bv + addv);
    sort_hosts_by_ip(out)
}

proof fn lemma_enriched_ips(hs: Seq<HostView>, t: Seq<(Seq<char>, Seq<char>)>, oui: Seq<(Seq<char>, Seq<char>)>)
    ensures
        enriched_all(hs, t, oui).len() == hs.len(),
        forall|i: int| 0 <= i < hs.len() ==> (#[trigger] enriched_all(hs, t, oui)[i]).ip == hs[i].ip,
        forall|ip: Seq<char>| #[trigger] has_ip(enriched_all(hs, t, oui), ip) == has_ip(hs, ip),
    decreases hs.len(),
{
    if hs.len() > 0 {
        let p = hs.drop_last();
        lemma_enriched_ips(p, t, oui);
        let e = enriched_all(hs, t, oui);
        assert forall|i: int| 0 <= i < hs.len() implies (#[trigger] e[i]).ip == hs[i].ip by {
            if i < hs.len() - 1 {
                assert(e[i] == enriched_all(p, t, oui)[i]);
                assert(p[i] == hs[i]);
            }
        }
        assert forall|ip: Seq<char>| #[trigger] has_ip(e, ip) == has_ip(hs, ip) by {
            if has_ip(e, ip) {
                let i = choose|i: int| 0 <= i < e.len() && (#[trigger] e[i]).ip == ip;
                assert(hs[i].ip == ip);
            }
            if has_ip(hs, ip) {
                let i = choose|i: int| 0 <= i < hs.len() && (#[trigger] hs[i]).ip == ip;
                assert(e[i].ip == ip);
            }
        }
    }
}

} // verus!

verus! {

// ---------------------------------------------------------------------------
// Is a host alive?
// ---------------------------------------------------------------------------

/// The ports whose answer proves a host alive, in probing order.
pub open spec fn alive_ports() -> Seq<u16> {
    seq![80u16, 445, 22, 53]
}

/// What the prober does next.
#[derive(Debug, PartialEq, Eq, Structural)]
pub enum AliveStep {
    /// Try a TCP connection to this port.
    Probe(u16),
    /// Send one ICMP echo through the system's `ping`.
    Ping,
    /// The host is alive (`true`) or not.
    Verdict(bool),
}

/// The progress of deciding whether a host is alive: `stage` 0 to 3 waits
/// for the answer of the port `alive_ports()[stage]`, 4 for the ping, 5 is
/// done.
#[derive(Debug, Clone, Copy, PartialEq, Eq, Structural)]
pub struct AliveCheck {
    pub stage: u8,
}

/// The step after an answer at `stage`.
pub open spec fn alive_next_spec(stage: u8, answered: bool) -> (u8, AliveStep) {
    if stage < 4 {
        if answered {
            (5, AliveStep::Verdict(true))
        } else if stage < 3 {
            ((stage + 1) as u8, AliveStep::Probe(alive_ports()[stage + 1]))
        } else {
            (4, AliveStep::Ping)
        }
    } else {
        (5, AliveStep::Verdict(answered))
    }
}

/// The verdict reached from `stage` when the answers come in the order of
/// `ans`, or `None` when they run out first.
pub open spec fn alive_verdict(stage: u8, ans: Seq<bool>) -> Option<bool>
    decreases ans.len(),
{
    if ans.len() == 0 || stage >= 5 {
        None
    } else {
        let (s, step) = alive_next_spec(stage, ans[0]);
        match step {
            AliveStep::Verdict(v) => Some(v),
            _ => alive_verdict(s, ans.skip(1)),
        }
    }
}

impl AliveCheck {
    /// The first step: probe port 80.
    pub fn start() -> (r: (AliveCheck, AliveStep))
        ensures
            r.0.stage == 0,
            r.1 == AliveStep::Probe(alive_ports()[0]),
    {
        (AliveCheck { stage: 0 }, AliveStep::Probe(80))
    }

    /// The step after the answer to the current probe: the first port that
    /// answers proves the host alive; after four silent ports the host is
    /// pinged, and the ping's answer is the verdict.
    pub fn next(self, answered: bool) -> (r: (AliveCheck, AliveStep))
        requires
            self.stage < 5,
        ensures
            (r.0.stage, r.1) == alive_next_spec(self.stage, answered),
    {
        if self.stage < 4 {
            if answered {
                (AliveCheck { stage: 5 }, AliveStep::Verdict(true))
            } else if self.stage < 3 {
                let port: u16 = if self.stage == 0 {
                    445
                } else if self.stage == 1 {
                    22
                } else {
                    53
                };
                (AliveCheck { stage: self.stage + 1 }, AliveStep::Probe(port))
            } else {
                (AliveCheck { stage: 4 }, AliveStep::Ping)
            }
        } else {
            (AliveCheck { stage: 5 }, AliveStep::Verdict(answered))
        }
    }
}

/// A host is judged alive exactly when one of the four ports or, after
/// all of them stayed silent, the ping answered; five answers always reach
/// a verdict.
pub proof fn lemma_alive_verdict(ans: Seq<bool>)
    requires
        ans.len() == 5,
    ensures
        alive_verdict(0, ans) == Some(exists|i: int| 0 <= i < 5 && #[trigger] ans[i]),
{
    let a1 = ans.skip(1);
    let a2 = a1.skip(1);
    let a3 = a2.skip(1);
    let a4 = a3.skip(1);
    assert(a1[0] == ans[1] && a2[0] == ans[2] && a3[0] == ans[3] && a4[0] == ans[4]);
    assert(alive_verdict(4, a4) == Some(ans[4]));
    assert(alive_verdict(3, a3) == (if ans[3] { Some(true) } else { alive_verdict(4, a4) }));
    assert(alive_verdict(2, a2) == (if ans[2] { Some(true) } else { alive_verdict(3, a3) }));
    assert(alive_verdict(1, a1) == (if ans[1] { Some(true) } else { alive_verdict(2, a2) }));
    assert(alive_verdict(0, ans) == (if ans[0] { Some(true) } else { alive_verdict(1, a1) }));
    if !ans[0] && !ans[1] && !ans[2] && !ans[3] && !ans[4] {
        assert forall|i: int| 0 <= i < 5 implies !#[trigger] ans[i] by {}
    }
}

/// The arguments of the system `ping` for one echo to `ip` waiting at most
/// `timeout_ms`: `-n 1 -w <ms>` on Windows, `-c 1 -W <seconds rounded up>`
/// elsewhere.
pub open spec fn ping_args_spec(ip: Seq<char>, timeout_ms: u64, windows: bool) -> Seq<Seq<char>> {
    if windows {
        seq!["-n"@, "1"@, "-w"@, dec(timeout_ms as nat), ip]
    } else {
        seq!["-c"@, "1"@, "-W"@, dec(((timeout_ms + 999) / 1000) as nat), ip]
    }
}

/// The arguments of the system `ping` for one echo to `ip`.
pub fn ping_args(ip: &str, timeout_ms: u64, windows: bool) -> (r: Vec<String>)
    requires
        windows || timeout_ms <= u64::MAX - 999,
    ensures
        r.deep_view() == ping_args_spec(ip@, timeout_ms, windows),
{
    let mut r: Vec<String> = Vec::new();
    if windows {
        r.push(to_owned_string("-n"));
        r.push(to_owned_string("1"));
        r.push(to_owned_string("-w"));
        r.push(crate::text::decimal_string(timeout_ms as u128));
    } else {
        r.push(to_owned_string("-c"));
        r.push(to_owned_string("1"));
        r.push(to_owned_string("-W"));
        r.push(crate::text::decimal_string(((timeout_ms + 999) / 1000) as u128));
    }
    r.push(to_owned_string(ip));
    assert(r.deep_view() =~= ping_args_spec(ip@, timeout_ms, windows));
    r
}

/// How long to wait for `ping` as a whole: half a second more than its own
/// timeout.
pub fn ping_deadline_ms(timeout_ms: u64) -> (r: u64)
    requires
        timeout_ms <= u64::MAX - 500,
    ensures
        r == timeout_ms + 500,
{
    timeout_ms + 500
}

/// A `TTL=` field, in any ASCII case, starts at position `i`.
pub open spec fn ttl_at(s: Seq<char>, i: int) -> bool {
    &&& 0 <= i && i + 4 <= s.len()
    &&& (s[i] == 't' || s[i] == 'T')
    &&& (s[i + 1] == 't' || s[i + 1] == 'T')
    &&& (s[i + 2] == 'l' || s[i + 2] == 'L')
    &&& s[i + 3] == '='
}

/// `ping`'s output reports a reply: it shows a `TTL=` field (`ttl=64` on
/// Unix, `TTL=128` on Windows). Messages without one (a host unreachable,
/// a timeout) are no reply, whatever the exit status.
pub open spec fn shows_ttl(s: Seq<char>) -> bool {
    exists|i: int| ttl_at(s, i)
}

/// Whether a text shows a `TTL=` field.
pub fn shows_ttl_text(s: &str) -> (r: bool)
    ensures
        r == shows_ttl(s@),
{
    let cs = chars_of(s);
    let mut i: usize = 0;
    while cs.len() >= 4 && i <= cs.len() - 4
        invariant
            cs@ == s@,
            i <= cs.len(),
            forall|k: int| 0 <= k < i ==> !#[trigger] ttl_at(s@, k),
        decreases cs.len() - i,
    {
        let a = cs[i];
        let b = cs[i + 1];
        let c = cs[i + 2];
        if (a == 't' || a == 'T') && (b == 't' || b == 'T') && (c == 'l' || c == 'L') && cs[i + 3]
            == '=' {
            assert(ttl_at(s@, i as int));
            return true;
        }
        i += 1;
    }
    assert forall|k: int| !#[trigger] ttl_at(s@, k) by {
        if 0 <= k && k + 4 <= s@.len() {
            assert(k < i);
        }
    }
    false
}

/// Whether a ping was answered, from what `ping` wrote to its standard
/// output (decoded leniently): the reply shows a `TTL=` field.
pub fn ping_answered(stdout: &[u8]) -> (r: bool)
    ensures
        r == shows_ttl(crate::scanner::utf8_lossy(stdout@)),
{
    let text = crate::scanner::decode_lossy(stdout);
    shows_ttl_text(text.as_str())
}

} // verus!

verus! {

// ---------------------------------------------------------------------------
// Laws
// ---------------------------------------------------------------------------

/// The probed addresses are the 254 distinct addresses `.1` to `.254` of
/// the `/24` of `ip`: never its network (`.0`) or broadcast (`.255`) address.
pub proof fn lemma_subnet_hosts(ip: Ipv4)
    ensures
        subnet_hosts_spec(ip).len() == 254,
        forall|i: int|
            0 <= i < 254 ==> {
                let h = #[trigger] subnet_hosts_spec(ip)[i];
                h.a == ip.a && h.b == ip.b && h.c == ip.c && 1 <= h.d <= 254
            },
        forall|i: int, j: int|
            0 <= i < j < 254 ==> #[trigger] subnet_hosts_spec(ip)[i] != #[trigger] subnet_hosts_spec(ip)[j],
{
}

/// A discovery lists the local host and exactly the live probed hosts,
/// ordered by address text; so every listed host is alive when the local
/// one is.
pub proof fn lemma_discovery(local: HostView, probed: Seq<HostView>)
    ensures
        sorted_by(discovery_spec(local, probed), by_ip()),
        discovery_spec(local, probed).to_multiset() == (seq![local] + alive_only(probed)).to_multiset(),
        local.is_alive ==> forall|i: int|
            0 <= i < discovery_spec(local, probed).len() ==> (#[trigger] discovery_spec(local, probed)[i]).is_alive,
{
    let s = seq![local] + alive_only(probed);
    lemma_by_ip_order();
    lemma_isort_sorted(s, by_ip());
    lemma_isort_multiset(s, by_ip());
    lemma_alive_only(probed);
    if local.is_alive {
        let d = discovery_spec(local, probed);
        assert forall|i: int| 0 <= i < d.len() implies (#[trigger] d[i]).is_alive by {
            d.to_multiset_ensures();
            s.to_multiset_ensures();
            assert(d.contains(d[i]));
            assert(d.to_multiset().count(d[i]) > 0);
            assert(s.to_multiset().count(d[i]) > 0);
            assert(s.contains(d[i]));
            let k = choose|k: int| 0 <= k < s.len() && s[k] == d[i];
            if k > 0 {
                assert(s[k] == alive_only(probed)[k - 1]);
            }
        }
    }
}

proof fn lemma_alive_only(s: Seq<HostView>)
    ensures
        forall|i: int| 0 <= i < alive_only(s).len() ==> (#[trigger] alive_only(s)[i]).is_alive,
    decreases s.len(),
{
    if s.len() > 0 {
        lemma_alive_only(s.drop_last());
        let p = alive_only(s.drop_last());
        assert forall|i: int| 0 <= i < alive_only(s).len() implies (#[trigger] alive_only(s)[i]).is_alive by {
            if s.last().is_alive && i < p.len() {
                assert(alive_only(s)[i] == p[i]);
            }
        }
    }
}

/// Enriching orders the hosts by address text and keeps every host: the
/// result holds exactly the enriched hosts and the hosts added from the
/// ARP table.
pub proof fn lemma_enrich(hs: Seq<HostView>, t: Seq<(Seq<char>, Seq<char>)>, local: Option<Ipv4>, oui: Seq<(Seq<char>, Seq<char>)>)
    ensures
        sorted_by(enrich_spec(hs, t, local, oui), by_ip()),
        enrich_spec(hs, t, local, oui).to_multiset() == (enriched_all(hs, t, oui) + arp_additions(
            t,
            hs,
            local,
            oui,
        )).to_multiset(),
        enrich_spec(hs, t, local, oui).len() == hs.len() + arp_additions(t, hs, local, oui).len(),
{
    let s = enriched_all(hs, t, oui) + arp_additions(t, hs, local, oui);
    lemma_by_ip_order();
    lemma_isort_sorted(s, by_ip());
    lemma_isort_multiset(s, by_ip());
    lemma_enriched_ips(hs, t, oui);
}

/// An ARP table lists each address once.
pub proof fn lemma_arp_unique(ls: Seq<Seq<char>>, windows: bool)
    ensures
        forall|i: int, j: int|
            0 <= i < j < arp_from_lines(ls, windows).len() ==> (#[trigger] arp_from_lines(ls, windows)[i]).0
                != (#[trigger] arp_from_lines(ls, windows)[j]).0,
    decreases ls.len(),
{
    if ls.len() > 0 {
        let t = arp_from_lines(ls.drop_last(), windows);
        lemma_arp_unique(ls.drop_last(), windows);
        let e = if windows {
            windows_arp_entry(ls.last())
        } else {
            linux_arp_entry(ls.last())
        };
        match e {
            Some((ip, mac)) => {
                lemma_key_pos_bounds(t, ip);
                let r = arp_insert(t, ip, mac);
                let p = key_pos(t, ip);
                assert forall|i: int, j: int| 0 <= i < j < r.len() implies (#[trigger] r[i]).0 != (
                #[trigger] r[j]).0 by {
                    if p < 0 && j == r.len() - 1 {
                        assert(r[i] == t[i]);
                    }
                }
            },
            None => {},
        }
    }
}

} // verus!

verus! {

proof fn lemma_split_on_nonempty(s: Seq<char>, c: char)
    ensures
        split_on(s, c).len() >= 1,
    decreases s.len(),
{
    if s.len() > 0 {
        lemma_split_on_nonempty(s.drop_last(), c);
    }
}

proof fn lemma_split_on_none(s: Seq<char>, c: char)
    requires
        !has_char(s, c),
    ensures
        split_on(s, c) == seq![s],
    decreases s.len(),
{
    if s.len() > 0 {
        let d = s.drop_last();
        assert(!has_char(d, c)) by {
            if has_char(d, c) {
                let i = choose|i: int| 0 <= i < d.len() && d[i] == c;
                assert(s[i] == c);
            }
        }
        lemma_split_on_none(d, c);
        assert(s[s.len() - 1] != c);
        assert(d.push(s.last()) =~= s);
        assert(seq![d].update(0, d.push(s.last())) =~= seq![s]);
    } else {
        assert(s =~= Seq::<char>::empty());
    }
}

proof fn lemma_split_on_concat(s: Seq<char>, t: Seq<char>, c: char)
    ensures
        split_on(s + seq![c] + t, c) == split_on(s, c) + split_on(t, c),
    decreases t.len(),
{
    lemma_split_on_nonempty(s, c);
    if t.len() == 0 {
        assert((s + seq![c] + t).drop_last() =~= s);
        assert(split_on(s, c).push(Seq::empty()) =~= split_on(s, c) + seq![Seq::<char>::empty()]);
    } else {
        let u = t.drop_last();
        let x = t.last();
        lemma_split_on_concat(s, u, c);
        lemma_split_on_nonempty(u, c);
        assert((s + seq![c] + t).drop_last() =~= s + seq![c] + u);
        assert((s + seq![c] + t).last() == x);
        let a = split_on(s, c);
        let b = split_on(u, c);
        if x == c {
            assert((a + b).push(Seq::empty()) =~= a + b.push(Seq::empty()));
        } else {
            let ab = a + b;
            assert(ab.update(ab.len() - 1, ab.last().push(x)) =~= a + b.update(
                b.len() - 1,
                b.last().push(x),
            ));
        }
    }
}

proof fn lemma_dec_digits(n: nat)
    ensures
        forall|i: int| 0 <= i < dec(n).len() ==> is_digit(#[trigger] dec(n)[i]),
        digits_value(dec(n)) == n,
        n > 0 ==> dec(n)[0] != '0',
        n < 10 ==> dec(n).len() == 1,
        n < 100 ==> dec(n).len() <= 2,
        n < 1000 ==> dec(n).len() <= 3,
        dec(n).len() >= 1,
    decreases n,
{
    if n < 10 {
        lemma_digit_char(n);
        assert(dec(n) == seq![digit_char_of(n)]);
        assert(seq![digit_char_of(n)].drop_last() =~= Seq::<char>::empty());
        assert(seq![digit_char_of(n)].last() == digit_char_of(n));
        let q = seq![digit_char_of(n)];
        assert(digits_value(q.drop_last()) == 0);
        assert(digits_value(q) == digits_value(q.drop_last()) * 10 + ((q.last() as int - '0' as int) as nat));
    } else {
        lemma_digit_char(n % 10);
        lemma_dec_digits(n / 10);
        let p = dec(n / 10);
        let s = dec(n);
        assert(s == p.push(digit_char_of(n % 10)));
        assert(s.drop_last() =~= p);
        assert forall|i: int| 0 <= i < s.len() implies is_digit(#[trigger] s[i]) by {
            if i < p.len() {
                assert(s[i] == p[i]);
            }
        }
        assert(s[0] == p[0]);
        assert(s.last() == digit_char_of(n % 10));
        assert(digits_value(s) == digits_value(p) * 10 + (n % 10));
        assert(n == (n / 10) * 10 + n % 10);
    }
}

/// `crate::text::digit_char`, with the arithmetic facts this module needs.
proof fn lemma_digit_char(d: nat)
    requires
        d < 10,
    ensures
        is_digit(digit_char_of(d)),
        (digit_char_of(d) as int) - ('0' as int) == d,
        d > 0 ==> digit_char_of(d) != '0',
{
}

spec fn digit_char_of(d: nat) -> char {
    crate::text::digit_char(d)
}

/// Printing an address and reading the text back gives the address again.
pub proof fn lemma_ipv4_roundtrip(ip: Ipv4)
    ensures
        parse_ipv4_spec(ipv4_text(ip)) == Some(ip),
{
    let (a, b, c, d) = (dec(ip.a as nat), dec(ip.b as nat), dec(ip.c as nat), dec(ip.d as nat));
    lemma_dec_digits(ip.a as nat);
    lemma_dec_digits(ip.b as nat);
    lemma_dec_digits(ip.c as nat);
    lemma_dec_digits(ip.d as nat);
    assert forall|x: Seq<char>| (x == a || x == b || x == c || x == d) implies !has_char(x, '.') by {
        if has_char(x, '.') {
            let i = choose|i: int| 0 <= i < x.len() && x[i] == '.';
            assert(is_digit(x[i]));
        }
    }
    lemma_split_on_none(a, '.');
    lemma_split_on_none(b, '.');
    lemma_split_on_none(c, '.');
    lemma_split_on_none(d, '.');
    let t = ipv4_text(ip);
    lemma_split_on_concat(c, d, '.');
    lemma_split_on_concat(b, c + seq!['.'] + d, '.');
    lemma_split_on_concat(a, b + seq!['.'] + c + seq!['.'] + d, '.');
    assert(t =~= a + seq!['.'] + (b + seq!['.'] + (c + seq!['.'] + d)));
    assert(b + seq!['.'] + (c + seq!['.'] + d) =~= b + seq!['.'] + c + seq!['.'] + d);
    let p = split_on(t, '.');
    assert(p =~= seq![a, b, c, d]);
}

} // verus!

verus! {

proof fn lemma_additions_only_hosts(t: Seq<(Seq<char>, Seq<char>)>, hs: Seq<HostView>, local: Option<Ipv4>, oui: Seq<(Seq<char>, Seq<char>)>)
    ensures
        forall|k: int|
            0 <= k < arp_additions(t, hs, local, oui).len() ==> arp_only_host(
                (#[trigger] arp_additions(t, hs, local, oui)[k]).ip,
                hs,
                local,
            ),
    decreases t.len(),
{
    if t.len() > 0 {
        lemma_additions_only_hosts(t.drop_last(), hs, local, oui);
        let p = arp_additions(t.drop_last(), hs, local, oui);
        let a = arp_additions(t, hs, local, oui);
        assert forall|k: int| 0 <= k < a.len() implies arp_only_host((#[trigger] a[k]).ip, hs, local) by {
            if k < p.len() {
                assert(a[k] == p[k]);
            }
        }
    }
}

/// Enrichment adds from the ARP table only hosts of the local network: when
/// the local address is known, every host of the result that was not among
/// the given hosts and whose address is IPv4 shares its first three octets
/// with the local address, and is none of the multicast, unspecified,
/// network or broadcast addresses.
pub proof fn lemma_enrich_local_subnet(hs: Seq<HostView>, t: Seq<(Seq<char>, Seq<char>)>, l: Ipv4, oui: Seq<(Seq<char>, Seq<char>)>)
    ensures
        forall|k: int|
            0 <= k < enrich_spec(hs, t, Some(l), oui).len() && !has_ip(
                hs,
                (#[trigger] enrich_spec(hs, t, Some(l), oui)[k]).ip,
            ) ==> {
                let ip = enrich_spec(hs, t, Some(l), oui)[k].ip;
                &&& parse_ipv4_spec(ip) matches Some(o) ==> o.a == l.a && o.b == l.b && o.c == l.c
                &&& !starts_with(ip, "224."@) && !starts_with(ip, "239."@)
                &&& ip != "0.0.0.0"@ && !ends_with(ip, ".0"@) && !ends_with(ip, ".255"@)
            },
{
    let e = enriched_all(hs, t, oui);
    let a = arp_additions(t, hs, Some(l), oui);
    let s = e + a;
    let r = enrich_spec(hs, t, Some(l), oui);
    lemma_enriched_ips(hs, t, oui);
    lemma_additions_only_hosts(t, hs, Some(l), oui);
    lemma_isort_multiset(s, by_ip());
    assert forall|k: int| 0 <= k < r.len() && !has_ip(hs, (#[trigger] r[k]).ip) implies {
        let ip = r[k].ip;
        &&& parse_ipv4_spec(ip) matches Some(o) ==> o.a == l.a && o.b == l.b && o.c == l.c
        &&& !starts_with(ip, "224."@) && !starts_with(ip, "239."@)
        &&& ip != "0.0.0.0"@ && !ends_with(ip, ".0"@) && !ends_with(ip, ".255"@)
    } by {
        r.to_multiset_ensures();
        s.to_multiset_ensures();
        assert(r.contains(r[k]));
        assert(r.to_multiset().count(r[k]) > 0);
        assert(s.to_multiset().count(r[k]) > 0);
        let m = choose|m: int| 0 <= m < s.len() && s[m] == r[k];
        if m < e.len() {
            assert(s[m] == e[m]);
            assert(e[m].ip == hs[m].ip);
            assert(has_ip(hs, r[k].ip));
        } else {
            assert(s[m] == a[m - e.len()]);
            assert(arp_only_host(a[m - e.len()].ip, hs, Some(l)));
        }
    }
}

} // verus!
