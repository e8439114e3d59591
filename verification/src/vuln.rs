//! Offline vulnerability matching: which known vulnerabilities a scanned port
//! exposes, and the de-duplicated, severity-ordered findings of a host.
use vstd::prelude::*;

use crate::json::{json_cve_sources, json_port_list, json_string_list, parse_cve_sources, parse_port_list, parse_string_list};
use crate::scanner::{clone_opt_string, open_results, opt_view, PortResult};
use crate::sorting::{
    insert_at, insert_by, isort_by, lemma_isort_multiset, lemma_isort_sorted, sorted_by, strict_weak_order,
};
use crate::text::{
    chars_eq, chars_le, chars_of, contains, contains_chars, lemma_seq_le_antisym,
    lemma_seq_le_refl, lemma_seq_le_total, lemma_seq_le_trans, seq_le, seq_lt, split_chars,
    split_on, str_eq, upper_text, string_from_chars, to_owned_string, to_uppercase,
};

verus! {

/// A known vulnerability and how to recognise it on a port.
#[derive(Debug)]
pub struct VulnEntry {
    pub cve: String,
    /// `critica`, `alta`, `media` or `baja`.
    pub severity: String,
    pub service: String,
    pub affected: String,
    pub description: String,
    /// Texts whose upper-case form, found in the upper-case banner, flags the port.
    pub match_banner_contains: Vec<String>,
    /// Ports on which the vulnerability applies.
    pub match_ports: Vec<u16>,
    pub recommendation: String,
}

/// A vulnerability found on one port of a host.
#[derive(Debug)]
pub struct Finding {
    pub cve: String,
    pub severity: String,
    pub port: u16,
    pub service: String,
    pub banner: Option<String>,
    pub description: String,
    pub recommendation: String,
}

/// A copy of a list of strings.
pub fn clone_strings(v: &Vec<String>) -> (r: Vec<String>)
    ensures
        r@ == v@,
{
    let mut r: Vec<String> = Vec::new();
    let mut i: usize = 0;
    while i < v.len()
        invariant
            i <= v.len(),
            r@ == v@.take(i as int),
        decreases v.len() - i,
    {
        r.push(v[i].clone());
        assert(v@.take(i as int).push(v@[i as int]) =~= v@.take(i + 1));
        i += 1;
    }
    assert(v@.take(v.len() as int) =~= v@);
    r
}

/// Two entries hold the same data.
pub open spec fn same_entry(a: VulnEntry, b: VulnEntry) -> bool {
    &&& a.cve == b.cve
    &&& a.severity == b.severity
    &&& a.service == b.service
    &&& a.affected == b.affected
    &&& a.description == b.description
    &&& a.match_banner_contains@ == b.match_banner_contains@
    &&& a.match_ports@ == b.match_ports@
    &&& a.recommendation == b.recommendation
}

impl Clone for VulnEntry {
    fn clone(&self) -> (r: Self)
        ensures
            same_entry(r, *self),
    {
        let mut ports: Vec<u16> = Vec::new();
        let mut i: usize = 0;
        while i < self.match_ports.len()
            invariant
                i <= self.match_ports.len(),
                ports@ == self.match_ports@.take(i as int),
            decreases self.match_ports.len() - i,
        {
            ports.push(self.match_ports[i]);
            assert(self.match_ports@.take(i as int).push(self.match_ports@[i as int])
                =~= self.match_ports@.take(i + 1));
            i += 1;
        }
        assert(self.match_ports@.take(self.match_ports.len() as int) =~= self.match_ports@);
        let r = VulnEntry {
            cve: self.cve.clone(),
            severity: self.severity.clone(),
            service: self.service.clone(),
            affected: self.affected.clone(),
            description: self.description.clone(),
            match_banner_contains: clone_strings(&self.match_banner_contains),
            match_ports: ports,
            recommendation: self.recommendation.clone(),
        };
        assert(r.match_ports@ == self.match_ports@);
        assert(r.match_banner_contains@ == self.match_banner_contains@);
        r
    }
}

impl Clone for Finding {
    fn clone(&self) -> (r: Self)
        ensures
            r == *self,
    {
        Finding {
            cve: self.cve.clone(),
            severity: self.severity.clone(),
            port: self.port,
            service: self.service.clone(),
            banner: clone_opt_string(&self.banner),
            description: self.description.clone(),
            recommendation: self.recommendation.clone(),
        }
    }
}

// ---------------------------------------------------------------------------
// Matching one port
// ---------------------------------------------------------------------------

/// The port's banner in upper case (empty without a banner).
pub open spec fn upper_banner(p: PortResult) -> Seq<char> {
    match p.banner {
        Some(b) => upper_text(b@),
        None => Seq::empty(),
    }
}

/// The port's service name (empty without one).
pub open spec fn hint_text(p: PortResult) -> Seq<char> {
    match p.service_hint {
        Some(s) => s@,
        None => Seq::empty(),
    }
}

/// The entry lists ports and the port is among them.
pub open spec fn port_matches(e: VulnEntry, p: PortResult) -> bool {
    e.match_ports@.len() > 0 && e.match_ports@.contains(p.port)
}

/// The entry lists banner texts and one of them, in upper case, occurs in
/// the upper-case banner.
pub open spec fn banner_matches(e: VulnEntry, p: PortResult) -> bool {
    &&& e.match_banner_contains@.len() > 0
    &&& exists|i: int|
        0 <= i < e.match_banner_contains@.len() && contains(
            upper_banner(p),
            upper_text(#[trigger] e.match_banner_contains@[i]@),
        )
}

/// Whether the entry applies to the port: with ports and banner texts both
/// must match; with ports only, the port must match and the service must be
/// the port's service (SMB on 445 and RDP on 3389 count as such); with
/// banner texts only, the banner must match; an entry with neither never
/// applies.
pub open spec fn flags(e: VulnEntry, p: PortResult) -> bool {
    if e.match_ports@.len() > 0 && e.match_banner_contains@.len() > 0 {
        port_matches(e, p) && banner_matches(e, p)
    } else if e.match_ports@.len() > 0 {
        port_matches(e, p) && (e.service@ == hint_text(p) || (e.service@ == "SMB"@ && p.port
            == 445) || (e.service@ == "RDP"@ && p.port == 3389))
    } else if e.match_banner_contains@.len() > 0 {
        banner_matches(e, p)
    } else {
        false
    }
}

/// The finding that an applicable entry gives for the port.
pub open spec fn finding_of(e: VulnEntry, p: PortResult) -> Finding {
    Finding {
        cve: e.cve,
        severity: e.severity,
        port: p.port,
        service: e.service,
        banner: p.banner,
        description: e.description,
        recommendation: e.recommendation,
    }
}

/// The findings of the port, one per applicable entry, in database order.
pub open spec fn findings_for(p: PortResult, db: Seq<VulnEntry>) -> Seq<Finding>
    decreases db.len(),
{
    if db.len() == 0 {
        Seq::empty()
    } else {
        let f = findings_for(p, db.drop_last());
        if flags(db.last(), p) {
            f.push(finding_of(db.last(), p))
        } else {
            f
        }
    }
}

fn port_listed(ports: &Vec<u16>, port: u16) -> (r: bool)
    ensures
        r == ports@.contains(port),
{
    let mut i: usize = 0;
    while i < ports.len()
        invariant
            i <= ports.len(),
            forall|k: int| 0 <= k < i ==> ports@[k] != port,
        decreases ports.len() - i,
    {
        if ports[i] == port {
            assert(ports@[i as int] == port);
            return true;
        }
        i += 1;
    }
    false
}

fn banner_listed(needles: &Vec<String>, upper: &Vec<char>) -> (r: bool)
    ensures
        r == exists|i: int|
            0 <= i < needles@.len() && contains(
                upper@,
                upper_text(#[trigger] needles@[i]@),
            ),
{
    let mut i: usize = 0;
    while i < needles.len()
        invariant
            i <= needles.len(),
            forall|k: int|
                0 <= k < i ==> !contains(upper@, upper_text(#[trigger] needles@[k]@)),
        decreases needles.len() - i,
    {
        let n = to_uppercase(needles[i].as_str());
        let nv = chars_of(n.as_str());
        if contains_chars(upper, &nv) {
            return true;
        }
        i += 1;
    }
    false
}

fn entry_applies(e: &VulnEntry, p: &PortResult, upper: &Vec<char>, hint: &Vec<char>) -> (r: bool)
    requires
        upper@ == upper_banner(*p),
        hint@ == hint_text(*p),
    ensures
        r == flags(*e, *p),
{
    let has_ports = e.match_ports.len() > 0;
    let has_banners = e.match_banner_contains.len() > 0;
    if has_ports && has_banners {
        port_listed(&e.match_ports, p.port) && banner_listed(&e.match_banner_contains, upper)
    } else if has_ports {
        if !port_listed(&e.match_ports, p.port) {
            return false;
        }
        let svc = chars_of(e.service.as_str());
        chars_eq(&svc, hint) || (str_eq(e.service.as_str(), "SMB") && p.port == 445) || (str_eq(
            e.service.as_str(),
            "RDP",
        ) && p.port == 3389)
    } else if has_banners {
        banner_listed(&e.match_banner_contains, upper)
    } else {
        false
    }
}

/// The vulnerabilities of the database that apply to the port, in database
/// order.
pub fn check_port(port: &PortResult, db: &[VulnEntry]) -> (r: Vec<Finding>)
    ensures
        r@ == findings_for(*port, db@),
{
    let upper: Vec<char> = match &port.banner {
        Some(b) => {
            let u = to_uppercase(b.as_str());
            chars_of(u.as_str())
        },
        None => Vec::new(),
    };
    let hint: Vec<char> = match &port.service_hint {
        Some(s) => chars_of(s.as_str()),
        None => Vec::new(),
    };
    let mut findings: Vec<Finding> = Vec::new();
    let mut i: usize = 0;
    while i < db.len()
        invariant
            i <= db@.len(),
            upper@ == upper_banner(*port),
            hint@ == hint_text(*port),
            findings@ == findings_for(*port, db@.take(i as int)),
        decreases db@.len() - i,
    {
        let e = &db[i];
        assert(db@.take(i + 1).drop_last() =~= db@.take(i as int));
        assert(db@.take(i + 1).last() == *e);
        if entry_applies(e, port, &upper, &hint) {
            findings.push(
                Finding {
                    cve: e.cve.clone(),
                    severity: e.severity.clone(),
                    port: port.port,
                    service: e.service.clone(),
                    banner: clone_opt_string(&port.banner),
                    description: e.description.clone(),
                    recommendation: e.recommendation.clone(),
                },
            );
        }
        i += 1;
    }
    assert(db@.take(db@.len() as int) =~= db@);
    findings
}

// ---------------------------------------------------------------------------
// Severity
// ---------------------------------------------------------------------------

/// The rank of a severity: `critica` 4, `alta` 3, `media` 2, `baja` 1,
/// anything else 0.
pub open spec fn rank_of(s: Seq<char>) -> u8 {
    if s == "critica"@ {
        4
    } else if s == "alta"@ {
        3
    } else if s == "media"@ {
        2
    } else if s == "baja"@ {
        1
    } else {
        0
    }
}

/// The rank of a severity name.
pub fn severity_rank(s: &str) -> (r: u8)
    ensures
        r == rank_of(s@),
{
    if str_eq(s, "critica") {
        4
    } else if str_eq(s, "alta") {
        3
    } else if str_eq(s, "media") {
        2
    } else if str_eq(s, "baja") {
        1
    } else {
        0
    }
}

/// Findings ordered by decreasing severity, then by CVE identifier.
pub open spec fn by_severity() -> spec_fn(Finding, Finding) -> bool {
    |a: Finding, b: Finding|
        rank_of(a.severity@) > rank_of(b.severity@) || (rank_of(a.severity@) == rank_of(
            b.severity@,
        ) && seq_lt(a.cve@, b.cve@))
}

/// Ordering by severity, then identifier, is a strict weak order.
pub proof fn lemma_by_severity_order()
    ensures
        strict_weak_order(by_severity()),
{
    let before = by_severity();
    assert forall|a: Finding, b: Finding| #[trigger] before(a, b) implies !before(b, a) by {
        if rank_of(a.severity@) == rank_of(b.severity@) && seq_lt(a.cve@, b.cve@) && seq_lt(
            b.cve@,
            a.cve@,
        ) {
            lemma_seq_le_antisym(a.cve@, b.cve@);
        }
    }
    assert forall|a: Finding, b: Finding, c: Finding|
        #![trigger before(a, b), before(b, c)]
        !before(a, b) && !before(b, c) implies !before(a, c) by {
        let (x, y, z) = (a.cve@, b.cve@, c.cve@);
        lemma_seq_le_total(x, y);
        lemma_seq_le_total(y, z);
        if rank_of(a.severity@) == rank_of(c.severity@) && seq_lt(x, z) {
            // then the ranks of a, b and c are equal, and y <= x, z <= y
            lemma_seq_le_refl(x);
            if x != y {
                assert(seq_le(y, x));
            }
            if y != z {
                assert(seq_le(z, y));
            }
            lemma_seq_le_refl(y);
            lemma_seq_le_trans(z, y, x);
            lemma_seq_le_antisym(x, z);
        }
    }
}

/// Whether finding `a` comes strictly before finding `b`.
fn finding_before(a: &Finding, b: &Finding) -> (r: bool)
    ensures
        r == (by_severity())(*a, *b),
{
    let ra = severity_rank(a.severity.as_str());
    let rb = severity_rank(b.severity.as_str());
    if ra != rb {
        return ra > rb;
    }
    let ca = chars_of(a.cve.as_str());
    let cb = chars_of(b.cve.as_str());
    chars_le(&ca, &cb) && !chars_eq(&ca, &cb)
}

// ---------------------------------------------------------------------------
// Findings of a host
// ---------------------------------------------------------------------------

/// The findings of every open port, port after port.
pub open spec fn all_findings(ports: Seq<PortResult>, db: Seq<VulnEntry>) -> Seq<Finding>
    decreases ports.len(),
{
    if ports.len() == 0 {
        Seq::empty()
    } else {
        let prev = all_findings(ports.drop_last(), db);
        if ports.last().state@ == "open"@ {
            prev + findings_for(ports.last(), db)
        } else {
            prev
        }
    }
}

/// Two findings concern the same CVE on the same port.
pub open spec fn same_key(a: Finding, b: Finding) -> bool {
    a.cve@ == b.cve@ && a.port == b.port
}

/// Some finding of `s` has the key of `f`.
pub open spec fn key_in(s: Seq<Finding>, f: Finding) -> bool {
    exists|i: int| 0 <= i < s.len() && same_key(#[trigger] s[i], f)
}

/// The first finding of each key, in order.
pub open spec fn dedup_first(s: Seq<Finding>) -> Seq<Finding>
    decreases s.len(),
{
    if s.len() == 0 {
        Seq::empty()
    } else if key_in(s.drop_last(), s.last()) {
        dedup_first(s.drop_last())
    } else {
        dedup_first(s.drop_last()).push(s.last())
    }
}

/// What a host's report lists: the findings of its open ports, one per
/// (CVE, port), ordered by decreasing severity and then CVE identifier.
pub open spec fn host_findings(ports: Seq<PortResult>, db: Seq<VulnEntry>) -> Seq<Finding> {
    isort_by(dedup_first(all_findings(ports, db)), by_severity())
}

/// Only open ports give findings: the findings of a list of ports are
/// those of its open ports alone.
proof fn lemma_all_findings_open(ports: Seq<PortResult>, db: Seq<VulnEntry>)
    ensures
        all_findings(ports, db) == all_findings(open_results(ports), db),
    decreases ports.len(),
{
    if ports.len() > 0 {
        lemma_all_findings_open(ports.drop_last(), db);
        let o = open_results(ports.drop_last());
        if ports.last().state@ == "open"@ {
            let o2 = o.push(ports.last());
            assert(o2.drop_last() =~= o);
            assert(o2.last() == ports.last());
        }
    }
}

/// Open ports alone give findings.
proof fn lemma_open_results_none(ports: Seq<PortResult>)
    requires
        forall|i: int| 0 <= i < ports.len() ==> (#[trigger] ports[i]).state@ != "open"@,
    ensures
        open_results(ports) =~= Seq::<PortResult>::empty(),
    decreases ports.len(),
{
    if ports.len() > 0 {
        assert(ports[ports.len() - 1].state@ != "open"@);
        assert forall|i: int| 0 <= i < ports.drop_last().len() implies (
        #[trigger] ports.drop_last()[i]).state@ != "open"@ by {
            assert(ports.drop_last()[i] == ports[i]);
        }
        lemma_open_results_none(ports.drop_last());
    }
}

/// A host's findings ignore the ports that are not open: they are those of
/// its open ports alone, and a host with no open port has none.
pub proof fn lemma_host_findings_open_only(ports: Seq<PortResult>, db: Seq<VulnEntry>)
    ensures
        host_findings(ports, db) == host_findings(open_results(ports), db),
        (forall|i: int| 0 <= i < ports.len() ==> (#[trigger] ports[i]).state@ != "open"@)
            ==> host_findings(ports, db).len() == 0,
{
    lemma_all_findings_open(ports, db);
    if forall|i: int| 0 <= i < ports.len() ==> (#[trigger] ports[i]).state@ != "open"@ {
        lemma_open_results_none(ports);
        let e = Seq::<PortResult>::empty();
        assert(all_findings(e, db) =~= Seq::<Finding>::empty());
        assert(dedup_first(Seq::<Finding>::empty()) =~= Seq::<Finding>::empty());
        lemma_isort_multiset(Seq::<Finding>::empty(), by_severity());
    }
}

/// A key occurs among the kept findings exactly when it occurs at all.
pub proof fn lemma_dedup_keys(s: Seq<Finding>, f: Finding)
    ensures
        key_in(dedup_first(s), f) == key_in(s, f),
    decreases s.len(),
{
    if s.len() > 0 {
        let t = s.drop_last();
        lemma_dedup_keys(t, f);
        lemma_dedup_keys(t, s.last());
        if key_in(t, f) {
            let i = choose|i: int| 0 <= i < t.len() && same_key(#[trigger] t[i], f);
            assert(s[i] == t[i]);
        }
        if key_in(dedup_first(t), f) {
            let d = dedup_first(t);
            let i = choose|i: int| 0 <= i < d.len() && same_key(#[trigger] d[i], f);
            if !key_in(t, s.last()) {
                assert(d.push(s.last())[i] == d[i]);
            }
        }
        if same_key(s.last(), f) {
            assert(same_key(s[s.len() - 1], f));
            if !key_in(t, s.last()) {
                let d = dedup_first(t);
                assert(d.push(s.last())[d.len() as int] == s.last());
            } else {
                let i = choose|i: int| 0 <= i < t.len() && same_key(#[trigger] t[i], s.last());
                assert(same_key(t[i], f));
            }
        }
        if key_in(s, f) && !key_in(t, f) {
            let i = choose|i: int| 0 <= i < s.len() && same_key(#[trigger] s[i], f);
            if i < t.len() {
                assert(t[i] == s[i]);
            }
        }
        if key_in(dedup_first(s), f) && !key_in(dedup_first(t), f) {
            let d = dedup_first(t);
            if !key_in(t, s.last()) {
                let i = choose|i: int| 0 <= i < d.push(s.last()).len() && same_key(
                    #[trigger] d.push(s.last())[i],
                    f,
                );
                if i < d.len() {
                    assert(d.push(s.last())[i] == d[i]);
                }
            }
        }
    }
}

fn key_present(out: &Vec<Finding>, f: &Finding) -> (r: bool)
    ensures
        r == key_in(out@, *f),
{
    let fc = chars_of(f.cve.as_str());
    let mut i: usize = 0;
    while i < out.len()
        invariant
            i <= out.len(),
            fc@ == f.cve@,
            forall|k: int| 0 <= k < i ==> !same_key(#[trigger] out@[k], *f),
        decreases out.len() - i,
    {
        if out[i].port == f.port {
            let oc = chars_of(out[i].cve.as_str());
            if chars_eq(&oc, &fc) {
                assert(same_key(out@[i as int], *f));
                return true;
            }
        }
        i += 1;
    }
    false
}

/// The findings of a host: every open port is matched against the database,
/// each (CVE, port) is kept once (its first finding), and the findings are
/// ordered by decreasing severity, then CVE identifier.
pub fn check_host(open_ports: &[PortResult], db: &[VulnEntry]) -> (r: Vec<Finding>)
    ensures
        r@ == host_findings(open_ports@, db@),
{
    // Every finding of the open ports, port after port.
    let mut all: Vec<Finding> = Vec::new();
    let mut i: usize = 0;
    while i < open_ports.len()
        invariant
            i <= open_ports@.len(),
            all@ == all_findings(open_ports@.take(i as int), db@),
        decreases open_ports@.len() - i,
    {
        let p = &open_ports[i];
        assert(open_ports@.take(i + 1).drop_last() =~= open_ports@.take(i as int));
        assert(open_ports@.take(i + 1).last() == *p);
        if p.is_open() {
            let mut fs = check_port(p, db);
            let ghost before = all@;
            all.append(&mut fs);
            assert(all@ =~= before + findings_for(*p, db@));
        }
        i += 1;
    }
    assert(open_ports@.take(open_ports@.len() as int) =~= open_ports@);

    // The first finding of each (CVE, port).
    let ghost every = all@;
    let mut kept: Vec<Finding> = Vec::new();
    let mut rest = all;
    let mut n: usize = 0;
    let total = rest.len();
    while rest.len() > 0
        invariant
            total == every.len(),
            n + rest@.len() == every.len(),
            rest@ == every.skip(n as int),
            kept@ == dedup_first(every.take(n as int)),
        decreases rest@.len(),
    {
        let f = rest.remove(0);
        let ghost prefix = every.take(n as int);
        assert(every.take(n + 1).drop_last() =~= prefix);
        assert(every.take(n + 1).last() == f);
        proof {
            lemma_dedup_keys(prefix, f);
        }
        if !key_present(&kept, &f) {
            kept.push(f);
        }
        n += 1;
        assert(rest@ =~= every.skip(n as int));
    }
    assert(every.take(n as int) =~= every);

    // Stable ordering by severity, then CVE.
    let ghost deduped = kept@;
    let mut sorted: Vec<Finding> = Vec::new();
    let mut m: usize = 0;
    let count = kept.len();
    while kept.len() > 0
        invariant
            count == deduped.len(),
            m + kept@.len() == deduped.len(),
            kept@ == deduped.skip(m as int),
            sorted@ == isort_by(deduped.take(m as int), by_severity()),
        decreases kept@.len(),
    {
        let x = kept.remove(0);
        assert(deduped.take(m + 1).drop_last() =~= deduped.take(m as int));
        assert(deduped.take(m + 1).last() == x);
        let mut j: usize = sorted.len();
        while j > 0 && finding_before(&x, &sorted[j - 1])
            invariant
                j <= sorted@.len(),
                forall|k: int|
                    j <= k < sorted@.len() ==> (by_severity())(x, #[trigger] sorted@[k]),
            decreases j,
        {
            j -= 1;
        }
        insert_at(&mut sorted, x, j, Ghost(by_severity()));
        m += 1;
        assert(kept@ =~= deduped.skip(m as int));
    }
    assert(deduped.take(m as int) =~= deduped);
    sorted
}

} // verus!

verus! {

// ---------------------------------------------------------------------------
// Laws of a host's findings
// ---------------------------------------------------------------------------

/// No two findings of `s` concern the same CVE on the same port.
pub open spec fn keys_unique(s: Seq<Finding>) -> bool {
    forall|i: int, j: int| 0 <= i < j < s.len() ==> !same_key(#[trigger] s[i], #[trigger] s[j])
}

proof fn lemma_insert_keys(t: Seq<Finding>, x: Finding, f: Finding)
    ensures
        key_in(insert_by(t, x, by_severity()), f) == (key_in(t, f) || same_key(x, f)),
    decreases t.len(),
{
    let before = by_severity();
    if t.len() == 0 {
        if same_key(x, f) {
            assert(seq![x][0] == x);
        }
    } else if before(x, t.last()) {
        let u = insert_by(t.drop_last(), x, before);
        lemma_insert_keys(t.drop_last(), x, f);
        let r = u.push(t.last());
        if key_in(r, f) {
            let i = choose|i: int| 0 <= i < r.len() && same_key(#[trigger] r[i], f);
            if i < u.len() {
                assert(r[i] == u[i]);
                assert(key_in(u, f));
                if key_in(t.drop_last(), f) {
                    let k = choose|k: int| 0 <= k < t.drop_last().len() && same_key(
                        #[trigger] t.drop_last()[k],
                        f,
                    );
                    assert(t[k] == t.drop_last()[k]);
                }
            } else {
                assert(same_key(t[t.len() - 1], f));
            }
        }
        if key_in(t, f) {
            let k = choose|k: int| 0 <= k < t.len() && same_key(#[trigger] t[k], f);
            if k < t.len() - 1 {
                assert(t.drop_last()[k] == t[k]);
                assert(key_in(u, f));
                let i = choose|i: int| 0 <= i < u.len() && same_key(#[trigger] u[i], f);
                assert(r[i] == u[i]);
            } else {
                assert(r[u.len() as int] == t.last());
            }
        }
        if same_key(x, f) {
            assert(key_in(u, f));
            let i = choose|i: int| 0 <= i < u.len() && same_key(#[trigger] u[i], f);
            assert(r[i] == u[i]);
        }
    } else {
        let r = t.push(x);
        if key_in(r, f) {
            let i = choose|i: int| 0 <= i < r.len() && same_key(#[trigger] r[i], f);
            if i < t.len() {
                assert(r[i] == t[i]);
            }
        }
        if key_in(t, f) {
            let k = choose|k: int| 0 <= k < t.len() && same_key(#[trigger] t[k], f);
            assert(r[k] == t[k]);
        }
        if same_key(x, f) {
            assert(r[t.len() as int] == x);
        }
    }
}

proof fn lemma_insert_unique(t: Seq<Finding>, x: Finding)
    requires
        keys_unique(t),
        !key_in(t, x),
    ensures
        keys_unique(insert_by(t, x, by_severity())),
    decreases t.len(),
{
    let before = by_severity();
    if t.len() > 0 && before(x, t.last()) {
        let s = t.drop_last();
        assert(keys_unique(s)) by {
            assert forall|i: int, j: int| 0 <= i < j < s.len() implies !same_key(
                #[trigger] s[i],
                #[trigger] s[j],
            ) by {
                assert(s[i] == t[i] && s[j] == t[j]);
            }
        }
        assert(!key_in(s, x)) by {
            if key_in(s, x) {
                let k = choose|k: int| 0 <= k < s.len() && same_key(#[trigger] s[k], x);
                assert(t[k] == s[k]);
            }
        }
        lemma_insert_unique(s, x);
        let u = insert_by(s, x, before);
        let r = u.push(t.last());
        assert forall|i: int, j: int| 0 <= i < j < r.len() implies !same_key(
            #[trigger] r[i],
            #[trigger] r[j],
        ) by {
            if j == r.len() - 1 {
                lemma_insert_keys(s, x, t.last());
                assert(r[i] == u[i]);
                if same_key(u[i], t.last()) {
                    assert(key_in(u, t.last()));
                    if key_in(s, t.last()) {
                        let k = choose|k: int| 0 <= k < s.len() && same_key(
                            #[trigger] s[k],
                            t.last(),
                        );
                        assert(s[k] == t[k]);
                        assert(!same_key(t[k], t[t.len() - 1]));
                    } else {
                        assert(same_key(x, t.last()));
                        assert(same_key(t[t.len() - 1], x));
                    }
                }
            } else {
                assert(r[i] == u[i] && r[j] == u[j]);
            }
        }
    } else if t.len() > 0 {
        let r = t.push(x);
        assert forall|i: int, j: int| 0 <= i < j < r.len() implies !same_key(
            #[trigger] r[i],
            #[trigger] r[j],
        ) by {
            if j == r.len() - 1 {
                assert(r[i] == t[i]);
                if same_key(t[i], x) {
                    assert(key_in(t, x));
                }
            } else {
                assert(r[i] == t[i] && r[j] == t[j]);
            }
        }
    }
}

proof fn lemma_isort_keys(s: Seq<Finding>, f: Finding)
    ensures
        key_in(isort_by(s, by_severity()), f) == key_in(s, f),
    decreases s.len(),
{
    if s.len() > 0 {
        let t = s.drop_last();
        lemma_isort_keys(t, f);
        lemma_insert_keys(isort_by(t, by_severity()), s.last(), f);
        if key_in(s, f) {
            let k = choose|k: int| 0 <= k < s.len() && same_key(#[trigger] s[k], f);
            if k < t.len() {
                assert(t[k] == s[k]);
            }
        }
        if key_in(t, f) {
            let k = choose|k: int| 0 <= k < t.len() && same_key(#[trigger] t[k], f);
            assert(s[k] == t[k]);
        }
        if same_key(s.last(), f) {
            assert(same_key(s[s.len() - 1], f));
        }
    }
}

proof fn lemma_isort_unique(s: Seq<Finding>)
    requires
        keys_unique(s),
    ensures
        keys_unique(isort_by(s, by_severity())),
    decreases s.len(),
{
    if s.len() > 0 {
        let t = s.drop_last();
        assert(keys_unique(t)) by {
            assert forall|i: int, j: int| 0 <= i < j < t.len() implies !same_key(
                #[trigger] t[i],
                #[trigger] t[j],
            ) by {
                assert(s[i] == t[i] && s[j] == t[j]);
            }
        }
        lemma_isort_unique(t);
        lemma_isort_keys(t, s.last());
        if key_in(t, s.last()) {
            let k = choose|k: int| 0 <= k < t.len() && same_key(#[trigger] t[k], s.last());
            assert(s[k] == t[k]);
            assert(!same_key(s[k], s[s.len() - 1]));
        }
        lemma_insert_unique(isort_by(t, by_severity()), s.last());
    }
}

proof fn lemma_dedup_unique(s: Seq<Finding>)
    ensures
        keys_unique(dedup_first(s)),
    decreases s.len(),
{
    if s.len() > 0 {
        let t = s.drop_last();
        lemma_dedup_unique(t);
        if !key_in(t, s.last()) {
            let d = dedup_first(t);
            lemma_dedup_keys(t, s.last());
            let r = d.push(s.last());
            assert forall|i: int, j: int| 0 <= i < j < r.len() implies !same_key(
                #[trigger] r[i],
                #[trigger] r[j],
            ) by {
                if j == r.len() - 1 {
                    assert(r[i] == d[i]);
                    if same_key(d[i], s.last()) {
                        assert(key_in(d, s.last()));
                    }
                } else {
                    assert(r[i] == d[i] && r[j] == d[j]);
                }
            }
        }
    }
}

proof fn lemma_findings_for_has(p: PortResult, db: Seq<VulnEntry>, k: int)
    requires
        0 <= k < db.len(),
        flags(db[k], p),
    ensures
        findings_for(p, db).contains(finding_of(db[k], p)),
    decreases db.len(),
{
    let t = db.drop_last();
    if k < db.len() - 1 {
        assert(t[k] == db[k]);
        lemma_findings_for_has(p, t, k);
        let f = findings_for(p, t);
        let i = choose|i: int| 0 <= i < f.len() && f[i] == finding_of(db[k], p);
        if flags(db.last(), p) {
            assert(f.push(finding_of(db.last(), p))[i] == f[i]);
        }
    } else {
        let f = findings_for(p, t);
        assert(f.push(finding_of(db.last(), p))[f.len() as int] == finding_of(db[k], p));
    }
}

proof fn lemma_all_findings_has(ports: Seq<PortResult>, db: Seq<VulnEntry>, i: int, k: int)
    requires
        0 <= i < ports.len(),
        0 <= k < db.len(),
        ports[i].state@ == "open"@,
        flags(db[k], ports[i]),
    ensures
        all_findings(ports, db).contains(finding_of(db[k], ports[i])),
    decreases ports.len(),
{
    let t = ports.drop_last();
    let prev = all_findings(t, db);
    let x = finding_of(db[k], ports[i]);
    if i < ports.len() - 1 {
        assert(t[i] == ports[i]);
        lemma_all_findings_has(t, db, i, k);
        let j = choose|j: int| 0 <= j < prev.len() && prev[j] == x;
        if ports.last().state@ == "open"@ {
            assert((prev + findings_for(ports.last(), db))[j] == prev[j]);
        }
    } else {
        lemma_findings_for_has(ports[i], db, k);
        let f = findings_for(ports.last(), db);
        let j = choose|j: int| 0 <= j < f.len() && f[j] == x;
        assert((prev + f)[prev.len() + j] == f[j]);
    }
}

/// Every finding of `s` comes from an open port of `ports` and an entry of
/// `db` that applies to it.
pub open spec fn all_justified(s: Seq<Finding>, ports: Seq<PortResult>, db: Seq<VulnEntry>) -> bool {
    forall|m: int|
        0 <= m < s.len() ==> exists|i: int, k: int|
            0 <= i < ports.len() && 0 <= k < db.len() && ports[i].state@ == "open"@ && flags(
                db[k],
                ports[i],
            ) && #[trigger] s[m] == finding_of(db[k], ports[i])
}

proof fn lemma_findings_for_justified(p: PortResult, db: Seq<VulnEntry>, m: int)
    requires
        0 <= m < findings_for(p, db).len(),
    ensures
        exists|k: int|
            0 <= k < db.len() && flags(db[k], p) && findings_for(p, db)[m] == finding_of(db[k], p),
    decreases db.len(),
{
    let t = db.drop_last();
    let f = findings_for(p, t);
    if m < f.len() {
        lemma_findings_for_justified(p, t, m);
        let k = choose|k: int| 0 <= k < t.len() && flags(t[k], p) && f[m] == finding_of(t[k], p);
        assert(db[k] == t[k]);
        if flags(db.last(), p) {
            assert(f.push(finding_of(db.last(), p))[m] == f[m]);
        }
    } else {
        assert(db[db.len() - 1] == db.last());
    }
}

proof fn lemma_all_findings_justified(ports: Seq<PortResult>, db: Seq<VulnEntry>)
    ensures
        all_justified(all_findings(ports, db), ports, db),
    decreases ports.len(),
{
    if ports.len() > 0 {
        let t = ports.drop_last();
        lemma_all_findings_justified(t, db);
        let prev = all_findings(t, db);
        let s = all_findings(ports, db);
        assert forall|m: int| 0 <= m < s.len() implies exists|i: int, k: int|
            0 <= i < ports.len() && 0 <= k < db.len() && ports[i].state@ == "open"@ && flags(
                db[k],
                ports[i],
            ) && #[trigger] s[m] == finding_of(db[k], ports[i]) by {
            if m < prev.len() {
                if ports.last().state@ == "open"@ {
                    assert(s[m] == prev[m]);
                }
                let (i, k) = choose|i: int, k: int|
                    0 <= i < t.len() && 0 <= k < db.len() && t[i].state@ == "open"@ && flags(
                        db[k],
                        t[i],
                    ) && #[trigger] prev[m] == finding_of(db[k], t[i]);
                assert(ports[i] == t[i]);
            } else {
                let f = findings_for(ports.last(), db);
                assert(s[m] == f[m - prev.len()]);
                lemma_findings_for_justified(ports.last(), db, m - prev.len());
                let k = choose|k: int|
                    0 <= k < db.len() && flags(db[k], ports.last()) && f[m - prev.len()]
                        == finding_of(db[k], ports.last());
                assert(ports[ports.len() - 1] == ports.last());
            }
        }
    }
}

proof fn lemma_dedup_subset(s: Seq<Finding>, x: Finding)
    requires
        dedup_first(s).contains(x),
    ensures
        s.contains(x),
    decreases s.len(),
{
    let t = s.drop_last();
    let d = dedup_first(t);
    if d.contains(x) {
        lemma_dedup_subset(t, x);
        let k = choose|k: int| 0 <= k < t.len() && t[k] == x;
        assert(s[k] == t[k]);
    } else {
        let r = d.push(s.last());
        let k = choose|k: int| 0 <= k < dedup_first(s).len() && dedup_first(s)[k] == x;
        if !key_in(t, s.last()) {
            if k < d.len() {
                assert(r[k] == d[k]);
            }
        }
        assert(s[s.len() - 1] == x);
    }
}

/// What a host's findings promise: they are ordered by decreasing severity
/// and then CVE identifier; no (CVE, port) is reported twice; each comes
/// from an open port and a database entry that applies to it; and every
/// entry that applies to an open port is reported for that port.
pub proof fn lemma_host_findings(ports: Seq<PortResult>, db: Seq<VulnEntry>)
    ensures
        sorted_by(host_findings(ports, db), by_severity()),
        keys_unique(host_findings(ports, db)),
        all_justified(host_findings(ports, db), ports, db),
        forall|i: int, k: int|
            0 <= i < ports.len() && 0 <= k < db.len() && ports[i].state@ == "open"@ && flags(
                db[k],
                ports[i],
            ) ==> key_in(host_findings(ports, db), #[trigger] finding_of(db[k], ports[i])),
{
    let all = all_findings(ports, db);
    let d = dedup_first(all);
    let h = host_findings(ports, db);
    lemma_by_severity_order();
    lemma_isort_sorted(d, by_severity());
    lemma_dedup_unique(d);
    lemma_dedup_unique(all);
    lemma_isort_unique(d);
    lemma_isort_multiset(d, by_severity());
    lemma_all_findings_justified(ports, db);
    assert forall|m: int| 0 <= m < h.len() implies exists|i: int, k: int|
        0 <= i < ports.len() && 0 <= k < db.len() && ports[i].state@ == "open"@ && flags(
            db[k],
            ports[i],
        ) && #[trigger] h[m] == finding_of(db[k], ports[i]) by {
        h.to_multiset_ensures();
        d.to_multiset_ensures();
        assert(h.contains(h[m]));
        assert(h.to_multiset().count(h[m]) > 0);
        assert(d.to_multiset().count(h[m]) > 0);
        assert(d.contains(h[m]));
        lemma_dedup_subset(all, h[m]);
        let j = choose|j: int| 0 <= j < all.len() && all[j] == h[m];
        assert(all[j] == h[m]);
    }
    assert forall|i: int, k: int|
        0 <= i < ports.len() && 0 <= k < db.len() && ports[i].state@ == "open"@ && flags(
            db[k],
            ports[i],
        ) implies key_in(h, #[trigger] finding_of(db[k], ports[i])) by {
        let x = finding_of(db[k], ports[i]);
        lemma_all_findings_has(ports, db, i, k);
        let j = choose|j: int| 0 <= j < all.len() && all[j] == x;
        assert(same_key(all[j], x));
        assert(key_in(all, x));
        lemma_dedup_keys(all, x);
        lemma_isort_keys(d, x);
    }
}

} // verus!

verus! {

// ---------------------------------------------------------------------------
// Loading the database
// ---------------------------------------------------------------------------

/// A list decoded from JSON, or the empty list when the text is not one.
pub open spec fn list_or_empty<T>(o: Option<Seq<T>>) -> Seq<T> {
    match o {
        Some(s) => s,
        None => Seq::empty(),
    }
}

impl VulnEntry {
    /// The entry stored in one database row; the banner texts and the ports
    /// are JSON lists, and either one that does not decode is empty.
    pub fn from_row(
        cve: String,
        severity: String,
        service: String,
        affected: String,
        description: String,
        banners_json: &str,
        ports_json: &str,
        recommendation: String,
    ) -> (e: VulnEntry)
        ensures
            e.cve == cve,
            e.severity == severity,
            e.service == service,
            e.affected == affected,
            e.description == description,
            e.match_banner_contains.deep_view() == list_or_empty(json_string_list(banners_json@)),
            e.match_ports@ == list_or_empty(json_port_list(ports_json@)),
            e.recommendation == recommendation,
    {
        let banners = match parse_string_list(banners_json) {
            Some(v) => v,
            None => Vec::new(),
        };
        let ports = match parse_port_list(ports_json) {
            Some(v) => v,
            None => Vec::new(),
        };
        proof {
            if json_string_list(banners_json@) is None {
                assert(banners.deep_view() =~= Seq::<Seq<char>>::empty());
            }
        }
        VulnEntry {
            cve,
            severity,
            service,
            affected,
            description,
            match_banner_contains: banners,
            match_ports: ports,
            recommendation,
        }
    }
}

/// The header that every SQLite database file begins with.
pub open spec fn sqlite_magic() -> Seq<u8> {
    seq![83u8, 81, 76, 105, 116, 101]
}

/// Whether the bytes can be an SQLite database worth opening: at least 100
/// bytes, beginning with `SQLite`.
pub fn looks_like_sqlite(bytes: &[u8]) -> (r: bool)
    ensures
        r == (bytes@.len() >= 100 && bytes@.take(6) == sqlite_magic()),
{
    if bytes.len() < 100 {
        return false;
    }
    let r = bytes[0] == 83 && bytes[1] == 81 && bytes[2] == 76 && bytes[3] == 105 && bytes[4]
        == 116 && bytes[5] == 101;
    if r {
        assert(bytes@.take(6) =~= sqlite_magic());
    } else {
        assert(bytes@.take(6) != sqlite_magic()) by {
            if bytes@.take(6) == sqlite_magic() {
                assert(bytes@.take(6)[0] == bytes@[0]);
                assert(bytes@.take(6)[1] == bytes@[1]);
                assert(bytes@.take(6)[2] == bytes@[2]);
                assert(bytes@.take(6)[3] == bytes@[3]);
                assert(bytes@.take(6)[4] == bytes@[4]);
                assert(bytes@.take(6)[5] == bytes@[5]);
            }
        }
    }
    r
}

/// The text a query filters on: the upper-case text between its first two
/// single quotes (empty when it has none).
pub open spec fn quoted_term(sql: Seq<char>) -> Seq<char> {
    let pieces = split_on(sql, '\'');
    upper_text(if pieces.len() > 1 { pieces[1] } else { Seq::empty() })
}

/// An entry is kept for `term` when its upper-case service or its CVE
/// identifier holds the term.
pub open spec fn entry_has_term(e: VulnEntry, term: Seq<char>) -> bool {
    contains(upper_text(e.service@), term) || contains(e.cve@, term)
}

/// The entries kept for `term`, in order.
pub open spec fn entries_with_term(db: Seq<VulnEntry>, term: Seq<char>) -> Seq<VulnEntry>
    decreases db.len(),
{
    if db.len() == 0 {
        Seq::empty()
    } else if entry_has_term(db.last(), term) {
        entries_with_term(db.drop_last(), term).push(db.last())
    } else {
        entries_with_term(db.drop_last(), term)
    }
}

/// What an ad-hoc query gives when it cannot run on SQLite: with a `WHERE`
/// (in any case), the entries whose service or CVE holds the quoted term;
/// otherwise the whole database.
pub open spec fn query_fallback_spec(sql: Seq<char>, db: Seq<VulnEntry>) -> Seq<VulnEntry> {
    if contains(upper_text(sql), "WHERE"@) {
        entries_with_term(db, quoted_term(sql))
    } else {
        db
    }
}

/// Answers an ad-hoc query without SQLite, from the loaded database.
pub fn query_fallback(sql: &str, db: Vec<VulnEntry>) -> (r: Vec<VulnEntry>)
    ensures
        r@ == query_fallback_spec(sql@, db@),
{
    let upper_sql = to_uppercase(sql);
    let us = chars_of(upper_sql.as_str());
    let where_word = chars_of("WHERE");
    if !contains_chars(&us, &where_word) {
        return db;
    }
    let sv = chars_of(sql);
    let pieces = split_chars(&sv, '\'');
    let ghost pv = pieces@.map_values(|p: Vec<char>| p@);
    let quoted: Vec<char> = if pieces.len() > 1 {
        assert(pv[1] == pieces@[1]@);
        let mut q: Vec<char> = Vec::new();
        let p = &pieces[1];
        let mut k: usize = 0;
        while k < p.len()
            invariant
                k <= p.len(),
                q@ == p@.take(k as int),
            decreases p.len() - k,
        {
            q.push(p[k]);
            assert(p@.take(k as int).push(p@[k as int]) =~= p@.take(k + 1));
            k += 1;
        }
        assert(q@ =~= p@);
        q
    } else {
        Vec::new()
    };
    let qs = string_from_chars(&quoted);
    let term_s = to_uppercase(qs.as_str());
    let term = chars_of(term_s.as_str());
    assert(term@ == quoted_term(sql@));
    let ghost all = db@;
    let mut rest = db;
    let mut out: Vec<VulnEntry> = Vec::new();
    let mut n: usize = 0;
    let total = rest.len();
    while rest.len() > 0
        invariant
            total == all.len(),
            n + rest@.len() == all.len(),
            rest@ == all.skip(n as int),
            out@ == entries_with_term(all.take(n as int), term@),
        decreases rest@.len(),
    {
        let e = rest.remove(0);
        assert(all.take(n + 1).drop_last() =~= all.take(n as int));
        assert(all.take(n + 1).last() == e);
        let svc_upper = to_uppercase(e.service.as_str());
        let su = chars_of(svc_upper.as_str());
        let cv = chars_of(e.cve.as_str());
        if contains_chars(&su, &term) || contains_chars(&cv, &term) {
            out.push(e);
        }
        n += 1;
        assert(rest@ =~= all.skip(n as int));
    }
    assert(all.take(n as int) =~= all);
    out
}

} // verus!

verus! {

// ---------------------------------------------------------------------------
// Building the database from its JSON source
// ---------------------------------------------------------------------------

/// One entry of the JSON source of the database, as the build reads it: the
/// text fields are `Some` only when the key holds a string; the two lists
/// are the compact JSON text of the key's value, when the key is present.
pub struct CveSource {
    pub cve: Option<String>,
    pub severity: Option<String>,
    pub service: Option<String>,
    pub affected: Option<String>,
    pub description: Option<String>,
    pub recommendation: Option<String>,
    pub banner_json: Option<String>,
    pub ports_json: Option<String>,
}

/// A source entry by its plain values.
pub struct CveSourceView {
    pub cve: Option<Seq<char>>,
    pub severity: Option<Seq<char>>,
    pub service: Option<Seq<char>>,
    pub affected: Option<Seq<char>>,
    pub description: Option<Seq<char>>,
    pub recommendation: Option<Seq<char>>,
    pub banner_json: Option<Seq<char>>,
    pub ports_json: Option<Seq<char>>,
}

impl View for CveSource {
    type V = CveSourceView;

    open spec fn view(&self) -> CveSourceView {
        CveSourceView {
            cve: opt_view(self.cve),
            severity: opt_view(self.severity),
            service: opt_view(self.service),
            affected: opt_view(self.affected),
            description: opt_view(self.description),
            recommendation: opt_view(self.recommendation),
            banner_json: opt_view(self.banner_json),
            ports_json: opt_view(self.ports_json),
        }
    }
}

/// One row of the `vulnerabilities` table: the eight columns, in order.
pub struct CveRow {
    pub cve: String,
    pub severity: String,
    pub service: String,
    pub affected: String,
    pub description: String,
    pub match_banner_contains: String,
    pub match_ports: String,
    pub recommendation: String,
}

/// A row by its plain values.
pub struct CveRowView {
    pub cve: Seq<char>,
    pub severity: Seq<char>,
    pub service: Seq<char>,
    pub affected: Seq<char>,
    pub description: Seq<char>,
    pub match_banner_contains: Seq<char>,
    pub match_ports: Seq<char>,
    pub recommendation: Seq<char>,
}

impl View for CveRow {
    type V = CveRowView;

    open spec fn view(&self) -> CveRowView {
        CveRowView {
            cve: self.cve@,
            severity: self.severity@,
            service: self.service@,
            affected: self.affected@,
            description: self.description@,
            match_banner_contains: self.match_banner_contains@,
            match_ports: self.match_ports@,
            recommendation: self.recommendation@,
        }
    }
}

/// A text, or `d` when absent.
pub open spec fn field_or(o: Option<Seq<char>>, d: Seq<char>) -> Seq<char> {
    match o {
        Some(s) => s,
        None => d,
    }
}

/// The row of a source entry: a missing or non-text field is `""`, a
/// missing list is `[]`.
pub open spec fn cve_row_spec(e: CveSourceView) -> CveRowView {
    CveRowView {
        cve: field_or(e.cve, Seq::empty()),
        severity: field_or(e.severity, Seq::empty()),
        service: field_or(e.service, Seq::empty()),
        affected: field_or(e.affected, Seq::empty()),
        description: field_or(e.description, Seq::empty()),
        match_banner_contains: field_or(e.banner_json, "[]"@),
        match_ports: field_or(e.ports_json, "[]"@),
        recommendation: field_or(e.recommendation, Seq::empty()),
    }
}

fn field_or_exec(o: &Option<String>, d: &str) -> (r: String)
    ensures
        r@ == field_or(opt_view(*o), d@),
{
    match o {
        Some(s) => s.clone(),
        None => to_owned_string(d),
    }
}

/// The row of a source entry.
pub fn cve_row(e: &CveSource) -> (r: CveRow)
    ensures
        r@ == cve_row_spec(e@),
{
    proof {
        reveal_strlit("");
        assert(""@ =~= Seq::<char>::empty());
    }
    CveRow {
        cve: field_or_exec(&e.cve, ""),
        severity: field_or_exec(&e.severity, ""),
        service: field_or_exec(&e.service, ""),
        affected: field_or_exec(&e.affected, ""),
        description: field_or_exec(&e.description, ""),
        match_banner_contains: field_or_exec(&e.banner_json, "[]"),
        match_ports: field_or_exec(&e.ports_json, "[]"),
        recommendation: field_or_exec(&e.recommendation, ""),
    }
}

/// The rows of the source entries, one per entry, in order.
pub fn cve_rows(es: &Vec<CveSource>) -> (r: Vec<CveRow>)
    ensures
        r.len() == es.len(),
        forall|i: int| 0 <= i < es.len() ==> (#[trigger] r@[i])@ == cve_row_spec(es@[i]@),
{
    let mut r: Vec<CveRow> = Vec::new();
    let mut i: usize = 0;
    while i < es.len()
        invariant
            i <= es.len(),
            r.len() == i,
            forall|k: int| 0 <= k < i ==> (#[trigger] r@[k])@ == cve_row_spec(es@[k]@),
        decreases es.len() - i,
    {
        r.push(cve_row(&es[i]));
        i += 1;
    }
    r
}

/// The identifier of row `i` is that of an earlier row (the table's primary
/// key refuses it).
pub open spec fn repeated_at(rows: Seq<CveRow>, i: int) -> bool {
    exists|j: int| 0 <= j < i && (#[trigger] rows[j]).cve@ == rows[i].cve@
}

/// The first row whose identifier an earlier row already has, if any.
pub fn first_repeated_cve(rows: &Vec<CveRow>) -> (r: Option<usize>)
    ensures
        match r {
            Some(i) => i < rows.len() && repeated_at(rows@, i as int) && forall|k: int|
                0 <= k < i ==> !repeated_at(rows@, k),
            None => forall|k: int| 0 <= k < rows.len() ==> !repeated_at(rows@, k),
        },
{
    let mut i: usize = 0;
    while i < rows.len()
        invariant
            i <= rows.len(),
            forall|k: int| 0 <= k < i ==> !repeated_at(rows@, k),
        decreases rows.len() - i,
    {
        let ci = chars_of(rows[i].cve.as_str());
        let mut j: usize = 0;
        while j < i
            invariant
                j <= i < rows.len(),
                ci@ == rows@[i as int].cve@,
                forall|k: int| 0 <= k < i ==> !repeated_at(rows@, k),
                forall|m: int| 0 <= m < j ==> rows@[m].cve@ != rows@[i as int].cve@,
            decreases i - j,
        {
            let cj = chars_of(rows[j].cve.as_str());
            if chars_eq(&cj, &ci) {
                assert(rows@[j as int].cve@ == rows@[i as int].cve@);
                return Some(i);
            }
            j += 1;
        }
        i += 1;
    }
    None
}

/// The rows that the database is built from, read from the text of its
/// JSON source: `None` when the text is not a JSON array; else one row per
/// entry, in order.
pub fn cve_rows_from_json(text: &str) -> (r: Option<Vec<CveRow>>)
    ensures
        match r {
            Some(rows) => json_cve_sources(text@) matches Some(es) && rows.len() == es.len()
                && forall|i: int| 0 <= i < es.len() ==> (#[trigger] rows@[i])@ == cve_row_spec(es[i]),
            None => json_cve_sources(text@) is None,
        },
{
    match parse_cve_sources(text) {
        Some(es) => {
            let rows = cve_rows(&es);
            assert forall|i: int| 0 <= i < es.len() implies (#[trigger] rows@[i])@ == cve_row_spec(
                es@.map_values(|e: CveSource| e@)[i],
            ) by {
                assert(es@.map_values(|e: CveSource| e@)[i] == es@[i]@);
            }
            Some(rows)
        },
        None => None,
    }
}

} // verus!
