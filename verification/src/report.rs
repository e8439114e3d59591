//! The audit report: escaping, the HTML of hosts, interfaces, disks and
//! sensors, the chart data, and the page around them.
use vstd::prelude::*;

use crate::hardware::NetInterface;
use crate::network::{host_views, HostInfo, HostView};
use crate::scanner::{opt_view, PortResult};
use crate::sorting::{isort_by, lemma_isort_multiset, lemma_isort_sorted, sorted_by, strict_weak_order};
use crate::text::{
    chars_eq, chars_of, dec, decimal_string, fill, fill_template, has_char, join, join_chars,
    replace_all, replace_str, str_eq, str_to_lowercase, string_from_chars, to_lowercase,
    to_owned_string,
};
use crate::vuln::Finding;

verus! {

// ---------------------------------------------------------------------------
// Escaping
// ---------------------------------------------------------------------------

/// `s` with `&`, `<`, `>` and `"` written as HTML entities (in that order).
pub open spec fn escape(s: Seq<char>) -> Seq<char> {
    replace_all(
        replace_all(replace_all(replace_all(s, "&"@, "&amp;"@), "<"@, "&lt;"@), ">"@, "&gt;"@),
        "\""@,
        "&quot;"@,
    )
}

/// Text for HTML: `&`, `<`, `>` and `"` become entities.
pub fn html_escape(s: &str) -> (r: String)
    ensures
        r@ == escape(s@),
{
    proof {
        reveal_strlit("&");
        reveal_strlit("<");
        reveal_strlit(">");
        reveal_strlit("\"");
    }
    let a = replace_str(s, "&", "&amp;");
    let b = replace_str(a.as_str(), "<", "&lt;");
    let c = replace_str(b.as_str(), ">", "&gt;");
    replace_str(c.as_str(), "\"", "&quot;")
}

/// Replacing by a text without `c` leaves no `c` where `s` had none, and
/// replacing `c` itself removes every `c`.
proof fn lemma_replace_no_char(s: Seq<char>, pat: Seq<char>, rep: Seq<char>, c: char)
    requires
        pat.len() > 0,
        !has_char(rep, c),
        !has_char(s, c) || pat == seq![c],
    ensures
        !has_char(replace_all(s, pat, rep), c),
    decreases s.len(),
{
    if s.len() > 0 {
        let r = replace_all(s, pat, rep);
        if crate::text::starts_with(s, pat) {
            let t = s.skip(pat.len() as int);
            if !has_char(s, c) {
                assert(!has_char(t, c)) by {
                    if has_char(t, c) {
                        let i = choose|i: int| 0 <= i < t.len() && t[i] == c;
                        assert(s[i + pat.len()] == c);
                    }
                }
            }
            lemma_replace_no_char(t, pat, rep, c);
            let rt = replace_all(t, pat, rep);
            assert(r == rep + rt);
            if has_char(r, c) {
                let i = choose|i: int| 0 <= i < r.len() && r[i] == c;
                if i < rep.len() {
                    assert(rep[i] == c);
                } else {
                    assert(rt[i - rep.len()] == c);
                }
            }
        } else {
            let t = s.skip(1);
            if !has_char(s, c) {
                assert(!has_char(t, c)) by {
                    if has_char(t, c) {
                        let i = choose|i: int| 0 <= i < t.len() && t[i] == c;
                        assert(s[i + 1] == c);
                    }
                }
            }
            if pat == seq![c] && s[0] == c {
                assert(s.take(1) =~= pat);
            }
            lemma_replace_no_char(t, pat, rep, c);
            let rt = replace_all(t, pat, rep);
            assert(r == seq![s[0]] + rt);
            if has_char(r, c) {
                let i = choose|i: int| 0 <= i < r.len() && r[i] == c;
                if i > 0 {
                    assert(rt[i - 1] == c);
                }
            }
        }
    }
}

/// Escaped text holds no `<`, `>` or `"`, so it cannot open or close a tag
/// or an attribute value.
pub proof fn lemma_escape_safe(s: Seq<char>)
    ensures
        !has_char(escape(s), '<'),
        !has_char(escape(s), '>'),
        !has_char(escape(s), '"'),
{
    reveal_strlit("&");
    reveal_strlit("<");
    reveal_strlit(">");
    reveal_strlit("\"");
    reveal_strlit("&amp;");
    reveal_strlit("&lt;");
    reveal_strlit("&gt;");
    reveal_strlit("&quot;");
    let s1 = replace_all(s, "&"@, "&amp;"@);
    let s2 = replace_all(s1, "<"@, "&lt;"@);
    let s3 = replace_all(s2, ">"@, "&gt;"@);
    assert("<"@ =~= seq!['<']);
    assert(">"@ =~= seq!['>']);
    assert("\""@ =~= seq!['"']);
    assert(!has_char("&lt;"@, '<'));
    assert(!has_char("&gt;"@, '<'));
    assert(!has_char("&gt;"@, '>'));
    assert(!has_char("&quot;"@, '<'));
    assert(!has_char("&quot;"@, '>'));
    assert(!has_char("&quot;"@, '"'));
    lemma_replace_no_char(s1, "<"@, "&lt;"@, '<');
    lemma_replace_no_char(s2, ">"@, "&gt;"@, '<');
    lemma_replace_no_char(s3, "\""@, "&quot;"@, '<');
    lemma_replace_no_char(s2, ">"@, "&gt;"@, '>');
    lemma_replace_no_char(s3, "\""@, "&quot;"@, '>');
    lemma_replace_no_char(s3, "\""@, "&quot;"@, '"');
}

/// The text that [`escape`] undoes: the entities `&lt;`, `&gt;` and
/// `&quot;` read back as `<`, `>` and `"`, and then `&amp;` as `&`.
pub open spec fn unescape(t: Seq<char>) -> Seq<char> {
    replace_all(
        replace_all(replace_all(replace_all(t, "&lt;"@, "<"@), "&gt;"@, ">"@), "&quot;"@, "\""@),
        "&amp;"@,
        "&"@,
    )
}

/// `s` with each character `c` written as `f(c)`.
pub open spec fn expand(s: Seq<char>, f: spec_fn(char) -> Seq<char>) -> Seq<char>
    decreases s.len(),
{
    if s.len() == 0 {
        Seq::empty()
    } else {
        f(s[0]) + expand(s.skip(1), f)
    }
}

/// No occurrence of `pat` starts inside `a`, not even one that would run
/// past its end: each character of `a` equal to the first of `pat` is
/// followed, inside `a`, by one that differs from the second.
pub open spec fn no_match_starts(a: Seq<char>, pat: Seq<char>) -> bool {
    forall|i: int|
        0 <= i < a.len() && #[trigger] a[i] == pat[0] ==> i + 1 < a.len() && 1 < pat.len() && a[i + 1]
            != pat[1]
}

proof fn lemma_expand_id(s: Seq<char>)
    ensures
        expand(s, |c: char| seq![c]) == s,
    decreases s.len(),
{
    if s.len() > 0 {
        lemma_expand_id(s.skip(1));
        assert(seq![s[0]] + s.skip(1) =~= s);
    }
}

/// Replacing in `a + b` replaces in `b` alone when no match starts in `a`.
proof fn lemma_replace_after(a: Seq<char>, b: Seq<char>, pat: Seq<char>, rep: Seq<char>)
    requires
        pat.len() > 0,
        no_match_starts(a, pat),
    ensures
        replace_all(a + b, pat, rep) == a + replace_all(b, pat, rep),
    decreases a.len(),
{
    if a.len() == 0 {
        assert(a + b =~= b);
    } else {
        let t = a + b;
        assert(t[0] == a[0]);
        assert(!crate::text::starts_with(t, pat)) by {
            if crate::text::starts_with(t, pat) {
                assert(t.take(pat.len() as int)[0] == pat[0]);
                if a[0] == pat[0] {
                    assert(t.take(pat.len() as int)[1] == pat[1]);
                    assert(t[1] == a[1]);
                }
            }
        }
        let a1 = a.skip(1);
        assert forall|i: int| 0 <= i < a1.len() && #[trigger] a1[i] == pat[0] implies i + 1 < a1.len()
            && 1 < pat.len() && a1[i + 1] != pat[1] by {
            assert(a1[i] == a[i + 1]);
            assert(a[i + 1] == pat[0]);
        }
        lemma_replace_after(a1, b, pat, rep);
        assert(t.skip(1) =~= a1 + b);
        assert(seq![a[0]] + (a1 + replace_all(b, pat, rep)) =~= a + replace_all(b, pat, rep));
    }
}

/// Replacing in `pat + b` gives `rep` and then the replacement in `b`.
proof fn lemma_replace_match(b: Seq<char>, pat: Seq<char>, rep: Seq<char>)
    requires
        pat.len() > 0,
    ensures
        replace_all(pat + b, pat, rep) == rep + replace_all(b, pat, rep),
{
    let t = pat + b;
    assert(t.take(pat.len() as int) =~= pat);
    assert(t.skip(pat.len() as int) =~= b);
}

/// Replacing `pat` in an expansion replaces, in each character's text,
/// the text that is `pat` and leaves the others, in which no match starts.
proof fn lemma_replace_expand(
    s: Seq<char>,
    f: spec_fn(char) -> Seq<char>,
    g: spec_fn(char) -> Seq<char>,
    pat: Seq<char>,
    rep: Seq<char>,
)
    requires
        pat.len() > 0,
        forall|c: char|
            (#[trigger] f(c) == pat && g(c) == rep) || (no_match_starts(f(c), pat) && g(c) == f(c)),
    ensures
        replace_all(expand(s, f), pat, rep) == expand(s, g),
    decreases s.len(),
{
    if s.len() > 0 {
        let c = s[0];
        let rest = expand(s.skip(1), f);
        lemma_replace_expand(s.skip(1), f, g, pat, rep);
        if f(c) == pat && g(c) == rep {
            lemma_replace_match(rest, pat, rep);
        } else {
            lemma_replace_after(f(c), rest, pat, rep);
        }
    }
}

/// Unescaping what [`escape`] gives returns the text: `&` is escaped first,
/// so `&lt;` in the text becomes `&amp;lt;` and never `<`.
pub proof fn lemma_unescape_escape(s: Seq<char>)
    ensures
        unescape(escape(s)) == s,
{
    reveal_strlit("&");
    reveal_strlit("<");
    reveal_strlit(">");
    reveal_strlit("\"");
    reveal_strlit("&amp;");
    reveal_strlit("&lt;");
    reveal_strlit("&gt;");
    reveal_strlit("&quot;");
    let amp = seq!['&', 'a', 'm', 'p', ';'];
    let lt = seq!['&', 'l', 't', ';'];
    let gt = seq!['&', 'g', 't', ';'];
    let quot = seq!['&', 'q', 'u', 'o', 't', ';'];
    assert("&"@ =~= seq!['&']);
    assert("<"@ =~= seq!['<']);
    assert(">"@ =~= seq!['>']);
    assert("\""@ =~= seq!['"']);
    assert("&amp;"@ =~= amp);
    assert("&lt;"@ =~= lt);
    assert("&gt;"@ =~= gt);
    assert("&quot;"@ =~= quot);
    let id = |c: char| seq![c];
    let e1 = |c: char| if c == '&' { amp } else { seq![c] };
    let e2 = |c: char| if c == '<' { lt } else { e1(c) };
    let e3 = |c: char| if c == '>' { gt } else { e2(c) };
    let e4 = |c: char| if c == '"' { quot } else { e3(c) };
    let u1 = |c: char| if c == '<' { seq![c] } else { e4(c) };
    let u2 = |c: char| if c == '>' { seq![c] } else { u1(c) };
    let u3 = |c: char| if c == '"' { seq![c] } else { u2(c) };
    lemma_expand_id(s);
    assert forall|c: char|
        (#[trigger] id(c) == seq!['&'] && e1(c) == amp) || (no_match_starts(id(c), seq!['&']) && e1(c)
            == id(c)) by {
        if c == '&' {
            assert(id(c) =~= seq!['&']);
        }
    }
    lemma_replace_expand(s, id, e1, seq!['&'], amp);
    assert forall|c: char|
        (#[trigger] e1(c) == seq!['<'] && e2(c) == lt) || (no_match_starts(e1(c), seq!['<']) && e2(c)
            == e1(c)) by {
        if c == '<' {
            assert(e1(c) =~= seq!['<']);
        }
    }
    lemma_replace_expand(s, e1, e2, seq!['<'], lt);
    assert forall|c: char|
        (#[trigger] e2(c) == seq!['>'] && e3(c) == gt) || (no_match_starts(e2(c), seq!['>']) && e3(c)
            == e2(c)) by {
        if c == '>' {
            assert(e2(c) =~= seq!['>']);
        }
    }
    lemma_replace_expand(s, e2, e3, seq!['>'], gt);
    assert forall|c: char|
        (#[trigger] e3(c) == seq!['"'] && e4(c) == quot) || (no_match_starts(e3(c), seq!['"']) && e4(c)
            == e3(c)) by {
        if c == '"' {
            assert(e3(c) =~= seq!['"']);
        }
    }
    lemma_replace_expand(s, e3, e4, seq!['"'], quot);
    assert(escape(s) == expand(s, e4));
    assert forall|c: char|
        (#[trigger] e4(c) == lt && u1(c) == seq!['<']) || (no_match_starts(e4(c), lt) && u1(c) == e4(c)) by {
        if c == '<' {
        } else if c == '&' {
            assert(e4(c)[0] == lt[0] && e4(c)[1] != lt[1]);
        }
    }
    lemma_replace_expand(s, e4, u1, lt, seq!['<']);
    assert forall|c: char|
        (#[trigger] u1(c) == gt && u2(c) == seq!['>']) || (no_match_starts(u1(c), gt) && u2(c) == u1(c)) by {
        if c == '>' {
        } else if c == '&' {
            assert(u1(c)[1] != gt[1]);
        }
    }
    lemma_replace_expand(s, u1, u2, gt, seq!['>']);
    assert forall|c: char|
        (#[trigger] u2(c) == quot && u3(c) == seq!['"']) || (no_match_starts(u2(c), quot) && u3(c)
            == u2(c)) by {
        if c == '"' {
        } else if c == '&' {
            assert(u2(c)[1] != quot[1]);
        }
    }
    lemma_replace_expand(s, u2, u3, quot, seq!['"']);
    assert forall|c: char|
        (#[trigger] u3(c) == amp && id(c) == seq!['&']) || (no_match_starts(u3(c), amp) && id(c) == u3(c)) by {
        if c == '&' {
        } else if c == '<' || c == '>' || c == '"' {
            assert(u3(c) =~= id(c));
        }
    }
    lemma_replace_expand(s, u3, id, amp, seq!['&']);
}

// ---------------------------------------------------------------------------
// Rows of the hosts table
// ---------------------------------------------------------------------------

/// An optional text, or `d` when absent.
pub open spec fn opt_or(o: Option<Seq<char>>, d: Seq<char>) -> Seq<char> {
    match o {
        Some(s) => s,
        None => d,
    }
}

/// The tag of an open port: number, service name, state and banner.
pub open spec fn port_tag_spec(p: PortResult) -> Seq<char> {
    let svc = match p.service_hint {
        Some(s) => fill(" ({})"@, seq![s@]),
        None => Seq::empty(),
    };
    let banner = match p.banner {
        Some(b) => fill("<br><small>{}</small>"@, seq![escape(b@)]),
        None => Seq::empty(),
    };
    fill("<span class='tag'>{}{} {}{}</span>"@, seq![dec(p.port as nat), svc, p.state@, banner])
}

/// The colour of a severity.
pub open spec fn severity_color(sev: Seq<char>) -> Seq<char> {
    if sev == "critica"@ {
        "#ef4444"@
    } else if sev == "alta"@ {
        "#f59e0b"@
    } else if sev == "media"@ {
        "#eab308"@
    } else {
        "#9aa4b2"@
    }
}

/// The tag of a finding: CVE, severity, port and description.
pub open spec fn vuln_tag_spec(f: Finding) -> Seq<char> {
    let color = severity_color(f.severity@);
    fill(
        "<span class='tag' style='border-color:{}'><b>{}</b> <span style='color:{}'>{}</span> :{}<br><small>{}</small></span>"@,
        seq![color, escape(f.cve@), color, escape(f.severity@), dec(f.port as nat), escape(f.description@)],
    )
}

/// The port tags, in order.
pub open spec fn port_tags(s: Seq<PortResult>) -> Seq<Seq<char>>
    decreases s.len(),
{
    if s.len() == 0 {
        Seq::empty()
    } else {
        port_tags(s.drop_last()).push(port_tag_spec(s.last()))
    }
}

/// The finding tags, in order.
pub open spec fn vuln_tags(s: Seq<Finding>) -> Seq<Seq<char>>
    decreases s.len(),
{
    if s.len() == 0 {
        Seq::empty()
    } else {
        vuln_tags(s.drop_last()).push(vuln_tag_spec(s.last()))
    }
}

/// The severities of the findings, in order.
pub open spec fn severities(s: Seq<Finding>) -> Seq<Seq<char>>
    decreases s.len(),
{
    if s.len() == 0 {
        Seq::empty()
    } else {
        severities(s.drop_last()).push(s.last().severity@)
    }
}

/// The escaped names, in order.
pub open spec fn escaped_all(s: Seq<Seq<char>>) -> Seq<Seq<char>>
    decreases s.len(),
{
    if s.len() == 0 {
        Seq::empty()
    } else {
        escaped_all(s.drop_last()).push(escape(s.last()))
    }
}

/// The row of a host in the hosts table, with the data attributes that the
/// page's filters read.
pub open spec fn host_row_spec(h: HostView) -> Seq<char> {
    let ports = if h.open_ports.len() == 0 {
        "<span class='muted'>ninguno (o filtrado)</span>"@
    } else {
        join(port_tags(h.open_ports), " "@)
    };
    let vulns = if h.vulnerabilities.len() == 0 {
        "<span class='muted'>—</span>"@
    } else {
        join(vuln_tags(h.vulnerabilities), " "@)
    };
    let vendor = opt_or(h.vendor, "—"@);
    let mac = opt_or(h.mac, "—"@);
    let latency = match h.latency_ms {
        Some(v) => fill("{} ms"@, seq![dec(v as nat)]),
        None => "—"@,
    };
    let mdns = if h.mdns_names.len() == 0 {
        "—"@
    } else {
        join(escaped_all(h.mdns_names), "<br>"@)
    };
    let ssdp = match h.ssdp_location {
        Some(s) => escape(s),
        None => "—"@,
    };
    fill(
        "<tr data-ip='{}' data-hostname='{}' data-vendor='{}' data-sev='{}'><td>{}</td><td>{}</td><td>{}</td><td>{}</td><td>{}</td><td>{}</td><td>{}</td><td>{}</td><td>{}</td></tr>"@,
        seq![
            escape(str_to_lowercase(h.ip)),
            escape(str_to_lowercase(opt_or(h.hostname, Seq::empty()))),
            escape(str_to_lowercase(vendor)),
            join(severities(h.vulnerabilities), ","@),
            escape(h.ip),
            escape(opt_or(h.hostname, "—"@)),
            escape(mac),
            escape(vendor),
            latency,
            ports,
            vulns,
            mdns,
            ssdp,
        ],
    )
}

/// The rows of every host, one per line.
pub open spec fn host_rows(s: Seq<HostView>) -> Seq<Seq<char>>
    decreases s.len(),
{
    if s.len() == 0 {
        Seq::empty()
    } else {
        host_rows(s.drop_last()).push(host_row_spec(s.last()))
    }
}

/// The text of an optional string, or `d`.
fn text_or(o: &Option<String>, d: &str) -> (r: String)
    ensures
        r@ == opt_or(opt_view(*o), d@),
{
    match o {
        Some(s) => s.clone(),
        None => to_owned_string(d),
    }
}

/// The tag of an open port.
pub fn port_tag(p: &PortResult) -> (r: String)
    ensures
        r@ == port_tag_spec(*p),
{
    let svc = match &p.service_hint {
        Some(s) => {
            let args = vec![s.clone()];
            assert(args.deep_view() =~= seq![s@]);
            fill_template(" ({})", &args)
        },
        None => String::new(),
    };
    let banner = match &p.banner {
        Some(b) => {
            let args = vec![html_escape(b.as_str())];
            assert(args.deep_view() =~= seq![escape(b@)]);
            fill_template("<br><small>{}</small>", &args)
        },
        None => String::new(),
    };
    let ghost sv = svc@;
    let ghost bv = banner@;
    let args = vec![decimal_string(p.port as u128), svc, p.state.clone(), banner];
    assert(args.deep_view() =~= seq![dec(p.port as nat), sv, p.state@, bv]);
    fill_template("<span class='tag'>{}{} {}{}</span>", &args)
}

/// The colour of a severity.
pub fn color_for(sev: &str) -> (r: String)
    ensures
        r@ == severity_color(sev@),
{
    if str_eq(sev, "critica") {
        to_owned_string("#ef4444")
    } else if str_eq(sev, "alta") {
        to_owned_string("#f59e0b")
    } else if str_eq(sev, "media") {
        to_owned_string("#eab308")
    } else {
        to_owned_string("#9aa4b2")
    }
}

/// The tag of a finding.
pub fn vuln_tag(f: &Finding) -> (r: String)
    ensures
        r@ == vuln_tag_spec(*f),
{
    let color = color_for(f.severity.as_str());
    let args = vec![
        color.clone(),
        html_escape(f.cve.as_str()),
        color,
        html_escape(f.severity.as_str()),
        decimal_string(f.port as u128),
        html_escape(f.description.as_str()),
    ];
    let ghost c = severity_color(f.severity@);
    assert(args.deep_view() =~= seq![c, escape(f.cve@), c, escape(f.severity@), dec(f.port as nat), escape(f.description@)]);
    fill_template(
        "<span class='tag' style='border-color:{}'><b>{}</b> <span style='color:{}'>{}</span> :{}<br><small>{}</small></span>",
        &args,
    )
}

fn joined_port_tags(ports: &Vec<PortResult>) -> (r: Vec<char>)
    ensures
        r@ == join(port_tags(ports@), " "@),
{
    let mut pieces: Vec<Vec<char>> = Vec::new();
    let mut i: usize = 0;
    while i < ports.len()
        invariant
            i <= ports.len(),
            pieces@.map_values(|p: Vec<char>| p@) == port_tags(ports@.take(i as int)),
        decreases ports.len() - i,
    {
        let ghost pv = pieces@.map_values(|p: Vec<char>| p@);
        let t = port_tag(&ports[i]);
        pieces.push(chars_of(t.as_str()));
        assert(ports@.take(i + 1).drop_last() =~= ports@.take(i as int));
        assert(pieces@.map_values(|p: Vec<char>| p@) =~= pv.push(port_tag_spec(ports@[i as int])));
        i += 1;
    }
    assert(ports@.take(ports.len() as int) =~= ports@);
    let sep = chars_of(" ");
    join_chars(&pieces, &sep)
}

fn joined_vuln_tags(fs: &Vec<Finding>) -> (r: Vec<char>)
    ensures
        r@ == join(vuln_tags(fs@), " "@),
{
    let mut pieces: Vec<Vec<char>> = Vec::new();
    let mut i: usize = 0;
    while i < fs.len()
        invariant
            i <= fs.len(),
            pieces@.map_values(|p: Vec<char>| p@) == vuln_tags(fs@.take(i as int)),
        decreases fs.len() - i,
    {
        let ghost pv = pieces@.map_values(|p: Vec<char>| p@);
        let t = vuln_tag(&fs[i]);
        pieces.push(chars_of(t.as_str()));
        assert(fs@.take(i + 1).drop_last() =~= fs@.take(i as int));
        assert(pieces@.map_values(|p: Vec<char>| p@) =~= pv.push(vuln_tag_spec(fs@[i as int])));
        i += 1;
    }
    assert(fs@.take(fs.len() as int) =~= fs@);
    let sep = chars_of(" ");
    join_chars(&pieces, &sep)
}

fn joined_severities(fs: &Vec<Finding>) -> (r: Vec<char>)
    ensures
        r@ == join(severities(fs@), ","@),
{
    let mut pieces: Vec<Vec<char>> = Vec::new();
    let mut i: usize = 0;
    while i < fs.len()
        invariant
            i <= fs.len(),
            pieces@.map_values(|p: Vec<char>| p@) == severities(fs@.take(i as int)),
        decreases fs.len() - i,
    {
        let ghost pv = pieces@.map_values(|p: Vec<char>| p@);
        pieces.push(chars_of(fs[i].severity.as_str()));
        assert(fs@.take(i + 1).drop_last() =~= fs@.take(i as int));
        assert(pieces@.map_values(|p: Vec<char>| p@) =~= pv.push(fs@[i as int].severity@));
        i += 1;
    }
    assert(fs@.take(fs.len() as int) =~= fs@);
    let sep = chars_of(",");
    join_chars(&pieces, &sep)
}

fn joined_escaped(names: &Vec<String>, sep: &str) -> (r: Vec<char>)
    ensures
        r@ == join(escaped_all(names.deep_view()), sep@),
{
    let ghost nv = names.deep_view();
    let mut pieces: Vec<Vec<char>> = Vec::new();
    let mut i: usize = 0;
    while i < names.len()
        invariant
            i <= names.len(),
            nv == names.deep_view(),
            pieces@.map_values(|p: Vec<char>| p@) == escaped_all(nv.take(i as int)),
        decreases names.len() - i,
    {
        let ghost pv = pieces@.map_values(|p: Vec<char>| p@);
        let e = html_escape(names[i].as_str());
        pieces.push(chars_of(e.as_str()));
        assert(nv.take(i + 1).drop_last() =~= nv.take(i as int));
        assert(nv[i as int] == names@[i as int]@);
        assert(pieces@.map_values(|p: Vec<char>| p@) =~= pv.push(escape(nv[i as int])));
        i += 1;
    }
    assert(nv.take(names.len() as int) =~= nv);
    let sv = chars_of(sep);
    join_chars(&pieces, &sv)
}

/// The row of a host in the hosts table.
pub fn host_row(h: &HostInfo) -> (r: String)
    ensures
        r@ == host_row_spec(h@),
{
    let ports = if h.open_ports.len() == 0 {
        to_owned_string("<span class='muted'>ninguno (o filtrado)</span>")
    } else {
        string_from_chars(&joined_port_tags(&h.open_ports))
    };
    let vulns = if h.vulnerabilities.len() == 0 {
        to_owned_string("<span class='muted'>—</span>")
    } else {
        string_from_chars(&joined_vuln_tags(&h.vulnerabilities))
    };
    let vendor = text_or(&h.vendor, "—");
    let mac = text_or(&h.mac, "—");
    let latency = match h.latency_ms {
        Some(v) => {
            let args = vec![decimal_string(v)];
            assert(args.deep_view() =~= seq![dec(v as nat)]);
            fill_template("{} ms", &args)
        },
        None => to_owned_string("—"),
    };
    let mdns = if h.mdns_names.len() == 0 {
        to_owned_string("—")
    } else {
        string_from_chars(&joined_escaped(&h.mdns_names, "<br>"))
    };
    let ssdp = match &h.ssdp_location {
        Some(s) => html_escape(s.as_str()),
        None => to_owned_string("—"),
    };
    let ip_lower = to_lowercase(h.ip.as_str());
    let host_plain = text_or(&h.hostname, "");
    let host_lower = to_lowercase(host_plain.as_str());
    let vendor_lower = to_lowercase(vendor.as_str());
    let sev = string_from_chars(&joined_severities(&h.vulnerabilities));
    let host_shown = text_or(&h.hostname, "—");
    let ghost vals = seq![
        escape(str_to_lowercase(h@.ip)),
        escape(str_to_lowercase(opt_or(h@.hostname, Seq::empty()))),
        escape(str_to_lowercase(vendor@)),
        sev@,
        escape(h@.ip),
        escape(host_shown@),
        escape(mac@),
        escape(vendor@),
        latency@,
        ports@,
        vulns@,
        mdns@,
        ssdp@,
    ];
    proof {
        reveal_strlit("");
        assert(""@ =~= Seq::<char>::empty());
    }
    let args = vec![
        html_escape(ip_lower.as_str()),
        html_escape(host_lower.as_str()),
        html_escape(vendor_lower.as_str()),
        sev,
        html_escape(h.ip.as_str()),
        html_escape(host_shown.as_str()),
        html_escape(mac.as_str()),
        html_escape(vendor.as_str()),
        latency,
        ports,
        vulns,
        mdns,
        ssdp,
    ];
    assert(args.deep_view() =~= vals);
    fill_template(
        "<tr data-ip='{}' data-hostname='{}' data-vendor='{}' data-sev='{}'><td>{}</td><td>{}</td><td>{}</td><td>{}</td><td>{}</td><td>{}</td><td>{}</td><td>{}</td><td>{}</td></tr>",
        &args,
    )
}

/// The rows of every host, one per line.
pub fn hosts_rows(hosts: &Vec<HostInfo>) -> (r: String)
    ensures
        r@ == join(host_rows(host_views(hosts@)), "\n"@),
{
    let ghost hv = host_views(hosts@);
    let mut pieces: Vec<Vec<char>> = Vec::new();
    let mut i: usize = 0;
    while i < hosts.len()
        invariant
            i <= hosts.len(),
            hv == host_views(hosts@),
            pieces@.map_values(|p: Vec<char>| p@) == host_rows(hv.take(i as int)),
        decreases hosts.len() - i,
    {
        let ghost pv = pieces@.map_values(|p: Vec<char>| p@);
        let row = host_row(&hosts[i]);
        pieces.push(chars_of(row.as_str()));
        assert(hv.take(i + 1).drop_last() =~= hv.take(i as int));
        assert(hv[i as int] == hosts@[i as int]@);
        assert(pieces@.map_values(|p: Vec<char>| p@) =~= pv.push(host_row_spec(hv[i as int])));
        i += 1;
    }
    assert(hv.take(hosts.len() as int) =~= hv);
    let sep = chars_of("\n");
    string_from_chars(&join_chars(&pieces, &sep))
}

} // verus!

verus! {

// ---------------------------------------------------------------------------
// Chart data
// ---------------------------------------------------------------------------

/// The texts of a list of character vectors.
pub open spec fn views_of(s: Seq<Vec<char>>) -> Seq<Seq<char>> {
    s.map_values(|k: Vec<char>| k@)
}

/// A tally entry by value: a key and its count.
pub open spec fn tally_entries(s: Seq<(Vec<char>, usize)>) -> Seq<(Seq<char>, nat)> {
    s.map_values(|e: (Vec<char>, usize)| (e.0@, e.1 as nat))
}

/// The position of the entry for `k`, or -1.
pub open spec fn tally_pos(t: Seq<(Seq<char>, nat)>, k: Seq<char>) -> int
    decreases t.len(),
{
    if t.len() == 0 {
        -1
    } else {
        let p = tally_pos(t.drop_last(), k);
        if p >= 0 {
            p
        } else if t.last().0 == k {
            t.len() - 1
        } else {
            -1
        }
    }
}

/// How many times each key occurs, keys in order of first occurrence.
pub open spec fn tally(keys: Seq<Seq<char>>) -> Seq<(Seq<char>, nat)>
    decreases keys.len(),
{
    if keys.len() == 0 {
        Seq::empty()
    } else {
        let t = tally(keys.drop_last());
        let k = keys.last();
        let p = tally_pos(t, k);
        if p >= 0 {
            t.update(p, (k, t[p].1 + 1))
        } else {
            t.push((k, 1nat))
        }
    }
}

/// The number of occurrences of `k` in `keys`.
pub open spec fn count_of(keys: Seq<Seq<char>>, k: Seq<char>) -> nat
    decreases keys.len(),
{
    if keys.len() == 0 {
        0
    } else {
        count_of(keys.drop_last(), k) + (if keys.last() == k { 1nat } else { 0nat })
    }
}

/// Tally entries ordered by decreasing count.
pub open spec fn by_count() -> spec_fn((Seq<char>, nat), (Seq<char>, nat)) -> bool {
    |a: (Seq<char>, nat), b: (Seq<char>, nat)| a.1 > b.1
}

/// The `n` most frequent keys with their counts, most frequent first (keys
/// with equal counts in order of first occurrence).
pub open spec fn top(keys: Seq<Seq<char>>, n: nat) -> Seq<(Seq<char>, nat)> {
    let s = isort_by(tally(keys), by_count());
    if s.len() > n {
        s.take(n as int)
    } else {
        s
    }
}

proof fn lemma_tally_pos_bounds(t: Seq<(Seq<char>, nat)>, k: Seq<char>)
    ensures
        -1 <= tally_pos(t, k) < t.len(),
        tally_pos(t, k) >= 0 ==> t[tally_pos(t, k)].0 == k,
        tally_pos(t, k) == -1 ==> forall|i: int| 0 <= i < t.len() ==> (#[trigger] t[i]).0 != k,
    decreases t.len(),
{
    if t.len() > 0 {
        lemma_tally_pos_bounds(t.drop_last(), k);
        if tally_pos(t, k) == -1 {
            assert forall|i: int| 0 <= i < t.len() implies (#[trigger] t[i]).0 != k by {
                if i < t.len() - 1 {
                    assert(t.drop_last()[i] == t[i]);
                }
            }
        }
        let p = tally_pos(t.drop_last(), k);
        if p >= 0 {
            assert(t.drop_last()[p] == t[p]);
        }
    }
}

proof fn lemma_count_zero(keys: Seq<Seq<char>>, k: Seq<char>)
    requires
        forall|j: int| 0 <= j < keys.len() ==> keys[j] != k,
    ensures
        count_of(keys, k) == 0,
    decreases keys.len(),
{
    if keys.len() > 0 {
        assert forall|j: int| 0 <= j < keys.drop_last().len() implies keys.drop_last()[j] != k by {
            assert(keys.drop_last()[j] == keys[j]);
        }
        lemma_count_zero(keys.drop_last(), k);
        assert(keys[keys.len() - 1] != k);
    }
}

/// A tally lists each key once, with its number of occurrences, and lists
/// every key that occurs.
pub proof fn lemma_tally(keys: Seq<Seq<char>>)
    ensures
        forall|a: int, b: int|
            0 <= a < b < tally(keys).len() ==> (#[trigger] tally(keys)[a]).0 != (
            #[trigger] tally(keys)[b]).0,
        forall|i: int|
            0 <= i < tally(keys).len() ==> (#[trigger] tally(keys)[i]).1 == count_of(
                keys,
                tally(keys)[i].0,
            ),
        forall|j: int| 0 <= j < keys.len() ==> tally_pos(tally(keys), #[trigger] keys[j]) >= 0,
    decreases keys.len(),
{
    if keys.len() > 0 {
        let d = keys.drop_last();
        let t = tally(d);
        let k = keys.last();
        lemma_tally(d);
        lemma_tally_pos_bounds(t, k);
        let p = tally_pos(t, k);
        let r = tally(keys);
        assert forall|a: int, b: int| 0 <= a < b < r.len() implies (#[trigger] r[a]).0 != (
        #[trigger] r[b]).0 by {
            if p < 0 && b == r.len() - 1 {
                assert(r[a] == t[a]);
            }
        }
        assert forall|i: int| 0 <= i < r.len() implies (#[trigger] r[i]).1 == count_of(keys, r[i].0) by {
            if p >= 0 {
                assert(t[p].1 == count_of(d, t[p].0));
                if i != p {
                    assert(r[i] == t[i]);
                    assert(t[i].1 == count_of(d, t[i].0));
                    assert(t[i].0 != t[p].0);
                }
            } else {
                if i < t.len() {
                    assert(r[i] == t[i]);
                    assert(t[i].1 == count_of(d, t[i].0));
                    assert(t[i].0 != k);
                } else {
                    lemma_count_zero(d, k);
                }
            }
        }
        assert forall|j: int| 0 <= j < keys.len() implies tally_pos(r, #[trigger] keys[j]) >= 0 by {
            let kj = keys[j];
            lemma_tally_pos_bounds(r, kj);
            if j < d.len() {
                assert(d[j] == kj);
                let q = tally_pos(t, kj);
                lemma_tally_pos_bounds(t, kj);
                assert(r[q].0 == kj);
                if tally_pos(r, kj) == -1 {
                    assert(r[q].0 != kj);
                }
            } else {
                if p >= 0 {
                    assert(r[p].0 == kj);
                } else {
                    assert(r[t.len() as int].0 == kj);
                }
                if tally_pos(r, kj) == -1 {
                    if p >= 0 {
                        assert(r[p].0 != kj);
                    } else {
                        assert(r[t.len() as int].0 != kj);
                    }
                }
            }
        }
    }
}

/// The chart lists keep, most frequent first, the most frequent keys; every
/// key left out occurs at most as often as every key kept.
pub proof fn lemma_top(keys: Seq<Seq<char>>, n: nat)
    ensures
        sorted_by(isort_by(tally(keys), by_count()), by_count()),
        isort_by(tally(keys), by_count()).to_multiset() == tally(keys).to_multiset(),
        top(keys, n).len() <= n,
        forall|i: int, j: int|
            0 <= i < top(keys, n).len() && top(keys, n).len() <= j < isort_by(tally(keys), by_count()).len()
                ==> (#[trigger] isort_by(tally(keys), by_count())[j]).1 <= (#[trigger] top(keys, n)[i]).1,
{
    let s = isort_by(tally(keys), by_count());
    assert(strict_weak_order(by_count()));
    lemma_isort_sorted(tally(keys), by_count());
    lemma_isort_multiset(tally(keys), by_count());
    assert forall|i: int, j: int|
        0 <= i < top(keys, n).len() && top(keys, n).len() <= j < s.len() implies (#[trigger] s[j]).1
            <= (#[trigger] top(keys, n)[i]).1 by {
        assert(top(keys, n)[i] == s[i]);
        assert(!(by_count())(s[j], s[i]));
    }
}

fn tally_pos_exec(t: &Vec<(Vec<char>, usize)>, k: &Vec<char>) -> (r: Option<usize>)
    ensures
        match r {
            Some(i) => tally_pos(tally_entries(t@), k@) == i as int && i < t.len(),
            None => tally_pos(tally_entries(t@), k@) == -1,
        },
{
    let ghost tv = tally_entries(t@);
    let mut i: usize = 0;
    while i < t.len()
        invariant
            i <= t.len(),
            tv == tally_entries(t@),
            tally_pos(tv.take(i as int), k@) == -1,
        decreases t.len() - i,
    {
        assert(tv.take(i + 1).drop_last() =~= tv.take(i as int));
        assert(tv[i as int] == (t@[i as int].0@, t@[i as int].1 as nat));
        if chars_eq(&t[i].0, k) {
            proof {
                lemma_tally_prefix(tv, k@, i as int + 1);
            }
            return Some(i);
        }
        i += 1;
    }
    assert(tv.take(i as int) =~= tv);
    None
}

proof fn lemma_tally_prefix(t: Seq<(Seq<char>, nat)>, k: Seq<char>, n: int)
    requires
        0 <= n <= t.len(),
        tally_pos(t.take(n), k) >= 0,
    ensures
        tally_pos(t, k) == tally_pos(t.take(n), k),
    decreases t.len() - n,
{
    if n < t.len() {
        assert(t.take(n + 1).drop_last() =~= t.take(n));
        lemma_tally_prefix(t, k, n + 1);
    } else {
        assert(t.take(n) =~= t);
    }
}

/// How many times each key occurs, keys in order of first occurrence.
pub fn tally_keys(keys: &Vec<Vec<char>>) -> (r: Vec<(Vec<char>, usize)>)
    ensures
        tally_entries(r@) == tally(views_of(keys@)),
{
    let ghost kv = views_of(keys@);
    let mut t: Vec<(Vec<char>, usize)> = Vec::new();
    let mut i: usize = 0;
    assert(tally_entries(t@) =~= tally(kv.take(0)));
    while i < keys.len()
        invariant
            i <= keys.len(),
            kv == views_of(keys@),
            tally_entries(t@) == tally(kv.take(i as int)),
            forall|j: int| 0 <= j < t.len() ==> (#[trigger] t@[j]).1 <= i,
        decreases keys.len() - i,
    {
        let ghost tv = tally_entries(t@);
        assert(kv.take(i + 1).drop_last() =~= kv.take(i as int));
        assert(kv.take(i + 1).last() == keys@[i as int]@);
        proof {
            lemma_tally_pos_bounds(tv, keys@[i as int]@);
        }
        match tally_pos_exec(&t, &keys[i]) {
            Some(p) => {
                let c = t[p].1;
                let mut k: Vec<char> = Vec::new();
                let src = &keys[i];
                let mut m: usize = 0;
                while m < src.len()
                    invariant
                        m <= src.len(),
                        k@ == src@.take(m as int),
                    decreases src.len() - m,
                {
                    k.push(src[m]);
                    assert(src@.take(m as int).push(src@[m as int]) =~= src@.take(m + 1));
                    m += 1;
                }
                assert(k@ =~= src@);
                t.set(p, (k, c + 1));
                assert(tally_entries(t@) =~= tv.update(p as int, (keys@[i as int]@, tv[p as int].1 + 1)));
            },
            None => {
                let mut k: Vec<char> = Vec::new();
                let src = &keys[i];
                let mut m: usize = 0;
                while m < src.len()
                    invariant
                        m <= src.len(),
                        k@ == src@.take(m as int),
                    decreases src.len() - m,
                {
                    k.push(src[m]);
                    assert(src@.take(m as int).push(src@[m as int]) =~= src@.take(m + 1));
                    m += 1;
                }
                assert(k@ =~= src@);
                t.push((k, 1));
                assert(tally_entries(t@) =~= tv.push((keys@[i as int]@, 1nat)));
            },
        }
        i += 1;
    }
    assert(kv.take(keys.len() as int) =~= kv);
    t
}

/// The `n` most frequent keys with their counts, most frequent first.
pub fn top_keys(keys: &Vec<Vec<char>>, n: usize) -> (r: Vec<(Vec<char>, usize)>)
    ensures
        tally_entries(r@) == top(views_of(keys@), n as nat),
{
    let t = tally_keys(keys);
    let ghost orig = tally_entries(t@);
    let mut rest = t;
    let mut out: Vec<(Vec<char>, usize)> = Vec::new();
    let mut m: usize = 0;
    let total = rest.len();
    while rest.len() > 0
        invariant
            total == orig.len(),
            m + rest@.len() == orig.len(),
            tally_entries(rest@) == orig.skip(m as int),
            tally_entries(out@) == isort_by(orig.take(m as int), by_count()),
        decreases rest@.len(),
    {
        let ghost rv = tally_entries(rest@);
        let ghost ov = tally_entries(out@);
        let x = rest.remove(0);
        let ghost xv = (x.0@, x.1 as nat);
        assert(rv[0] == xv);
        assert(tally_entries(rest@) =~= rv.skip(1));
        assert(orig.take(m + 1).drop_last() =~= orig.take(m as int));
        assert(orig.take(m + 1).last() == xv);
        let mut j: usize = out.len();
        loop
            invariant
                j <= out@.len(),
                ov == tally_entries(out@),
                xv == (x.0@, x.1 as nat),
                forall|k: int| j <= k < ov.len() ==> (by_count())(xv, #[trigger] ov[k]),
            ensures
                j <= out@.len(),
                forall|k: int| j <= k < ov.len() ==> (by_count())(xv, #[trigger] ov[k]),
                j == 0 || !(by_count())(xv, ov[j - 1]),
            decreases j,
        {
            if j == 0 {
                break;
            }
            assert(ov[j - 1] == (out@[j - 1].0@, out@[j - 1].1 as nat));
            assert((by_count())(xv, ov[j - 1]) == (x.1 > out@[j - 1].1));
            if !(x.1 > out[j - 1].1) {
                break;
            }
            j -= 1;
        }
        proof {
            crate::sorting::lemma_insert_at(ov, xv, by_count(), j as int);
        }
        out.insert(j, x);
        assert(tally_entries(out@) =~= ov.take(j as int).push(xv) + ov.skip(j as int));
        m += 1;
        assert(tally_entries(rest@) =~= orig.skip(m as int));
    }
    assert(orig.take(m as int) =~= orig);
    if out.len() > n {
        let ghost ov = tally_entries(out@);
        out.truncate(n);
        assert(tally_entries(out@) =~= ov.take(n as int));
    }
    out
}

/// The number of times `k` occurs.
pub fn count_key(keys: &Vec<Vec<char>>, k: &str) -> (r: usize)
    ensures
        r as nat == count_of(views_of(keys@), k@),
{
    let kc = chars_of(k);
    let ghost kv = views_of(keys@);
    let mut c: usize = 0;
    let mut i: usize = 0;
    while i < keys.len()
        invariant
            i <= keys.len(),
            kv == views_of(keys@),
            c as nat == count_of(kv.take(i as int), k@),
            c <= i,
            kc@ == k@,
        decreases keys.len() - i,
    {
        assert(kv.take(i + 1).drop_last() =~= kv.take(i as int));
        assert(kv.take(i + 1).last() == keys@[i as int]@);
        if chars_eq(&keys[i], &kc) {
            c += 1;
        }
        i += 1;
    }
    assert(kv.take(i as int) =~= kv);
    c
}

/// The vendor of each host (`Desconocido` when unknown), in order.
pub open spec fn vendor_keys(hs: Seq<HostView>) -> Seq<Seq<char>>
    decreases hs.len(),
{
    if hs.len() == 0 {
        Seq::empty()
    } else {
        vendor_keys(hs.drop_last()).push(opt_or(hs.last().vendor, "Desconocido"@))
    }
}

/// The port numbers in decimal, of the open ports of a host.
pub open spec fn port_texts(ps: Seq<PortResult>) -> Seq<Seq<char>>
    decreases ps.len(),
{
    if ps.len() == 0 {
        Seq::empty()
    } else {
        port_texts(ps.drop_last()).push(dec(ps.last().port as nat))
    }
}

/// The port numbers in decimal, of every open port of every host.
pub open spec fn port_keys(hs: Seq<HostView>) -> Seq<Seq<char>>
    decreases hs.len(),
{
    if hs.len() == 0 {
        Seq::empty()
    } else {
        port_keys(hs.drop_last()) + port_texts(hs.last().open_ports)
    }
}

/// The severity of every finding of every host.
pub open spec fn severity_keys(hs: Seq<HostView>) -> Seq<Seq<char>>
    decreases hs.len(),
{
    if hs.len() == 0 {
        Seq::empty()
    } else {
        severity_keys(hs.drop_last()) + severities(hs.last().vulnerabilities)
    }
}

fn push_key(keys: &mut Vec<Vec<char>>, k: &str)
    ensures
        views_of(final(keys)@) == views_of(old(keys)@).push(k@),
{
    let ghost v0 = views_of(keys@);
    keys.push(chars_of(k));
    assert(views_of(keys@) =~= v0.push(k@));
}

/// The keys that the three charts count: vendors, open ports, severities.
pub fn chart_keys(hosts: &Vec<HostInfo>) -> (r: (Vec<Vec<char>>, Vec<Vec<char>>, Vec<Vec<char>>))
    ensures
        views_of(r.0@) == vendor_keys(host_views(hosts@)),
        views_of(r.1@) == port_keys(host_views(hosts@)),
        views_of(r.2@) == severity_keys(host_views(hosts@)),
{
    let ghost hv = host_views(hosts@);
    let mut vendors: Vec<Vec<char>> = Vec::new();
    let mut ports: Vec<Vec<char>> = Vec::new();
    let mut sevs: Vec<Vec<char>> = Vec::new();
    let mut i: usize = 0;
    assert(views_of(vendors@) =~= vendor_keys(hv.take(0)));
    assert(views_of(ports@) =~= port_keys(hv.take(0)));
    assert(views_of(sevs@) =~= severity_keys(hv.take(0)));
    while i < hosts.len()
        invariant
            i <= hosts.len(),
            hv == host_views(hosts@),
            views_of(vendors@) == vendor_keys(hv.take(i as int)),
            views_of(ports@) == port_keys(hv.take(i as int)),
            views_of(sevs@) == severity_keys(hv.take(i as int)),
        decreases hosts.len() - i,
    {
        let h = &hosts[i];
        assert(hv[i as int] == h@);
        assert(hv.take(i + 1).drop_last() =~= hv.take(i as int));
        assert(hv.take(i + 1).last() == h@);
        let v = text_or(&h.vendor, "Desconocido");
        push_key(&mut vendors, v.as_str());
        let ghost p0 = views_of(ports@);
        let mut j: usize = 0;
        while j < h.open_ports.len()
            invariant
                j <= h.open_ports.len(),
                views_of(ports@) == p0 + port_texts(h.open_ports@.take(j as int)),
            decreases h.open_ports.len() - j,
        {
            let t = decimal_string(h.open_ports[j].port as u128);
            push_key(&mut ports, t.as_str());
            assert(h.open_ports@.take(j + 1).drop_last() =~= h.open_ports@.take(j as int));
            assert(p0 + port_texts(h.open_ports@.take(j + 1)) =~= p0 + port_texts(
                h.open_ports@.take(j as int),
            ).push(dec(h.open_ports@[j as int].port as nat)));
            j += 1;
        }
        assert(h.open_ports@.take(h.open_ports.len() as int) =~= h.open_ports@);
        let ghost s0 = views_of(sevs@);
        let mut k: usize = 0;
        while k < h.vulnerabilities.len()
            invariant
                k <= h.vulnerabilities.len(),
                views_of(sevs@) == s0 + severities(h.vulnerabilities@.take(k as int)),
            decreases h.vulnerabilities.len() - k,
        {
            push_key(&mut sevs, h.vulnerabilities[k].severity.as_str());
            assert(h.vulnerabilities@.take(k + 1).drop_last() =~= h.vulnerabilities@.take(
                k as int,
            ));
            assert(s0 + severities(h.vulnerabilities@.take(k + 1)) =~= s0 + severities(
                h.vulnerabilities@.take(k as int),
            ).push(h.vulnerabilities@[k as int].severity@));
            k += 1;
        }
        assert(h.vulnerabilities@.take(h.vulnerabilities.len() as int) =~= h.vulnerabilities@);
        i += 1;
    }
    assert(hv.take(hosts.len() as int) =~= hv);
    (vendors, ports, sevs)
}

} // verus!

verus! {

// ---------------------------------------------------------------------------
// Tables of the local machine
// ---------------------------------------------------------------------------

/// A disk, with its sizes already written with one decimal.
#[derive(Debug)]
pub struct DiskRow {
    pub name: String,
    pub mount_point: String,
    pub file_system: String,
    pub available_gb: String,
    pub total_gb: String,
    pub is_removable: bool,
}

/// A temperature sensor, with its readings already written with one decimal.
#[derive(Debug)]
pub struct SensorRow {
    pub label: String,
    pub temperature_c: String,
    pub max_c: String,
    pub critical_c: Option<String>,
}

/// The row of a disk.
pub open spec fn disk_row_spec(d: DiskRow) -> Seq<char> {
    fill(
        "<tr><td>{}</td><td>{}</td><td>{}</td><td>{} / {} GB</td><td>{}</td></tr>"@,
        seq![
            escape(d.name@),
            escape(d.mount_point@),
            escape(d.file_system@),
            d.available_gb@,
            d.total_gb@,
            if d.is_removable { "extraíble"@ } else { "fijo"@ },
        ],
    )
}

/// The row of a network interface.
pub open spec fn iface_row_spec(n: NetInterface) -> Seq<char> {
    fill("<tr><td>{}</td><td>{}</td></tr>"@, seq![escape(n.name@), escape(n.mac@)])
}

/// The row of a sensor.
pub open spec fn sensor_row_spec(s: SensorRow) -> Seq<char> {
    let crit = match s.critical_c {
        Some(c) => fill("{}°C"@, seq![c@]),
        None => "—"@,
    };
    fill(
        "<tr><td>{}</td><td>{}°C</td><td>{}°C</td><td>{}</td></tr>"@,
        seq![escape(s.label@), s.temperature_c@, s.max_c@, escape(crit)],
    )
}

/// The rows of the disks, in order.
pub open spec fn disk_rows(s: Seq<DiskRow>) -> Seq<Seq<char>>
    decreases s.len(),
{
    if s.len() == 0 {
        Seq::empty()
    } else {
        disk_rows(s.drop_last()).push(disk_row_spec(s.last()))
    }
}

/// The rows of the interfaces, in order.
pub open spec fn iface_rows(s: Seq<NetInterface>) -> Seq<Seq<char>>
    decreases s.len(),
{
    if s.len() == 0 {
        Seq::empty()
    } else {
        iface_rows(s.drop_last()).push(iface_row_spec(s.last()))
    }
}

/// The rows of the sensors, in order.
pub open spec fn sensor_rows(s: Seq<SensorRow>) -> Seq<Seq<char>>
    decreases s.len(),
{
    if s.len() == 0 {
        Seq::empty()
    } else {
        sensor_rows(s.drop_last()).push(sensor_row_spec(s.last()))
    }
}

/// The sensors table body: a note when there is no sensor.
pub open spec fn sensors_body(s: Seq<SensorRow>) -> Seq<char> {
    if s.len() == 0 {
        "<tr><td colspan='4' class='muted'>No se detectaron sensores (normal en Windows/VM)</td></tr>"@
    } else {
        join(sensor_rows(s), "\n"@)
    }
}

/// The rows of the disks, one per line.
pub fn disks_html(disks: &Vec<DiskRow>) -> (r: String)
    ensures
        r@ == join(disk_rows(disks@), "\n"@),
{
    let mut pieces: Vec<Vec<char>> = Vec::new();
    let mut i: usize = 0;
    while i < disks.len()
        invariant
            i <= disks.len(),
            pieces@.map_values(|p: Vec<char>| p@) == disk_rows(disks@.take(i as int)),
        decreases disks.len() - i,
    {
        let ghost pv = pieces@.map_values(|p: Vec<char>| p@);
        let d = &disks[i];
        let kind = if d.is_removable {
            to_owned_string("extraíble")
        } else {
            to_owned_string("fijo")
        };
        let args = vec![
            html_escape(d.name.as_str()),
            html_escape(d.mount_point.as_str()),
            html_escape(d.file_system.as_str()),
            d.available_gb.clone(),
            d.total_gb.clone(),
            kind,
        ];
        assert(args.deep_view() =~= seq![
            escape(d.name@),
            escape(d.mount_point@),
            escape(d.file_system@),
            d.available_gb@,
            d.total_gb@,
            if d.is_removable { "extraíble"@ } else { "fijo"@ },
        ]);
        let row = fill_template(
            "<tr><td>{}</td><td>{}</td><td>{}</td><td>{} / {} GB</td><td>{}</td></tr>",
            &args,
        );
        pieces.push(chars_of(row.as_str()));
        assert(disks@.take(i + 1).drop_last() =~= disks@.take(i as int));
        assert(pieces@.map_values(|p: Vec<char>| p@) =~= pv.push(disk_row_spec(disks@[i as int])));
        i += 1;
    }
    assert(disks@.take(disks.len() as int) =~= disks@);
    let sep = chars_of("\n");
    string_from_chars(&join_chars(&pieces, &sep))
}

/// The rows of the network interfaces, one per line.
pub fn interfaces_html(ifaces: &Vec<NetInterface>) -> (r: String)
    ensures
        r@ == join(iface_rows(ifaces@), "\n"@),
{
    let mut pieces: Vec<Vec<char>> = Vec::new();
    let mut i: usize = 0;
    while i < ifaces.len()
        invariant
            i <= ifaces.len(),
            pieces@.map_values(|p: Vec<char>| p@) == iface_rows(ifaces@.take(i as int)),
        decreases ifaces.len() - i,
    {
        let ghost pv = pieces@.map_values(|p: Vec<char>| p@);
        let n = &ifaces[i];
        let args = vec![html_escape(n.name.as_str()), html_escape(n.mac.as_str())];
        assert(args.deep_view() =~= seq![escape(n.name@), escape(n.mac@)]);
        let row = fill_template("<tr><td>{}</td><td>{}</td></tr>", &args);
        pieces.push(chars_of(row.as_str()));
        assert(ifaces@.take(i + 1).drop_last() =~= ifaces@.take(i as int));
        assert(pieces@.map_values(|p: Vec<char>| p@) =~= pv.push(iface_row_spec(ifaces@[i as int])));
        i += 1;
    }
    assert(ifaces@.take(ifaces.len() as int) =~= ifaces@);
    let sep = chars_of("\n");
    string_from_chars(&join_chars(&pieces, &sep))
}

/// The body of the sensors table.
pub fn sensors_html(sensors: &Vec<SensorRow>) -> (r: String)
    ensures
        r@ == sensors_body(sensors@),
{
    if sensors.len() == 0 {
        return to_owned_string(
            "<tr><td colspan='4' class='muted'>No se detectaron sensores (normal en Windows/VM)</td></tr>",
        );
    }
    let mut pieces: Vec<Vec<char>> = Vec::new();
    let mut i: usize = 0;
    while i < sensors.len()
        invariant
            i <= sensors.len(),
            pieces@.map_values(|p: Vec<char>| p@) == sensor_rows(sensors@.take(i as int)),
        decreases sensors.len() - i,
    {
        let ghost pv = pieces@.map_values(|p: Vec<char>| p@);
        let s = &sensors[i];
        let crit = match &s.critical_c {
            Some(c) => {
                let a = vec![c.clone()];
                assert(a.deep_view() =~= seq![c@]);
                fill_template("{}°C", &a)
            },
            None => to_owned_string("—"),
        };
        let ghost cv = crit@;
        let args = vec![
            html_escape(s.label.as_str()),
            s.temperature_c.clone(),
            s.max_c.clone(),
            html_escape(crit.as_str()),
        ];
        assert(args.deep_view() =~= seq![escape(s.label@), s.temperature_c@, s.max_c@, escape(cv)]);
        let row = fill_template("<tr><td>{}</td><td>{}°C</td><td>{}°C</td><td>{}</td></tr>", &args);
        pieces.push(chars_of(row.as_str()));
        assert(sensors@.take(i + 1).drop_last() =~= sensors@.take(i as int));
        assert(pieces@.map_values(|p: Vec<char>| p@) =~= pv.push(sensor_row_spec(sensors@[i as int])));
        i += 1;
    }
    assert(sensors@.take(sensors.len() as int) =~= sensors@);
    let sep = chars_of("\n");
    string_from_chars(&join_chars(&pieces, &sep))
}

// ---------------------------------------------------------------------------
// Chart texts
// ---------------------------------------------------------------------------

/// The escaped keys of tally entries.
pub open spec fn escaped_keys(t: Seq<(Seq<char>, nat)>) -> Seq<Seq<char>>
    decreases t.len(),
{
    if t.len() == 0 {
        Seq::empty()
    } else {
        escaped_keys(t.drop_last()).push(escape(t.last().0))
    }
}

/// The keys of tally entries.
pub open spec fn plain_keys(t: Seq<(Seq<char>, nat)>) -> Seq<Seq<char>>
    decreases t.len(),
{
    if t.len() == 0 {
        Seq::empty()
    } else {
        plain_keys(t.drop_last()).push(t.last().0)
    }
}

/// The counts of tally entries, in decimal.
pub open spec fn count_texts(t: Seq<(Seq<char>, nat)>) -> Seq<Seq<char>>
    decreases t.len(),
{
    if t.len() == 0 {
        Seq::empty()
    } else {
        count_texts(t.drop_last()).push(dec(t.last().1))
    }
}

/// The three texts of a tally: escaped keys, keys, counts.
fn tally_texts(t: &Vec<(Vec<char>, usize)>) -> (r: (Vec<Vec<char>>, Vec<Vec<char>>, Vec<Vec<char>>))
    ensures
        r.0@.map_values(|p: Vec<char>| p@) == escaped_keys(tally_entries(t@)),
        r.1@.map_values(|p: Vec<char>| p@) == plain_keys(tally_entries(t@)),
        r.2@.map_values(|p: Vec<char>| p@) == count_texts(tally_entries(t@)),
{
    let ghost tv = tally_entries(t@);
    let mut esc: Vec<Vec<char>> = Vec::new();
    let mut plain: Vec<Vec<char>> = Vec::new();
    let mut counts: Vec<Vec<char>> = Vec::new();
    let mut i: usize = 0;
    while i < t.len()
        invariant
            i <= t.len(),
            tv == tally_entries(t@),
            esc@.map_values(|p: Vec<char>| p@) == escaped_keys(tv.take(i as int)),
            plain@.map_values(|p: Vec<char>| p@) == plain_keys(tv.take(i as int)),
            counts@.map_values(|p: Vec<char>| p@) == count_texts(tv.take(i as int)),
        decreases t.len() - i,
    {
        let ghost e0 = esc@.map_values(|p: Vec<char>| p@);
        let ghost p0 = plain@.map_values(|p: Vec<char>| p@);
        let ghost c0 = counts@.map_values(|p: Vec<char>| p@);
        assert(tv[i as int] == (t@[i as int].0@, t@[i as int].1 as nat));
        assert(tv.take(i + 1).drop_last() =~= tv.take(i as int));
        let k = string_from_chars(&t[i].0);
        let e = html_escape(k.as_str());
        esc.push(chars_of(e.as_str()));
        plain.push(chars_of(k.as_str()));
        counts.push(crate::text::decimal(t[i].1 as u128));
        assert(esc@.map_values(|p: Vec<char>| p@) =~= e0.push(escape(tv[i as int].0)));
        assert(plain@.map_values(|p: Vec<char>| p@) =~= p0.push(tv[i as int].0));
        assert(counts@.map_values(|p: Vec<char>| p@) =~= c0.push(dec(tv[i as int].1)));
        i += 1;
    }
    assert(tv.take(t.len() as int) =~= tv);
    (esc, plain, counts)
}

// ---------------------------------------------------------------------------
// The page
// ---------------------------------------------------------------------------

/// What the page shows that only the running system knows, with numbers
/// that are not integers already written out.
#[derive(Debug)]
pub struct PageFacts {
    /// The time of the report, as `YYYY-MM-DD HH:MM:SS UTC`.
    pub generated_at: String,
    pub local_subnet: Option<String>,
    pub total_hosts_alive: usize,
    pub total_vulnerabilities: usize,
    /// The scan's duration in seconds, with one decimal.
    pub duration_secs: String,
    pub hostname: String,
    pub os_name: String,
    pub os_version: String,
    pub kernel_version: String,
    pub cpu_brand: String,
    pub cpu_vendor: String,
    pub cores_physical: Option<usize>,
    pub cores_logical: usize,
    pub frequency_mhz: u64,
    /// Memory in GB, with one decimal.
    pub mem_used_gb: String,
    pub mem_total_gb: String,
    pub mem_available_gb: String,
    pub uptime_secs: u64,
    /// Load averages, with two decimals.
    pub load_one: String,
    pub load_five: String,
    pub load_fifteen: String,
    pub disks: Vec<DiskRow>,
    pub interfaces: Vec<NetInterface>,
    pub sensors: Vec<SensorRow>,
    /// Entries of the vendor table and of the vulnerability database.
    pub oui_count: usize,
    pub cve_count: usize,
    /// The hosts as JSON.
    pub hosts_json: String,
}

/// The most vendors and ports that the charts show.
pub const TOP_VENDORS: usize = 6;
pub const TOP_PORTS: usize = 8;

/// The values of the page's placeholders, in order.
pub open spec fn page_args(f: PageFacts, hs: Seq<HostView>) -> Seq<Seq<char>> {
    let sev = severity_keys(hs);
    seq![
        f.generated_at@,
        escape(opt_or(opt_view(f.local_subnet), "no detectada"@)),
        dec(f.total_hosts_alive as nat),
        dec(f.total_vulnerabilities as nat),
        f.duration_secs@,
        dec(f.total_hosts_alive as nat),
        dec(f.total_vulnerabilities as nat),
        dec(top(vendor_keys(hs), TOP_VENDORS as nat).len()),
        dec(top(port_keys(hs), TOP_PORTS as nat).len()),
        escape(f.hostname@),
        escape(f.os_name@),
        escape(f.os_version@),
        escape(f.kernel_version@),
        escape(f.cpu_brand@),
        dec(match f.cores_physical { Some(c) => c as nat, None => 0nat }),
        dec(f.cores_logical as nat),
        dec(f.frequency_mhz as nat),
        escape(f.cpu_vendor@),
        f.mem_used_gb@,
        f.mem_total_gb@,
        f.mem_available_gb@,
        dec(f.uptime_secs as nat),
        f.load_one@,
        f.load_five@,
        f.load_fifteen@,
        dec(f.sensors@.len()),
        dec(count_of(sev, "critica"@)),
        dec(count_of(sev, "alta"@)),
        dec(count_of(sev, "media"@)),
        dec(count_of(sev, "baja"@)),
        join(disk_rows(f.disks@), "\n"@),
        join(iface_rows(f.interfaces@), "\n"@),
        sensors_body(f.sensors@),
        dec(hs.len()),
        dec(f.total_vulnerabilities as nat),
        dec(f.oui_count as nat),
        dec(f.cve_count as nat),
        join(host_rows(hs), "\n"@),
        join(common_port_texts(), ", "@),
    ]
}

/// The probed ports in decimal.
pub open spec fn common_port_texts() -> Seq<Seq<char>> {
    crate::scanner::common_ports_spec().map_values(|p: u16| dec(p as nat))
}

spec fn rewritten(t: Seq<char>) -> Seq<char> {
    replace_all(t, seq!['<', '/'], seq!['<', '\\', '/'])
}

proof fn lemma_rewrite_close(t: Seq<char>)
    ensures
        forall|i: int|
            0 <= i && i + 1 < rewritten(t).len() ==> !(#[trigger] rewritten(t)[i] == '<' && rewritten(
                t,
            )[i + 1] == '/'),
        rewritten(t).len() > 0 && rewritten(t)[0] == '/' ==> t.len() > 0 && t[0] == '/',
    decreases t.len(),
{
    let pat = seq!['<', '/'];
    let rep = seq!['<', '\\', '/'];
    let r = rewritten(t);
    if t.len() > 0 {
        if crate::text::starts_with(t, pat) {
            let t1 = t.skip(2);
            lemma_rewrite_close(t1);
            let r1 = rewritten(t1);
            assert(r == rep + r1);
            assert forall|i: int| 0 <= i && i + 1 < r.len() implies !(#[trigger] r[i] == '<' && r[i + 1]
                == '/') by {
                if i >= 3 {
                    assert(r[i] == r1[i - 3] && r[i + 1] == r1[i - 2]);
                }
            }
        } else {
            let t1 = t.skip(1);
            lemma_rewrite_close(t1);
            let r1 = rewritten(t1);
            assert(r == seq![t[0]] + r1);
            assert forall|i: int| 0 <= i && i + 1 < r.len() implies !(#[trigger] r[i] == '<' && r[i + 1]
                == '/') by {
                if i == 0 {
                    if t[0] == '<' && r[1] == '/' {
                        assert(r1[0] == '/');
                        assert(t1[0] == '/');
                        assert(t.take(2) =~= pat);
                    }
                } else {
                    assert(r[i] == r1[i - 1] && r[i + 1] == r1[i]);
                }
            }
        }
    }
}

/// The host data embedded in the page's script, once each `</` in it is
/// written `<\/`, holds no `</`: whatever the data, it cannot close the
/// script element.
pub proof fn lemma_script_data_closes_nothing(json: Seq<char>)
    ensures
        !crate::text::contains(replace_all(json, "</"@, "<\\/"@), "</"@),
{
    reveal_strlit("</");
    reveal_strlit("<\\/");
    assert("</"@ =~= seq!['<', '/']);
    assert("<\\/"@ =~= seq!['<', '\\', '/']);
    let r = rewritten(json);
    lemma_rewrite_close(json);
    if crate::text::contains(r, "</"@) {
        let i = choose|i: int| crate::text::occurs_at(r, "</"@, i);
        assert(r.subrange(i, i + 2)[0] == r[i]);
        assert(r.subrange(i, i + 2)[1] == r[i + 1]);
    }
}

/// The page's script with the chart data in place.
pub open spec fn script_spec(f: PageFacts, hs: Seq<HostView>) -> Seq<char> {
    let sev = severity_keys(hs);
    let tv = top(vendor_keys(hs), TOP_VENDORS as nat);
    let tp = top(port_keys(hs), TOP_PORTS as nat);
    let data = replace_all(f.hosts_json@, "</"@, "<\\/"@);
    let s0 = replace_all(crate::templates::SCRIPT_TEMPLATE@, "__DATA__"@, data);
    let s1 = replace_all(s0, "__VENDOR_LABELS__"@, join(escaped_keys(tv), "|"@));
    let s2 = replace_all(s1, "__VENDOR_VALS__"@, join(count_texts(tv), ","@));
    let s3 = replace_all(s2, "__PORT_LABELS__"@, join(plain_keys(tp), ","@));
    let s4 = replace_all(s3, "__PORT_VALS__"@, join(count_texts(tp), ","@));
    let s5 = replace_all(s4, "__SEV_CRIT__"@, dec(count_of(sev, "critica"@)));
    let s6 = replace_all(s5, "__SEV_ALTA__"@, dec(count_of(sev, "alta"@)));
    let s7 = replace_all(s6, "__SEV_MEDIA__"@, dec(count_of(sev, "media"@)));
    replace_all(s7, "__SEV_BAJA__"@, dec(count_of(sev, "baja"@)))
}

/// The whole report page.
pub open spec fn report_html_spec(f: PageFacts, hs: Seq<HostView>) -> Seq<char> {
    fill(crate::templates::PAGE_TEMPLATE@, page_args(f, hs)) + script_spec(f, hs)
}

fn joined(pieces: &Vec<Vec<char>>, sep: &str) -> (r: String)
    ensures
        r@ == join(pieces@.map_values(|p: Vec<char>| p@), sep@),
{
    let s = chars_of(sep);
    string_from_chars(&join_chars(pieces, &s))
}

fn common_ports_text() -> (r: String)
    ensures
        r@ == join(common_port_texts(), ", "@),
{
    let ports = crate::scanner::common_ports();
    let mut pieces: Vec<Vec<char>> = Vec::new();
    let mut i: usize = 0;
    while i < ports.len()
        invariant
            i <= ports.len(),
            ports@ == crate::scanner::common_ports_spec(),
            pieces@.map_values(|p: Vec<char>| p@) == ports@.take(i as int).map_values(
                |p: u16| dec(p as nat),
            ),
        decreases ports.len() - i,
    {
        let ghost pv = pieces@.map_values(|p: Vec<char>| p@);
        pieces.push(crate::text::decimal(ports[i] as u128));
        assert(pieces@.map_values(|p: Vec<char>| p@) =~= pv.push(dec(ports@[i as int] as nat)));
        assert(ports@.take(i + 1).map_values(|p: u16| dec(p as nat)) =~= ports@.take(i as int).map_values(
            |p: u16| dec(p as nat),
        ).push(dec(ports@[i as int] as nat)));
        i += 1;
    }
    assert(ports@.take(ports.len() as int) =~= ports@);
    joined(&pieces, ", ")
}

/// The report page: the page template filled with the facts and the hosts,
/// then the chart script with its data.
pub fn render_report(f: &PageFacts, hosts: &Vec<HostInfo>) -> (r: String)
    ensures
        r@ == report_html_spec(*f, host_views(hosts@)),
{
    let ghost hv = host_views(hosts@);
    let (vendor_k, port_k, sev_k) = chart_keys(hosts);
    let top_v = top_keys(&vendor_k, TOP_VENDORS);
    let top_p = top_keys(&port_k, TOP_PORTS);
    let crit = count_key(&sev_k, "critica");
    let alta = count_key(&sev_k, "alta");
    let media = count_key(&sev_k, "media");
    let baja = count_key(&sev_k, "baja");
    let subnet = text_or(&f.local_subnet, "no detectada");
    let cores = match f.cores_physical {
        Some(c) => c,
        None => 0,
    };
    let args = vec![
        f.generated_at.clone(),
        html_escape(subnet.as_str()),
        decimal_string(f.total_hosts_alive as u128),
        decimal_string(f.total_vulnerabilities as u128),
        f.duration_secs.clone(),
        decimal_string(f.total_hosts_alive as u128),
        decimal_string(f.total_vulnerabilities as u128),
        decimal_string(top_v.len() as u128),
        decimal_string(top_p.len() as u128),
        html_escape(f.hostname.as_str()),
        html_escape(f.os_name.as_str()),
        html_escape(f.os_version.as_str()),
        html_escape(f.kernel_version.as_str()),
        html_escape(f.cpu_brand.as_str()),
        decimal_string(cores as u128),
        decimal_string(f.cores_logical as u128),
        decimal_string(f.frequency_mhz as u128),
        html_escape(f.cpu_vendor.as_str()),
        f.mem_used_gb.clone(),
        f.mem_total_gb.clone(),
        f.mem_available_gb.clone(),
        decimal_string(f.uptime_secs as u128),
        f.load_one.clone(),
        f.load_five.clone(),
        f.load_fifteen.clone(),
        decimal_string(f.sensors.len() as u128),
        decimal_string(crit as u128),
        decimal_string(alta as u128),
        decimal_string(media as u128),
        decimal_string(baja as u128),
        disks_html(&f.disks),
        interfaces_html(&f.interfaces),
        sensors_html(&f.sensors),
        decimal_string(hosts.len() as u128),
        decimal_string(f.total_vulnerabilities as u128),
        decimal_string(f.oui_count as u128),
        decimal_string(f.cve_count as u128),
        hosts_rows(hosts),
        common_ports_text(),
    ];
    assert(args.deep_view() =~= page_args(*f, hv));
    let page = fill_template(crate::templates::PAGE_TEMPLATE, &args);
    let (v_esc, _v_plain, v_counts) = tally_texts(&top_v);
    let (_p_esc, p_plain, p_counts) = tally_texts(&top_p);
    proof {
        reveal_strlit("</");
        reveal_strlit("__DATA__");
        reveal_strlit("__VENDOR_LABELS__");
        reveal_strlit("__VENDOR_VALS__");
        reveal_strlit("__PORT_LABELS__");
        reveal_strlit("__PORT_VALS__");
        reveal_strlit("__SEV_CRIT__");
        reveal_strlit("__SEV_ALTA__");
        reveal_strlit("__SEV_MEDIA__");
        reveal_strlit("__SEV_BAJA__");
    }
    let data = replace_str(f.hosts_json.as_str(), "</", "<\\/");
    let s0 = replace_str(crate::templates::SCRIPT_TEMPLATE, "__DATA__", data.as_str());
    let vl = joined(&v_esc, "|");
    let s1 = replace_str(s0.as_str(), "__VENDOR_LABELS__", vl.as_str());
    let vv = joined(&v_counts, ",");
    let s2 = replace_str(s1.as_str(), "__VENDOR_VALS__", vv.as_str());
    let pl = joined(&p_plain, ",");
    let s3 = replace_str(s2.as_str(), "__PORT_LABELS__", pl.as_str());
    let pv = joined(&p_counts, ",");
    let s4 = replace_str(s3.as_str(), "__PORT_VALS__", pv.as_str());
    let c = decimal_string(crit as u128);
    let s5 = replace_str(s4.as_str(), "__SEV_CRIT__", c.as_str());
    let a = decimal_string(alta as u128);
    let s6 = replace_str(s5.as_str(), "__SEV_ALTA__", a.as_str());
    let m = decimal_string(media as u128);
    let s7 = replace_str(s6.as_str(), "__SEV_MEDIA__", m.as_str());
    let b = decimal_string(baja as u128);
    let script = replace_str(s7.as_str(), "__SEV_BAJA__", b.as_str());
    let mut html = page;
    crate::text::push_str(&mut html, script.as_str());
    html
}

} // verus!

verus! {

// ---------------------------------------------------------------------------
// Totals and the console
// ---------------------------------------------------------------------------

/// The number of findings over all hosts.
pub open spec fn vuln_total(hs: Seq<HostView>) -> nat
    decreases hs.len(),
{
    if hs.len() == 0 {
        0
    } else {
        vuln_total(hs.drop_last()) + hs.last().vulnerabilities.len()
    }
}

proof fn lemma_vuln_total_mono(hs: Seq<HostView>, i: int)
    requires
        0 <= i <= hs.len(),
    ensures
        vuln_total(hs.take(i)) <= vuln_total(hs),
    decreases hs.len() - i,
{
    if i < hs.len() {
        lemma_vuln_total_mono(hs, i + 1);
        assert(hs.take(i + 1).drop_last() =~= hs.take(i));
    } else {
        assert(hs.take(i) =~= hs);
    }
}

/// The number of findings over all hosts (which must fit in a `usize`).
pub fn count_vulnerabilities(hosts: &Vec<HostInfo>) -> (r: usize)
    requires
        vuln_total(host_views(hosts@)) <= usize::MAX,
    ensures
        r == vuln_total(host_views(hosts@)),
{
    let ghost hv = host_views(hosts@);
    let mut total: usize = 0;
    let mut i: usize = 0;
    while i < hosts.len()
        invariant
            i <= hosts.len(),
            hv == host_views(hosts@),
            vuln_total(hv) <= usize::MAX,
            total == vuln_total(hv.take(i as int)),
        decreases hosts.len() - i,
    {
        assert(hv.take(i + 1).drop_last() =~= hv.take(i as int));
        assert(hv[i as int] == hosts@[i as int]@);
        proof {
            lemma_vuln_total_mono(hv, i + 1);
        }
        total = total + hosts[i].vulnerabilities.len();
        i += 1;
    }
    assert(hv.take(i as int) =~= hv);
    total
}

/// A port as the console lists it: number and service name.
pub open spec fn console_port(p: PortResult) -> Seq<char> {
    let svc = match p.service_hint {
        Some(s) => fill("({})"@, seq![s@]),
        None => Seq::empty(),
    };
    dec(p.port as nat) + svc
}

/// The ports as the console lists them, in order.
pub open spec fn console_ports(s: Seq<PortResult>) -> Seq<Seq<char>>
    decreases s.len(),
{
    if s.len() == 0 {
        Seq::empty()
    } else {
        console_ports(s.drop_last()).push(console_port(s.last()))
    }
}

/// The findings as the console lists them, in order: CVE and severity.
pub open spec fn console_vulns(s: Seq<Finding>) -> Seq<Seq<char>>
    decreases s.len(),
{
    if s.len() == 0 {
        Seq::empty()
    } else {
        console_vulns(s.drop_last()).push(fill("{}({})"@, seq![s.last().cve@, s.last().severity@]))
    }
}

/// The console line of a host.
pub open spec fn console_line_spec(h: HostView) -> Seq<char> {
    let ports = if h.open_ports.len() == 0 {
        "ninguno"@
    } else {
        join(console_ports(h.open_ports), ", "@)
    };
    let vulns = if h.vulnerabilities.len() == 0 {
        Seq::empty()
    } else {
        fill(" | vulns: {}"@, seq![join(console_vulns(h.vulnerabilities), ", "@)])
    };
    let mdns = if h.mdns_names.len() == 0 {
        Seq::empty()
    } else {
        fill(" | mdns: {}"@, seq![join(h.mdns_names, ","@)])
    };
    let ssdp = match h.ssdp_location {
        Some(s) => fill(" | ssdp: {}"@, seq![s]),
        None => Seq::empty(),
    };
    let latency = match h.latency_ms {
        Some(v) => dec(v as nat),
        None => "-"@,
    };
    fill(
        "  - {} {} | MAC {} | vendor {} | {} ms | puertos: {}{}{}{}"@,
        seq![
            h.ip,
            opt_or(h.hostname, Seq::empty()),
            opt_or(h.mac, "-"@),
            opt_or(h.vendor, "-"@),
            latency,
            ports,
            vulns,
            mdns,
            ssdp,
        ],
    )
}

fn console_ports_text(ps: &Vec<PortResult>) -> (r: String)
    ensures
        r@ == join(console_ports(ps@), ", "@),
{
    let mut pieces: Vec<Vec<char>> = Vec::new();
    let mut i: usize = 0;
    while i < ps.len()
        invariant
            i <= ps.len(),
            pieces@.map_values(|p: Vec<char>| p@) == console_ports(ps@.take(i as int)),
        decreases ps.len() - i,
    {
        let ghost pv = pieces@.map_values(|p: Vec<char>| p@);
        let p = &ps[i];
        let mut t = decimal_string(p.port as u128);
        match &p.service_hint {
            Some(s) => {
                let a = vec![s.clone()];
                assert(a.deep_view() =~= seq![s@]);
                let svc = fill_template("({})", &a);
                crate::text::push_str(&mut t, svc.as_str());
            },
            None => {
                assert(t@ + Seq::<char>::empty() =~= t@);
            },
        }
        pieces.push(chars_of(t.as_str()));
        assert(ps@.take(i + 1).drop_last() =~= ps@.take(i as int));
        assert(pieces@.map_values(|p: Vec<char>| p@) =~= pv.push(console_port(ps@[i as int])));
        i += 1;
    }
    assert(ps@.take(ps.len() as int) =~= ps@);
    joined(&pieces, ", ")
}

fn console_vulns_text(fs: &Vec<Finding>) -> (r: String)
    ensures
        r@ == join(console_vulns(fs@), ", "@),
{
    let mut pieces: Vec<Vec<char>> = Vec::new();
    let mut i: usize = 0;
    while i < fs.len()
        invariant
            i <= fs.len(),
            pieces@.map_values(|p: Vec<char>| p@) == console_vulns(fs@.take(i as int)),
        decreases fs.len() - i,
    {
        let ghost pv = pieces@.map_values(|p: Vec<char>| p@);
        let f = &fs[i];
        let a = vec![f.cve.clone(), f.severity.clone()];
        assert(a.deep_view() =~= seq![f.cve@, f.severity@]);
        let t = fill_template("{}({})", &a);
        pieces.push(chars_of(t.as_str()));
        assert(fs@.take(i + 1).drop_last() =~= fs@.take(i as int));
        assert(pieces@.map_values(|p: Vec<char>| p@) =~= pv.push(fill("{}({})"@, seq![fs@[i as int].cve@, fs@[i as int].severity@])));
        i += 1;
    }
    assert(fs@.take(fs.len() as int) =~= fs@);
    joined(&pieces, ", ")
}

fn joined_strings(v: &Vec<String>, sep: &str) -> (r: String)
    ensures
        r@ == join(v.deep_view(), sep@),
{
    let ghost vv = v.deep_view();
    let mut pieces: Vec<Vec<char>> = Vec::new();
    let mut i: usize = 0;
    while i < v.len()
        invariant
            i <= v.len(),
            vv == v.deep_view(),
            pieces@.map_values(|p: Vec<char>| p@) == vv.take(i as int),
        decreases v.len() - i,
    {
        let ghost pv = pieces@.map_values(|p: Vec<char>| p@);
        pieces.push(chars_of(v[i].as_str()));
        assert(vv[i as int] == v@[i as int]@);
        assert(pieces@.map_values(|p: Vec<char>| p@) =~= pv.push(vv[i as int]));
        assert(vv.take(i + 1) =~= vv.take(i as int).push(vv[i as int]));
        i += 1;
    }
    assert(vv.take(v.len() as int) =~= vv);
    joined(&pieces, sep)
}

/// The line that the console prints for a host.
pub fn console_line(h: &HostInfo) -> (r: String)
    ensures
        r@ == console_line_spec(h@),
{
    let ports = if h.open_ports.len() == 0 {
        to_owned_string("ninguno")
    } else {
        console_ports_text(&h.open_ports)
    };
    let vulns = if h.vulnerabilities.len() == 0 {
        String::new()
    } else {
        let a = vec![console_vulns_text(&h.vulnerabilities)];
        assert(a.deep_view() =~= seq![join(console_vulns(h.vulnerabilities@), ", "@)]);
        fill_template(" | vulns: {}", &a)
    };
    let mdns = if h.mdns_names.len() == 0 {
        String::new()
    } else {
        let a = vec![joined_strings(&h.mdns_names, ",")];
        assert(a.deep_view() =~= seq![join(h.mdns_names.deep_view(), ","@)]);
        fill_template(" | mdns: {}", &a)
    };
    let ssdp = match &h.ssdp_location {
        Some(s) => {
            let a = vec![s.clone()];
            assert(a.deep_view() =~= seq![s@]);
            fill_template(" | ssdp: {}", &a)
        },
        None => String::new(),
    };
    let latency = match h.latency_ms {
        Some(v) => decimal_string(v),
        None => to_owned_string("-"),
    };
    proof {
        reveal_strlit("");
    }
    let ghost vals = seq![
        h@.ip,
        opt_or(h@.hostname, Seq::empty()),
        opt_or(h@.mac, "-"@),
        opt_or(h@.vendor, "-"@),
        latency@,
        ports@,
        vulns@,
        mdns@,
        ssdp@,
    ];
    let args = vec![
        h.ip.clone(),
        text_or(&h.hostname, ""),
        text_or(&h.mac, "-"),
        text_or(&h.vendor, "-"),
        latency,
        ports,
        vulns,
        mdns,
        ssdp,
    ];
    assert(""@ =~= Seq::<char>::empty());
    assert(args.deep_view() =~= vals);
    fill_template("  - {} {} | MAC {} | vendor {} | {} ms | puertos: {}{}{}{}", &args)
}

} // verus!

verus! {

// ---------------------------------------------------------------------------
// Laws of the totals and the severity counts
// ---------------------------------------------------------------------------

/// The total of findings adds up over hosts, and one host's total is its
/// number of findings: the total is the number of findings over all hosts.
pub proof fn lemma_vuln_total(a: Seq<HostView>, b: Seq<HostView>, h: HostView)
    ensures
        vuln_total(seq![h]) == h.vulnerabilities.len(),
        vuln_total(a + b) == vuln_total(a) + vuln_total(b),
        vuln_total(Seq::<HostView>::empty()) == 0,
    decreases b.len(),
{
    assert(seq![h].drop_last() =~= Seq::<HostView>::empty());
    assert(seq![h].last() == h);
    assert(vuln_total(seq![h].drop_last()) == 0);
    if b.len() > 0 {
        lemma_vuln_total(a, b.drop_last(), h);
        assert((a + b).drop_last() =~= a + b.drop_last());
    } else {
        assert(a + b =~= a);
    }
}

/// A finding has severity `s`.
pub open spec fn has_severity(s: Seq<char>) -> spec_fn(Finding) -> bool {
    |f: Finding| f.severity@ == s
}

/// The number of findings over all hosts whose severity is exactly `s`.
pub open spec fn severity_total(hs: Seq<HostView>, s: Seq<char>) -> nat
    decreases hs.len(),
{
    if hs.len() == 0 {
        0
    } else {
        severity_total(hs.drop_last(), s) + hs.last().vulnerabilities.filter(has_severity(s)).len()
    }
}

proof fn lemma_count_of_concat(a: Seq<Seq<char>>, b: Seq<Seq<char>>, k: Seq<char>)
    ensures
        count_of(a + b, k) == count_of(a, k) + count_of(b, k),
    decreases b.len(),
{
    if b.len() > 0 {
        lemma_count_of_concat(a, b.drop_last(), k);
        assert((a + b).drop_last() =~= a + b.drop_last());
    } else {
        assert(a + b =~= a);
    }
}

proof fn lemma_count_of_severities(fs: Seq<Finding>, k: Seq<char>)
    ensures
        count_of(severities(fs), k) == fs.filter(has_severity(k)).len(),
    decreases fs.len(),
{
    reveal(Seq::filter);
    if fs.len() > 0 {
        lemma_count_of_severities(fs.drop_last(), k);
        assert(severities(fs).drop_last() =~= severities(fs.drop_last()));
    }
}

proof fn lemma_count_of_severity_keys(hs: Seq<HostView>, k: Seq<char>)
    ensures
        count_of(severity_keys(hs), k) == severity_total(hs, k),
    decreases hs.len(),
{
    if hs.len() > 0 {
        lemma_count_of_severity_keys(hs.drop_last(), k);
        lemma_count_of_concat(severity_keys(hs.drop_last()), severities(hs.last().vulnerabilities), k);
        lemma_count_of_severities(hs.last().vulnerabilities, k);
    }
}

/// The page's script with the host data and the charts in place, before
/// the severity counts.
pub open spec fn script_charts(f: PageFacts, hs: Seq<HostView>) -> Seq<char> {
    let tv = top(vendor_keys(hs), TOP_VENDORS as nat);
    let tp = top(port_keys(hs), TOP_PORTS as nat);
    let data = replace_all(f.hosts_json@, "</"@, "<\\/"@);
    let s0 = replace_all(crate::templates::SCRIPT_TEMPLATE@, "__DATA__"@, data);
    let s1 = replace_all(s0, "__VENDOR_LABELS__"@, join(escaped_keys(tv), "|"@));
    let s2 = replace_all(s1, "__VENDOR_VALS__"@, join(count_texts(tv), ","@));
    let s3 = replace_all(s2, "__PORT_LABELS__"@, join(plain_keys(tp), ","@));
    replace_all(s3, "__PORT_VALS__"@, join(count_texts(tp), ","@))
}

/// The severity badges and the script's severity values count the findings
/// over all hosts by their exact severity: the critical, high, medium and
/// low badges (in that order among the page's values) and `__SEV_CRIT__`,
/// `__SEV_ALTA__`, `__SEV_MEDIA__`, `__SEV_BAJA__` hold the numbers of
/// findings whose severity is `critica`, `alta`, `media` and `baja`.
pub proof fn lemma_severity_counts(f: PageFacts, hs: Seq<HostView>)
    ensures
        page_args(f, hs)[26] == dec(severity_total(hs, "critica"@)),
        page_args(f, hs)[27] == dec(severity_total(hs, "alta"@)),
        page_args(f, hs)[28] == dec(severity_total(hs, "media"@)),
        page_args(f, hs)[29] == dec(severity_total(hs, "baja"@)),
        script_spec(f, hs) == replace_all(
            replace_all(
                replace_all(
                    replace_all(
                        script_charts(f, hs),
                        "__SEV_CRIT__"@,
                        dec(severity_total(hs, "critica"@)),
                    ),
                    "__SEV_ALTA__"@,
                    dec(severity_total(hs, "alta"@)),
                ),
                "__SEV_MEDIA__"@,
                dec(severity_total(hs, "media"@)),
            ),
            "__SEV_BAJA__"@,
            dec(severity_total(hs, "baja"@)),
        ),
{
    lemma_count_of_severity_keys(hs, "critica"@);
    lemma_count_of_severity_keys(hs, "alta"@);
    lemma_count_of_severity_keys(hs, "media"@);
    lemma_count_of_severity_keys(hs, "baja"@);
}

} // verus!
