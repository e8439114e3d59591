//! Character-level text model used by every parser and renderer of the crate.
//!
//! Strings are modelled by their views (`Seq<char>`); each executable helper
//! here is proved against a short recursive definition.
use vstd::prelude::*;

verus! {

// ---------------------------------------------------------------------------
// Specifications
// ---------------------------------------------------------------------------

/// Unicode `White_Space` code points (what `char::is_whitespace` accepts).
pub open spec fn is_ws(c: char) -> bool {
    let u = c as u32;
    ||| (0x09 <= u && u <= 0x0D)
    ||| u == 0x20
    ||| u == 0x85
    ||| u == 0xA0
    ||| u == 0x1680
    ||| (0x2000 <= u && u <= 0x200A)
    ||| u == 0x2028
    ||| u == 0x2029
    ||| u == 0x202F
    ||| u == 0x205F
    ||| u == 0x3000
}

/// `p` is a prefix of `s`.
pub open spec fn starts_with(s: Seq<char>, p: Seq<char>) -> bool {
    p.len() <= s.len() && s.take(p.len() as int) == p
}

/// `p` is a suffix of `s`.
pub open spec fn ends_with(s: Seq<char>, p: Seq<char>) -> bool {
    p.len() <= s.len() && s.skip(s.len() - p.len()) == p
}

/// `needle` occurs in `s` at position `i`.
pub open spec fn occurs_at(s: Seq<char>, needle: Seq<char>, i: int) -> bool {
    0 <= i && i + needle.len() <= s.len() && s.subrange(i, i + needle.len()) == needle
}

/// `needle` occurs somewhere in `s` (the empty needle occurs in every string).
pub open spec fn contains(s: Seq<char>, needle: Seq<char>) -> bool {
    exists|i: int| occurs_at(s, needle, i)
}

/// `c` occurs in `s`.
pub open spec fn has_char(s: Seq<char>, c: char) -> bool {
    exists|i: int| 0 <= i < s.len() && s[i] == c
}

/// Leftmost, non-overlapping replacement of every occurrence of `pat` by `rep`.
pub open spec fn replace_all(s: Seq<char>, pat: Seq<char>, rep: Seq<char>) -> Seq<char>
    decreases s.len(),
{
    if s.len() == 0 {
        Seq::empty()
    } else if pat.len() > 0 && starts_with(s, pat) {
        rep + replace_all(s.skip(pat.len() as int), pat, rep)
    } else {
        seq![s[0]] + replace_all(s.skip(1), pat, rep)
    }
}

/// The pieces of `s` between occurrences of the separator `c`
/// (always at least one piece).
pub open spec fn split_on(s: Seq<char>, c: char) -> Seq<Seq<char>>
    decreases s.len(),
{
    if s.len() == 0 {
        seq![Seq::<char>::empty()]
    } else {
        let prev = split_on(s.drop_last(), c);
        if s.last() == c {
            prev.push(Seq::empty())
        } else {
            prev.update(prev.len() - 1, prev.last().push(s.last()))
        }
    }
}

/// The pieces joined with `sep` between consecutive pieces.
pub open spec fn join(pieces: Seq<Seq<char>>, sep: Seq<char>) -> Seq<char>
    decreases pieces.len(),
{
    if pieces.len() == 0 {
        Seq::empty()
    } else if pieces.len() == 1 {
        pieces[0]
    } else {
        join(pieces.drop_last(), sep) + sep + pieces.last()
    }
}

/// The maximal runs of non-whitespace characters of `s`, in order.
pub open spec fn words(s: Seq<char>) -> Seq<Seq<char>>
    decreases s.len(),
{
    if s.len() == 0 {
        Seq::empty()
    } else {
        let w = words(s.drop_last());
        let c = s.last();
        if is_ws(c) {
            w
        } else if s.len() >= 2 && !is_ws(s[s.len() - 2]) {
            w.update(w.len() - 1, w.last().push(c))
        } else {
            w.push(seq![c])
        }
    }
}

/// `s` without its leading whitespace.
pub open spec fn trim_start(s: Seq<char>) -> Seq<char>
    decreases s.len(),
{
    if s.len() > 0 && is_ws(s[0]) {
        trim_start(s.skip(1))
    } else {
        s
    }
}

/// `s` without its trailing whitespace.
pub open spec fn trim_end(s: Seq<char>) -> Seq<char>
    decreases s.len(),
{
    if s.len() > 0 && is_ws(s.last()) {
        trim_end(s.drop_last())
    } else {
        s
    }
}

/// `s` without leading and trailing whitespace.
pub open spec fn trim(s: Seq<char>) -> Seq<char> {
    trim_end(trim_start(s))
}

/// A line ended by `'\n'`, without a `'\r'` just before that end.
pub open spec fn strip_cr(l: Seq<char>) -> Seq<char> {
    if l.len() > 0 && l.last() == '\r' {
        l.drop_last()
    } else {
        l
    }
}

/// The lines of `s`: the pieces between `'\n'`, each of which loses a final
/// `'\r'`; a last piece that no `'\n'` ends is kept only when non-empty.
pub open spec fn lines(s: Seq<char>) -> Seq<Seq<char>> {
    let p = split_on(s, '\n');
    let init = p.take(p.len() - 1).map_values(|l: Seq<char>| strip_cr(l));
    if p.last().len() == 0 {
        init
    } else {
        init.push(p.last())
    }
}

/// `t` with each `{}` replaced by the next argument, in order (by nothing
/// once the arguments run out).
pub open spec fn fill(t: Seq<char>, args: Seq<Seq<char>>) -> Seq<char>
    decreases t.len(),
{
    if t.len() == 0 {
        Seq::empty()
    } else if t.len() >= 2 && t[0] == '{' && t[1] == '}' {
        if args.len() > 0 {
            args[0] + fill(t.skip(2), args.skip(1))
        } else {
            fill(t.skip(2), args)
        }
    } else {
        seq![t[0]] + fill(t.skip(1), args)
    }
}

/// What std's `str::to_lowercase` returns for a string (Unicode case mapping).
pub uninterp spec fn str_to_lowercase(s: Seq<char>) -> Seq<char>;

/// What std's `str::to_uppercase` returns for a string (Unicode case mapping).
pub uninterp spec fn str_to_uppercase(s: Seq<char>) -> Seq<char>;

/// The decimal digit for `d < 10`.
pub open spec fn digit_char(d: nat) -> char {
    if d == 0 { '0' }
    else if d == 1 { '1' }
    else if d == 2 { '2' }
    else if d == 3 { '3' }
    else if d == 4 { '4' }
    else if d == 5 { '5' }
    else if d == 6 { '6' }
    else if d == 7 { '7' }
    else if d == 8 { '8' }
    else { '9' }
}

/// The decimal representation of `n`, without leading zeros.
pub open spec fn dec(n: nat) -> Seq<char>
    decreases n,
{
    if n < 10 {
        seq![digit_char(n)]
    } else {
        dec(n / 10).push(digit_char(n % 10))
    }
}

/// Lexicographic order on character sequences by code point (`a` before or
/// equal to `b`); on UTF-8 text it is the byte order that `String`s compare by.
pub open spec fn seq_le(a: Seq<char>, b: Seq<char>) -> bool
    decreases a.len(),
{
    if a.len() == 0 {
        true
    } else if b.len() == 0 {
        false
    } else if a[0] != b[0] {
        (a[0] as int) < (b[0] as int)
    } else {
        seq_le(a.skip(1), b.skip(1))
    }
}

// ---------------------------------------------------------------------------
// Lemmas
// ---------------------------------------------------------------------------

/// Lexicographic order is total.
pub proof fn lemma_seq_le_total(a: Seq<char>, b: Seq<char>)
    ensures
        seq_le(a, b) || seq_le(b, a),
    decreases a.len(),
{
    if a.len() > 0 && b.len() > 0 && a[0] == b[0] {
        lemma_seq_le_total(a.skip(1), b.skip(1));
    }
}

/// Lexicographic order is transitive.
pub proof fn lemma_seq_le_trans(a: Seq<char>, b: Seq<char>, c: Seq<char>)
    requires
        seq_le(a, b),
        seq_le(b, c),
    ensures
        seq_le(a, c),
    decreases a.len(),
{
    if a.len() > 0 && b.len() > 0 && c.len() > 0 && a[0] == b[0] && b[0] == c[0] {
        lemma_seq_le_trans(a.skip(1), b.skip(1), c.skip(1));
    }
}

/// Lexicographic order is antisymmetric.
pub proof fn lemma_seq_le_antisym(a: Seq<char>, b: Seq<char>)
    requires
        seq_le(a, b),
        seq_le(b, a),
    ensures
        a == b,
    decreases a.len(),
{
    if a.len() > 0 && b.len() > 0 {
        lemma_seq_le_antisym(a.skip(1), b.skip(1));
        assert(a =~= seq![a[0]] + a.skip(1));
        assert(b =~= seq![b[0]] + b.skip(1));
    }
}

/// Strict lexicographic order.
pub open spec fn seq_lt(a: Seq<char>, b: Seq<char>) -> bool {
    seq_le(a, b) && a != b
}

/// Strict lexicographic order is asymmetric and its complement is
/// transitive.
pub proof fn lemma_seq_lt_weak_order(x: Seq<char>, y: Seq<char>, z: Seq<char>)
    ensures
        seq_lt(x, y) ==> !seq_lt(y, x),
        !seq_lt(x, y) && !seq_lt(y, z) ==> !seq_lt(x, z),
{
    if seq_lt(x, y) && seq_lt(y, x) {
        lemma_seq_le_antisym(x, y);
    }
    if !seq_lt(x, y) && !seq_lt(y, z) && seq_lt(x, z) {
        lemma_seq_le_total(x, y);
        lemma_seq_le_total(y, z);
        lemma_seq_le_refl(x);
        lemma_seq_le_refl(y);
        if x != y {
            assert(seq_le(y, x));
        }
        if y != z {
            assert(seq_le(z, y));
        }
        lemma_seq_le_trans(z, y, x);
        lemma_seq_le_antisym(x, z);
    }
}

/// Lexicographic order is reflexive.
pub proof fn lemma_seq_le_refl(a: Seq<char>)
    ensures
        seq_le(a, a),
    decreases a.len(),
{
    if a.len() > 0 {
        lemma_seq_le_refl(a.skip(1));
    }
}

// ---------------------------------------------------------------------------
// Executable helpers
// ---------------------------------------------------------------------------

/// The characters of `s`, in order.
pub fn chars_of(s: &str) -> (v: Vec<char>)
    ensures
        v@ == s@,
{
    let mut v: Vec<char> = Vec::new();
    for c in it: s.chars()
        invariant
            it.seq() == s@,
            v@ == s@.take(it.index() as int),
    {
        assert(s@.take(it.index() as int).push(c) =~= s@.take(it.index() + 1));
        v.push(c);
    }
    assert(s@.take(s@.len() as int) =~= s@);
    v
}

/// Every character is ASCII.
pub open spec fn all_ascii(s: Seq<char>) -> bool {
    forall|i: int| 0 <= i < s.len() ==> (#[trigger] s[i] as u32) < 128
}

/// The ASCII upper case of a character: `a`–`z` become `A`–`Z`.
pub open spec fn ascii_upper_char(c: char) -> char {
    if 'a' <= c && c <= 'z' {
        ((c as u32) - 32) as char
    } else {
        c
    }
}

/// A text with `a`–`z` made `A`–`Z`, character by character.
pub open spec fn ascii_upper(s: Seq<char>) -> Seq<char> {
    s.map_values(|c: char| ascii_upper_char(c))
}

/// The upper case of a text, as std's `str::to_uppercase` gives it: on ASCII
/// text, `a`–`z` become `A`–`Z`; otherwise the named Unicode mapping.
pub open spec fn upper_text(s: Seq<char>) -> Seq<char> {
    if all_ascii(s) {
        ascii_upper(s)
    } else {
        str_to_uppercase(s)
    }
}

/// std's `str::to_uppercase`: on ASCII text it maps `a`–`z` to `A`–`Z`
/// character by character and leaves the rest (Unicode's uppercase mapping
/// of ASCII, which std documents); on other text the result is the named
/// Unicode uppercase mapping, of which nothing more is stated.
#[verifier::external_body]
pub(crate) fn to_uppercase(s: &str) -> (r: String)
    ensures
        all_ascii(s@) ==> r@ == ascii_upper(s@),
        !all_ascii(s@) ==> r@ == str_to_uppercase(s@),
{
    s.to_uppercase()
}

/// std's `str::to_lowercase`: the result is the named Unicode lowercase
/// mapping of the argument; nothing more of the mapping is stated.
#[verifier::external_body]
pub(crate) fn to_lowercase(s: &str) -> (r: String)
    ensures
        r@ == str_to_lowercase(s@),
{
    s.to_lowercase()
}

/// Appends one character to `s` (std's `String::push`).
#[verifier::external_body]
pub(crate) fn push_char(s: &mut String, c: char)
    ensures
        final(s)@ == old(s)@.push(c),
{
    s.push(c);
}

/// Appends the characters of `v` to `s`.
pub fn push_chars(s: &mut String, v: &Vec<char>)
    ensures
        final(s)@ == old(s)@ + v@,
{
    let ghost s0 = s@;
    let mut i: usize = 0;
    while i < v.len()
        invariant
            i <= v.len(),
            s@ == s0 + v@.take(i as int),
        decreases v.len() - i,
    {
        push_char(s, v[i]);
        assert(s0 + v@.take(i as int).push(v@[i as int]) =~= s0 + v@.take(i + 1));
        i += 1;
    }
    assert(v@.take(v.len() as int) =~= v@);
}

/// Appends `t` to `s`.
pub fn push_str(s: &mut String, t: &str)
    ensures
        final(s)@ == old(s)@ + t@,
{
    let v = chars_of(t);
    push_chars(s, &v);
}

/// Builds a `String` holding exactly the given characters.
pub fn string_from_chars(v: &Vec<char>) -> (s: String)
    ensures
        s@ == v@,
{
    let mut s = String::new();
    push_chars(&mut s, v);
    assert(Seq::<char>::empty() + v@ =~= v@);
    s
}

/// An owned copy of `s`.
pub fn to_owned_string(s: &str) -> (r: String)
    ensures
        r@ == s@,
{
    let v = chars_of(s);
    string_from_chars(&v)
}

/// Whether `a` and `b` hold the same characters.
pub fn chars_eq(a: &Vec<char>, b: &Vec<char>) -> (r: bool)
    ensures
        r == (a@ == b@),
{
    if a.len() != b.len() {
        return false;
    }
    let mut i: usize = 0;
    while i < a.len()
        invariant
            i <= a.len(),
            a.len() == b.len(),
            a@.take(i as int) == b@.take(i as int),
        decreases a.len() - i,
    {
        if a[i] != b[i] {
            return false;
        }
        assert(a@.take(i + 1) =~= a@.take(i as int).push(a@[i as int]));
        assert(b@.take(i + 1) =~= b@.take(i as int).push(b@[i as int]));
        i += 1;
    }
    assert(a@ =~= a@.take(a.len() as int));
    assert(b@ =~= b@.take(b.len() as int));
    true
}

/// Whether `a` and `b` hold the same characters.
pub fn str_eq(a: &str, b: &str) -> (r: bool)
    ensures
        r == (a@ == b@),
{
    let va = chars_of(a);
    let vb = chars_of(b);
    chars_eq(&va, &vb)
}

/// Whether `c` has the Unicode `White_Space` property.
pub fn is_whitespace(c: char) -> (r: bool)
    ensures
        r == is_ws(c),
{
    let u = c as u32;
    (0x09 <= u && u <= 0x0D) || u == 0x20 || u == 0x85 || u == 0xA0 || u == 0x1680 || (0x2000
        <= u && u <= 0x200A) || u == 0x2028 || u == 0x2029 || u == 0x202F || u == 0x205F || u
        == 0x3000
}

/// Whether `needle` occurs in `hay` at position `i`.
pub fn occurs_at_exec(hay: &Vec<char>, needle: &Vec<char>, i: usize) -> (r: bool)
    ensures
        r == occurs_at(hay@, needle@, i as int),
{
    if i > hay.len() || needle.len() > hay.len() - i {
        return false;
    }
    let mut j: usize = 0;
    while j < needle.len()
        invariant
            j <= needle.len(),
            i + needle.len() <= hay.len(),
            forall|k: int| 0 <= k < j ==> hay@[i + k] == needle@[k],
        decreases needle.len() - j,
    {
        if hay[i + j] != needle[j] {
            assert(hay@.subrange(i as int, i + needle.len())[j as int] != needle@[j as int]);
            return false;
        }
        j += 1;
    }
    assert(hay@.subrange(i as int, i + needle.len()) =~= needle@);
    true
}

/// Whether `needle` occurs anywhere in `hay`.
pub fn contains_chars(hay: &Vec<char>, needle: &Vec<char>) -> (r: bool)
    ensures
        r == contains(hay@, needle@),
{
    if needle.len() > hay.len() {
        assert forall|i: int| !occurs_at(hay@, needle@, i) by {}
        return false;
    }
    let last = hay.len() - needle.len();
    let mut i: usize = 0;
    loop
        invariant
            last == hay.len() - needle.len(),
            i <= last,
            forall|k: int| 0 <= k < i ==> !occurs_at(hay@, needle@, k),
        decreases last - i,
    {
        if occurs_at_exec(hay, needle, i) {
            return true;
        }
        if i == last {
            assert forall|k: int| !occurs_at(hay@, needle@, k) by {
                if 0 <= k <= i {
                }
            }
            return false;
        }
        i += 1;
    }
}

/// Whether `c` occurs in `s`.
pub fn has_char_exec(s: &Vec<char>, c: char) -> (r: bool)
    ensures
        r == has_char(s@, c),
{
    let mut i: usize = 0;
    while i < s.len()
        invariant
            i <= s.len(),
            forall|k: int| 0 <= k < i ==> s@[k] != c,
        decreases s.len() - i,
    {
        if s[i] == c {
            return true;
        }
        i += 1;
    }
    false
}

/// Whether `s` begins with `p`.
pub fn starts_with_chars(s: &Vec<char>, p: &Vec<char>) -> (r: bool)
    ensures
        r == starts_with(s@, p@),
{
    let r = occurs_at_exec(s, p, 0);
    proof {
        if p@.len() <= s@.len() {
            assert(s@.subrange(0, p@.len() as int) =~= s@.take(p@.len() as int));
        }
    }
    r
}

/// Whether `s` ends with `p`.
pub fn ends_with_chars(s: &Vec<char>, p: &Vec<char>) -> (r: bool)
    ensures
        r == ends_with(s@, p@),
{
    if p.len() > s.len() {
        return false;
    }
    let start = s.len() - p.len();
    let r = occurs_at_exec(s, p, start);
    assert(s@.subrange(start as int, start + p@.len()) =~= s@.skip(s@.len() - p@.len()));
    r
}

/// Replaces every occurrence of `pat` (non-empty) by `rep`, leftmost first.
pub fn replace_chars(s: &Vec<char>, pat: &Vec<char>, rep: &Vec<char>) -> (r: Vec<char>)
    requires
        pat@.len() > 0,
    ensures
        r@ == replace_all(s@, pat@, rep@),
{
    let mut out: Vec<char> = Vec::new();
    let mut i: usize = 0;
    assert(s@.skip(0) =~= s@);
    assert(out@ + replace_all(s@, pat@, rep@) =~= replace_all(s@, pat@, rep@));
    while i < s.len()
        invariant
            i <= s.len(),
            pat@.len() > 0,
            out@ + replace_all(s@.skip(i as int), pat@, rep@) == replace_all(s@, pat@, rep@),
        decreases s.len() - i,
    {
        let ghost rest = s@.skip(i as int);
        if occurs_at_exec(s, pat, i) {
            assert(s@.subrange(i as int, i + pat@.len()) =~= rest.take(pat@.len() as int));
            assert(rest.skip(pat@.len() as int) =~= s@.skip(i + pat@.len()));
            let mut j: usize = 0;
            let ghost out0 = out@;
            while j < rep.len()
                invariant
                    j <= rep.len(),
                    out@ == out0 + rep@.take(j as int),
                decreases rep.len() - j,
            {
                out.push(rep[j]);
                assert(out0 + rep@.take(j as int).push(rep@[j as int]) =~= out0 + rep@.take(
                    j + 1,
                ));
                j += 1;
            }
            assert(rep@.take(rep.len() as int) =~= rep@);
            assert(out0 + (rep@ + replace_all(s@.skip(i + pat@.len()), pat@, rep@)) =~= out@
                + replace_all(s@.skip(i + pat@.len()), pat@, rep@));
            i = i + pat.len();
        } else {
            proof {
                if starts_with(rest, pat@) {
                    assert(s@.subrange(i as int, i + pat@.len()) =~= rest.take(
                        pat@.len() as int,
                    ));
                }
            }
            assert(rest.skip(1) =~= s@.skip(i + 1));
            let ghost out0 = out@;
            out.push(s[i]);
            assert(out0 + (seq![s@[i as int]] + replace_all(s@.skip(i + 1), pat@, rep@)) =~= out@
                + replace_all(s@.skip(i + 1), pat@, rep@));
            i = i + 1;
        }
    }
    assert(s@.skip(s.len() as int) =~= Seq::<char>::empty());
    assert(out@ + Seq::<char>::empty() =~= out@);
    out
}

/// `s` with every occurrence of `pat` (non-empty) replaced by `rep`.
pub fn replace_str(s: &str, pat: &str, rep: &str) -> (r: String)
    requires
        pat@.len() > 0,
    ensures
        r@ == replace_all(s@, pat@, rep@),
{
    let vs = chars_of(s);
    let vp = chars_of(pat);
    let vr = chars_of(rep);
    let out = replace_chars(&vs, &vp, &vr);
    string_from_chars(&out)
}

/// The pieces of `s` between occurrences of `c`.
pub fn split_chars(s: &Vec<char>, c: char) -> (r: Vec<Vec<char>>)
    ensures
        r@.len() >= 1,
        r@.map_values(|p: Vec<char>| p@) == split_on(s@, c),
{
    let mut pieces: Vec<Vec<char>> = Vec::new();
    let mut cur: Vec<char> = Vec::new();
    let mut i: usize = 0;
    while i < s.len()
        invariant
            i <= s.len(),
            pieces@.map_values(|p: Vec<char>| p@).push(cur@) == split_on(s@.take(i as int), c),
        decreases s.len() - i,
    {
        let ghost before = s@.take(i as int);
        assert(s@.take(i + 1).drop_last() =~= before);
        if s[i] == c {
            let done = cur;
            pieces.push(done);
            cur = Vec::new();
            assert(pieces@.map_values(|p: Vec<char>| p@) =~= split_on(before, c));
        } else {
            cur.push(s[i]);
        }
        assert(pieces@.map_values(|p: Vec<char>| p@).push(cur@) =~= split_on(
            s@.take(i + 1),
            c,
        ));
        i += 1;
    }
    assert(s@.take(s.len() as int) =~= s@);
    pieces.push(cur);
    assert(pieces@.map_values(|p: Vec<char>| p@) =~= split_on(s@, c));
    pieces
}

/// The maximal runs of non-whitespace characters of `s`.
pub fn words_of(s: &Vec<char>) -> (r: Vec<Vec<char>>)
    ensures
        r@.map_values(|p: Vec<char>| p@) == words(s@),
{
    let mut out: Vec<Vec<char>> = Vec::new();
    let mut cur: Vec<char> = Vec::new();
    let mut i: usize = 0;
    while i < s.len()
        invariant
            i <= s.len(),
            (if cur@.len() == 0 {
                out@.map_values(|p: Vec<char>| p@)
            } else {
                out@.map_values(|p: Vec<char>| p@).push(cur@)
            }) == words(s@.take(i as int)),
            cur@.len() > 0 ==> i > 0 && !is_ws(s@[i - 1]),
            (i > 0 && !is_ws(s@[i - 1])) ==> cur@.len() > 0,
        decreases s.len() - i,
    {
        let ghost before = s@.take(i as int);
        assert(s@.take(i + 1).drop_last() =~= before);
        let c = s[i];
        if is_whitespace(c) {
            if cur.len() > 0 {
                let done = cur;
                out.push(done);
                cur = Vec::new();
            }
            assert(out@.map_values(|p: Vec<char>| p@) =~= words(s@.take(i + 1)));
        } else {
            let ghost old_out = out@.map_values(|p: Vec<char>| p@);
            let ghost old_cur = cur@;
            cur.push(c);
            proof {
                assert(s@.take(i + 1).last() == c);
                if old_cur.len() == 0 {
                    assert(cur@ =~= seq![c]);
                    assert(words(before) == old_out);
                    assert(words(s@.take(i + 1)) == old_out.push(seq![c]));
                } else {
                    let w = old_out.push(old_cur);
                    assert(words(before) == w);
                    assert(s@.take(i + 1)[i - 1] == s@[i - 1]);
                    assert(w.update(w.len() - 1, w.last().push(c)) =~= old_out.push(cur@));
                }
            }
        }
        i += 1;
    }
    assert(s@.take(s.len() as int) =~= s@);
    if cur.len() > 0 {
        out.push(cur);
    }
    assert(out@.map_values(|p: Vec<char>| p@) =~= words(s@));
    out
}

/// `s` without leading and trailing whitespace.
pub fn trim_chars(s: &Vec<char>) -> (r: Vec<char>)
    ensures
        r@ == trim(s@),
{
    let mut lo: usize = 0;
    assert(s@.skip(0) =~= s@);
    while lo < s.len() && is_whitespace(s[lo])
        invariant
            lo <= s.len(),
            trim_start(s@) == trim_start(s@.skip(lo as int)),
        decreases s.len() - lo,
    {
        assert(s@.skip(lo as int).skip(1) =~= s@.skip(lo + 1));
        lo += 1;
    }
    let ghost t = s@.skip(lo as int);
    assert(trim_start(t) == t);
    let mut hi: usize = s.len();
    while hi > lo && is_whitespace(s[hi - 1])
        invariant
            lo <= hi <= s.len(),
            trim_end(t) == trim_end(s@.subrange(lo as int, hi as int)),
        decreases hi,
    {
        assert(s@.subrange(lo as int, hi as int).drop_last() =~= s@.subrange(
            lo as int,
            hi - 1,
        ));
        hi -= 1;
    }
    let ghost u = s@.subrange(lo as int, hi as int);
    assert(trim_end(u) == u);
    assert(t =~= s@.subrange(lo as int, s.len() as int));
    let mut out: Vec<char> = Vec::new();
    let mut k: usize = lo;
    while k < hi
        invariant
            lo <= k <= hi,
            hi <= s.len(),
            out@ == s@.subrange(lo as int, k as int),
        decreases hi - k,
    {
        out.push(s[k]);
        assert(s@.subrange(lo as int, k + 1) =~= s@.subrange(lo as int, k as int).push(
            s@[k as int],
        ));
        k += 1;
    }
    out
}

/// Fills the `{}` placeholders of `template` with `args`, in order.
pub fn fill_template(template: &str, args: &Vec<String>) -> (r: String)
    ensures
        r@ == fill(template@, args.deep_view()),
{
    let t = chars_of(template);
    let ghost av = args.deep_view();
    let mut out = String::new();
    let mut i: usize = 0;
    let mut a: usize = 0;
    assert(t@.skip(0) =~= t@);
    assert(av.skip(0) =~= av);
    assert(out@ + fill(t@, av) =~= fill(t@, av));
    while i < t.len()
        invariant
            i <= t.len(),
            a <= args.len(),
            av == args.deep_view(),
            av.len() == args.len(),
            out@ + fill(t@.skip(i as int), av.skip(a as int)) == fill(t@, av),
        decreases t.len() - i,
    {
        let ghost rest = t@.skip(i as int);
        let ghost o0 = out@;
        if i + 1 < t.len() && t[i] == '{' && t[i + 1] == '}' {
            assert(rest.skip(2) =~= t@.skip(i + 2));
            if a < args.len() {
                assert(av.skip(a as int)[0] == args@[a as int]@);
                assert(av.skip(a as int).skip(1) =~= av.skip(a + 1));
                push_str(&mut out, args[a].as_str());
                assert(o0 + (av.skip(a as int)[0] + fill(rest.skip(2), av.skip(a + 1))) =~= out@
                    + fill(rest.skip(2), av.skip(a + 1)));
                a += 1;
            } else {
                assert(av.skip(a as int).len() == 0);
            }
            i += 2;
        } else {
            assert(rest.skip(1) =~= t@.skip(i + 1));
            push_char(&mut out, t[i]);
            assert(o0 + (seq![rest[0]] + fill(rest.skip(1), av.skip(a as int))) =~= out@ + fill(
                rest.skip(1),
                av.skip(a as int),
            ));
            i += 1;
        }
    }
    assert(t@.skip(i as int) =~= Seq::<char>::empty());
    assert(out@ + Seq::<char>::empty() =~= out@);
    out
}

/// The lines of `s` (what std's `str::lines` yields).
pub fn lines_of(s: &Vec<char>) -> (r: Vec<Vec<char>>)
    ensures
        r@.map_values(|p: Vec<char>| p@) == lines(s@),
{
    let pieces = split_chars(s, '\n');
    let ghost pv = pieces@.map_values(|p: Vec<char>| p@);
    let n = pieces.len();
    let mut out: Vec<Vec<char>> = Vec::new();
    let mut i: usize = 0;
    while i + 1 < n
        invariant
            n == pieces.len(),
            n >= 1,
            i + 1 <= n,
            pv == pieces@.map_values(|p: Vec<char>| p@),
            out@.map_values(|p: Vec<char>| p@) == pv.take(i as int).map_values(
                |l: Seq<char>| strip_cr(l),
            ),
        decreases n - i,
    {
        let p = &pieces[i];
        let mut line: Vec<char> = Vec::new();
        let m = if p.len() > 0 && p[p.len() - 1] == '\r' { p.len() - 1 } else { p.len() };
        let mut k: usize = 0;
        while k < m
            invariant
                m <= p.len(),
                k <= m,
                line@ == p@.take(k as int),
            decreases m - k,
        {
            line.push(p[k]);
            assert(p@.take(k as int).push(p@[k as int]) =~= p@.take(k + 1));
            k += 1;
        }
        assert(line@ =~= strip_cr(pv[i as int]));
        let ghost old_view = out@.map_values(|p: Vec<char>| p@);
        out.push(line);
        assert(out@.map_values(|p: Vec<char>| p@) =~= old_view.push(strip_cr(pv[i as int])));
        assert(pv.take(i + 1).map_values(|l: Seq<char>| strip_cr(l)) =~= pv.take(i as int).map_values(
            |l: Seq<char>| strip_cr(l),
        ).push(strip_cr(pv[i as int])));
        assert(out@.map_values(|p: Vec<char>| p@) =~= pv.take(i + 1).map_values(
            |l: Seq<char>| strip_cr(l),
        ));
        i += 1;
    }
    assert(pv.take(pv.len() - 1) =~= pv.take(i as int));
    let last = &pieces[n - 1];
    if last.len() > 0 {
        let mut copy: Vec<char> = Vec::new();
        let mut k: usize = 0;
        while k < last.len()
            invariant
                k <= last.len(),
                copy@ == last@.take(k as int),
            decreases last.len() - k,
        {
            copy.push(last[k]);
            assert(last@.take(k as int).push(last@[k as int]) =~= last@.take(k + 1));
            k += 1;
        }
        assert(copy@ =~= last@);
        let ghost old_view = out@.map_values(|p: Vec<char>| p@);
        out.push(copy);
        assert(out@.map_values(|p: Vec<char>| p@) =~= old_view.push(last@));
        assert(out@.map_values(|p: Vec<char>| p@) =~= lines(s@));
    }
    out
}

/// The decimal digit for `d < 10`.
pub fn digit(d: u8) -> (c: char)
    requires
        d < 10,
    ensures
        c == digit_char(d as nat),
{
    if d == 0 { '0' }
    else if d == 1 { '1' }
    else if d == 2 { '2' }
    else if d == 3 { '3' }
    else if d == 4 { '4' }
    else if d == 5 { '5' }
    else if d == 6 { '6' }
    else if d == 7 { '7' }
    else if d == 8 { '8' }
    else { '9' }
}

/// The decimal representation of `n`.
pub fn decimal(n: u128) -> (r: Vec<char>)
    ensures
        r@ == dec(n as nat),
    decreases n,
{
    if n < 10 {
        let d = digit(n as u8);
        vec![d]
    } else {
        let mut r = decimal(n / 10);
        let d = digit((n % 10) as u8);
        r.push(d);
        r
    }
}

/// The decimal representation of `n` as a `String`.
pub fn decimal_string(n: u128) -> (r: String)
    ensures
        r@ == dec(n as nat),
{
    let v = decimal(n);
    string_from_chars(&v)
}

/// Whether `a` comes before or equals `b` in lexicographic order.
pub fn chars_le(a: &Vec<char>, b: &Vec<char>) -> (r: bool)
    ensures
        r == seq_le(a@, b@),
{
    let mut i: usize = 0;
    assert(a@.skip(0) =~= a@);
    assert(b@.skip(0) =~= b@);
    while i < a.len() && i < b.len() && a[i] == b[i]
        invariant
            i <= a.len(),
            i <= b.len(),
            seq_le(a@, b@) == seq_le(a@.skip(i as int), b@.skip(i as int)),
        decreases a.len() - i,
    {
        assert(a@.skip(i as int).skip(1) =~= a@.skip(i + 1));
        assert(b@.skip(i as int).skip(1) =~= b@.skip(i + 1));
        i += 1;
    }
    if i == a.len() {
        true
    } else if i == b.len() {
        false
    } else {
        a[i] < b[i]
    }
}

/// Joins the pieces with `sep` between consecutive pieces.
pub fn join_chars(pieces: &Vec<Vec<char>>, sep: &Vec<char>) -> (r: Vec<char>)
    ensures
        r@ == join(pieces@.map_values(|p: Vec<char>| p@), sep@),
{
    let ghost views = pieces@.map_values(|p: Vec<char>| p@);
    let mut out: Vec<char> = Vec::new();
    let mut i: usize = 0;
    while i < pieces.len()
        invariant
            i <= pieces.len(),
            views == pieces@.map_values(|p: Vec<char>| p@),
            out@ == join(views.take(i as int), sep@),
        decreases pieces.len() - i,
    {
        let ghost before = out@;
        assert(views.take(i + 1).drop_last() =~= views.take(i as int));
        if i > 0 {
            let mut j: usize = 0;
            while j < sep.len()
                invariant
                    j <= sep.len(),
                    out@ == before + sep@.take(j as int),
                decreases sep.len() - j,
            {
                out.push(sep[j]);
                assert(before + sep@.take(j as int).push(sep@[j as int]) =~= before + sep@.take(
                    j + 1,
                ));
                j += 1;
            }
            assert(sep@.take(sep.len() as int) =~= sep@);
        }
        let ghost mid = out@;
        let p = &pieces[i];
        let mut k: usize = 0;
        while k < p.len()
            invariant
                k <= p.len(),
                out@ == mid + p@.take(k as int),
            decreases p.len() - k,
        {
            out.push(p[k]);
            assert(mid + p@.take(k as int).push(p@[k as int]) =~= mid + p@.take(k + 1));
            k += 1;
        }
        assert(p@.take(p.len() as int) =~= p@);
        proof {
            if i == 0 {
                assert(mid =~= Seq::<char>::empty());
                assert(out@ =~= views.take(1)[0]);
            } else {
                assert(out@ =~= join(views.take(i as int), sep@) + sep@ + views.take(i + 1).last());
            }
        }
        i += 1;
    }
    assert(views.take(pieces.len() as int) =~= views);
    out
}

} // verus!
