//! Character-level string helpers with specifications over `Seq<char>`.
use vstd::prelude::*;
use vstd::string::StringSliceAdditionalSpecFns;

verus! {

/// The characters of `s`, in order.
pub fn chars_of(s: &str) -> (res: Vec<char>)
    ensures
        res@ == s@,
{
    let mut res: Vec<char> = Vec::new();
    for c in it: s.chars()
        invariant
            res@ == it.seq().take(it.index() as int),
            it.seq() == s@,
    {
        res.push(c);
    }
    res
}

/// Appends one character to a string (`String::push`).
#[verifier::external_body]
pub(crate) fn push_char(s: &mut String, c: char)
    ensures
        final(s)@ == old(s)@.push(c),
{
    s.push(c);
}

/// Appends a string slice to a string (`String::push_str`).
#[verifier::external_body]
pub(crate) fn push_str(s: &mut String, t: &str)
    ensures
        final(s)@ == old(s)@ + t@,
{
    s.push_str(t);
}

/// Whether two string slices hold the same characters (`<str as PartialEq>::eq`).
#[verifier::external_body]
pub(crate) fn str_equal(a: &str, b: &str) -> (res: bool)
    ensures
        res == (a@ == b@),
{
    a == b
}

/// A new string holding `t`.
pub fn to_string(t: &str) -> (res: String)
    ensures
        res@ == t@,
{
    let mut s = String::new();
    push_str(&mut s, t);
    proof {
        assert(s@ =~= t@);
    }
    s
}

/// A string made of the characters `v[lo..hi]`.
pub fn string_from_range(v: &Vec<char>, lo: usize, hi: usize) -> (res: String)
    requires
        lo <= hi <= v.len(),
    ensures
        res@ == v@.subrange(lo as int, hi as int),
{
    let mut s = String::new();
    let mut i = lo;
    while i < hi
        invariant
            lo <= i <= hi <= v.len(),
            s@ == v@.subrange(lo as int, i as int),
        decreases hi - i,
    {
        push_char(&mut s, v[i]);
        proof {
            assert(s@ =~= v@.subrange(lo as int, i + 1));
        }
        i += 1;
    }
    s
}

/// A string made of all the characters of `v`.
pub fn string_from_chars(v: &Vec<char>) -> (res: String)
    ensures
        res@ == v@,
{
    let s = string_from_range(v, 0, v.len());
    proof {
        assert(v@.subrange(0, v@.len() as int) =~= v@);
    }
    s
}

/// Unicode `White_Space`: the characters for which `char::is_whitespace` holds.
pub open spec fn is_ws(c: char) -> bool {
    let u = c as u32;
    ||| 0x09 <= u <= 0x0D
    ||| u == 0x20
    ||| u == 0x85
    ||| u == 0xA0
    ||| u == 0x1680
    ||| 0x2000 <= u <= 0x200A
    ||| u == 0x2028
    ||| u == 0x2029
    ||| u == 0x202F
    ||| u == 0x205F
    ||| u == 0x3000
}

/// Whether `c` is white space.
pub fn is_whitespace(c: char) -> (res: bool)
    ensures
        res == is_ws(c),
{
    let u = c as u32;
    (0x09 <= u && u <= 0x0D) || u == 0x20 || u == 0x85 || u == 0xA0 || u == 0x1680 || (0x2000
        <= u && u <= 0x200A) || u == 0x2028 || u == 0x2029 || u == 0x202F || u == 0x205F || u
        == 0x3000
}

/// Every character of `s` is white space (so `s.trim()` is empty).
pub open spec fn blank(s: Seq<char>) -> bool {
    forall|i: int| 0 <= i < s.len() ==> is_ws(#[trigger] s[i])
}

/// Whether `s` is empty or made of white space only.
pub fn is_blank(s: &str) -> (res: bool)
    ensures
        res == blank(s@),
{
    let v = chars_of(s);
    let mut i: usize = 0;
    while i < v.len()
        invariant
            v@ == s@,
            i <= v.len(),
            forall|k: int| 0 <= k < i ==> is_ws(#[trigger] v@[k]),
        decreases v.len() - i,
    {
        if !is_whitespace(v[i]) {
            return false;
        }
        i += 1;
    }
    true
}

/// The character class that a trim removes: white space, or one given character.
pub open spec fn strip_class(quote: Option<char>, c: char) -> bool {
    match quote {
        None => is_ws(c),
        Some(q) => c == q,
    }
}

/// Number of leading characters of `s` in the class.
pub open spec fn lead_count(s: Seq<char>, quote: Option<char>) -> nat
    decreases s.len(),
{
    if s.len() > 0 && strip_class(quote, s[0]) {
        1 + lead_count(s.drop_first(), quote)
    } else {
        0
    }
}

/// Number of trailing characters of `s` in the class.
pub open spec fn trail_count(s: Seq<char>, quote: Option<char>) -> nat
    decreases s.len(),
{
    if s.len() > 0 && strip_class(quote, s.last()) {
        1 + trail_count(s.drop_last(), quote)
    } else {
        0
    }
}

/// `s` without its leading characters of the class.
pub open spec fn strip_start(s: Seq<char>, quote: Option<char>) -> Seq<char> {
    s.skip(lead_count(s, quote) as int)
}

/// `s` without its trailing characters of the class.
pub open spec fn strip_end(s: Seq<char>, quote: Option<char>) -> Seq<char> {
    s.take(s.len() - trail_count(s, quote))
}

/// `s` without its leading and trailing characters of the class
/// (`str::trim` for white space, `str::trim_matches(q)` for a character `q`).
pub open spec fn strip_both(s: Seq<char>, quote: Option<char>) -> Seq<char> {
    strip_end(strip_start(s, quote), quote)
}

/// `str::trim`: `s` without leading and trailing white space.
pub open spec fn trim_spec(s: Seq<char>) -> Seq<char> {
    strip_both(s, None)
}

pub proof fn lemma_lead_count(s: Seq<char>, quote: Option<char>, i: int)
    requires
        0 <= i <= s.len(),
        forall|k: int| 0 <= k < i ==> strip_class(quote, #[trigger] s[k]),
        i == s.len() || !strip_class(quote, s[i]),
    ensures
        lead_count(s, quote) == i,
        lead_count(s, quote) <= s.len(),
    decreases i,
{
    if i > 0 {
        assert(strip_class(quote, s[0]));
        let t = s.drop_first();
        assert forall|k: int| 0 <= k < i - 1 implies strip_class(quote, #[trigger] t[k]) by {
            assert(t[k] == s[k + 1]);
        }
        if i - 1 < t.len() {
            assert(t[i - 1] == s[i]);
        }
        lemma_lead_count(t, quote, i - 1);
    }
}

pub proof fn lemma_trail_count(s: Seq<char>, quote: Option<char>, j: int)
    requires
        0 <= j <= s.len(),
        forall|k: int| j <= k < s.len() ==> strip_class(quote, #[trigger] s[k]),
        j == 0 || !strip_class(quote, s[j - 1]),
    ensures
        trail_count(s, quote) == s.len() - j,
    decreases s.len() - j,
{
    if j < s.len() {
        assert(strip_class(quote, s.last()));
        let t = s.drop_last();
        assert forall|k: int| j <= k < t.len() implies strip_class(quote, #[trigger] t[k]) by {
            assert(t[k] == s[k]);
        }
        if j > 0 {
            assert(t[j - 1] == s[j - 1]);
        }
        lemma_trail_count(t, quote, j);
    }
}

/// Whether `c` belongs to the class.
pub fn in_class(quote: Option<char>, c: char) -> (res: bool)
    ensures
        res == strip_class(quote, c),
{
    match quote {
        None => is_whitespace(c),
        Some(q) => c == q,
    }
}

/// The start and end of `v[lo..hi]` once the characters of the class are stripped
/// from both of its ends.
pub fn strip_bounds(v: &Vec<char>, lo: usize, hi: usize, quote: Option<char>) -> (res: (
    usize,
    usize,
))
    requires
        lo <= hi <= v.len(),
    ensures
        lo <= res.0 <= res.1 <= hi,
        v@.subrange(res.0 as int, res.1 as int) == strip_both(
            v@.subrange(lo as int, hi as int),
            quote,
        ),
{
    let ghost s = v@.subrange(lo as int, hi as int);
    let mut i = lo;
    while i < hi && in_class(quote, v[i])
        invariant
            lo <= i <= hi <= v.len(),
            s == v@.subrange(lo as int, hi as int),
            forall|k: int| lo <= k < i ==> strip_class(quote, #[trigger] v@[k]),
        decreases hi - i,
    {
        i += 1;
    }
    proof {
        assert forall|k: int| 0 <= k < i - lo implies strip_class(quote, #[trigger] s[k]) by {
            assert(s[k] == v@[lo + k]);
        }
        if i < hi {
            assert(s[i - lo] == v@[i as int]);
        }
        lemma_lead_count(s, quote, i - lo);
    }
    let ghost t = strip_start(s, quote);
    assert(t =~= v@.subrange(i as int, hi as int));
    let mut j = hi;
    while j > i && in_class(quote, v[j - 1])
        invariant
            lo <= i <= j <= hi <= v.len(),
            forall|k: int| j <= k < hi ==> strip_class(quote, #[trigger] v@[k]),
        decreases j - i,
    {
        j -= 1;
    }
    proof {
        assert forall|k: int| j - i <= k < t.len() implies strip_class(quote, #[trigger] t[k]) by {
            assert(t[k] == v@[i + k]);
        }
        if j > i {
            assert(t[j - i - 1] == v@[j - 1]);
        }
        lemma_trail_count(t, quote, j - i);
        assert(strip_end(t, quote) =~= v@.subrange(i as int, j as int));
    }
    (i, j)
}

/// `str::trim`: `s` without its leading and trailing white space.
pub fn trim(s: &str) -> (res: String)
    ensures
        res@ == trim_spec(s@),
{
    let v = chars_of(s);
    let (a, b) = strip_bounds(&v, 0, v.len(), None);
    proof {
        assert(v@.subrange(0, v@.len() as int) =~= v@);
    }
    string_from_range(&v, a, b)
}


/// `char::is_alphanumeric`: the character is alphabetic or numeric in Unicode.
pub uninterp spec fn char_alnum(c: char) -> bool;

/// `char::is_alphanumeric`: whether `c` is alphabetic or numeric (Unicode
/// `Alphabetic`, or general category `Nd`, `Nl` or `No`). The Unicode tables it
/// reads are not restated here; the contract names the result.
#[verifier::external_body]
pub(crate) fn is_alphanumeric(c: char) -> (res: bool)
    ensures
        res == char_alnum(c),
{
    c.is_alphanumeric()
}

/// Classes of characters that a scan runs over.
#[derive(Clone, Copy, Debug, PartialEq, Eq, Structural)]
pub enum CharClass {
    /// `' '`, `'\t'`, `'\r'`, `'\n'`
    MultiSpace,
    /// `' '`, `'\t'`
    Space,
    /// alphanumeric or one of `-`, `_`, `:`, `.`
    Ident,
    /// anything but `'"'`
    NotQuote,
    /// anything but `'\r'` and `'\n'`
    NotLineEnd,
    /// anything but white space
    NotWs,
}

/// Whether `c` belongs to the class.
pub open spec fn in_char_class(cls: CharClass, c: char) -> bool {
    match cls {
        CharClass::MultiSpace => c == ' ' || c == '\t' || c == '\r' || c == '\n',
        CharClass::Space => c == ' ' || c == '\t',
        CharClass::Ident => char_alnum(c) || c == '-' || c == '_' || c == ':' || c == '.',
        CharClass::NotQuote => c != '"',
        CharClass::NotLineEnd => c != '\r' && c != '\n',
        CharClass::NotWs => !is_ws(c),
    }
}

/// Whether `c` belongs to the class.
pub fn char_in_class(cls: CharClass, c: char) -> (res: bool)
    ensures
        res == in_char_class(cls, c),
{
    match cls {
        CharClass::MultiSpace => c == ' ' || c == '\t' || c == '\r' || c == '\n',
        CharClass::Space => c == ' ' || c == '\t',
        CharClass::Ident => is_alphanumeric(c) || c == '-' || c == '_' || c == ':' || c == '.',
        CharClass::NotQuote => c != '"',
        CharClass::NotLineEnd => c != '\r' && c != '\n',
        CharClass::NotWs => !is_whitespace(c),
    }
}

/// The first position at or after `p` whose character is not in the class
/// (`s.len()` if there is none).
pub open spec fn scan(s: Seq<char>, p: int, cls: CharClass) -> int
    decreases s.len() - p,
{
    if 0 <= p < s.len() && in_char_class(cls, s[p]) {
        scan(s, p + 1, cls)
    } else {
        p
    }
}

pub proof fn lemma_scan_bounds(s: Seq<char>, p: int, cls: CharClass)
    requires
        0 <= p <= s.len(),
    ensures
        p <= scan(s, p, cls) <= s.len(),
        forall|k: int| p <= k < scan(s, p, cls) ==> in_char_class(cls, #[trigger] s[k]),
        scan(s, p, cls) < s.len() ==> !in_char_class(cls, s[scan(s, p, cls)]),
    decreases s.len() - p,
{
    if p < s.len() && in_char_class(cls, s[p]) {
        lemma_scan_bounds(s, p + 1, cls);
    }
}

/// `scan` over `v` from `p`.
pub fn scan_exec(v: &Vec<char>, p: usize, cls: CharClass) -> (res: usize)
    requires
        p <= v.len(),
    ensures
        res == scan(v@, p as int, cls),
        p <= res <= v.len(),
{
    let mut q = p;
    while q < v.len() && char_in_class(cls, v[q])
        invariant
            p <= q <= v.len(),
            scan(v@, p as int, cls) == scan(v@, q as int, cls),
        decreases v.len() - q,
    {
        q += 1;
    }
    q
}

/// `str::split_whitespace`: the maximal runs of non-white-space characters of
/// `s` from position `p` on, in order.
pub open spec fn words_from(s: Seq<char>, p: int) -> Seq<Seq<char>>
    decreases s.len() - p,
{
    if p < 0 || p >= s.len() {
        Seq::empty()
    } else if is_ws(s[p]) {
        words_from(s, p + 1)
    } else {
        let q = scan(s, p, CharClass::NotWs);
        if p < q <= s.len() {
            seq![s.subrange(p, q)] + words_from(s, q)
        } else {
            Seq::empty()
        }
    }
}

/// The words of `v` separated by white space (`str::split_whitespace`).
pub fn split_whitespace(v: &Vec<char>) -> (res: Vec<String>)
    ensures
        res@.map_values(|w: String| w@) == words_from(v@, 0),
{
    let mut res: Vec<String> = Vec::new();
    let mut p: usize = 0;
    while p < v.len()
        invariant
            p <= v.len(),
            res@.map_values(|w: String| w@) + words_from(v@, p as int) == words_from(v@, 0),
        decreases v.len() - p,
    {
        if is_whitespace(v[p]) {
            p += 1;
        } else {
            let q = scan_exec(v, p, CharClass::NotWs);
            proof {
                lemma_scan_bounds(v@, p as int, CharClass::NotWs);
                assert(q > p);
            }
            let w = string_from_range(v, p, q);
            let ghost before = res@.map_values(|w: String| w@);
            res.push(w);
            proof {
                assert(res@.map_values(|w: String| w@) =~= before.push(v@.subrange(
                    p as int,
                    q as int,
                )));
                assert(words_from(v@, p as int) == seq![v@.subrange(p as int, q as int)]
                    + words_from(v@, q as int));
                assert(before + words_from(v@, p as int) =~= before.push(
                    v@.subrange(p as int, q as int),
                ) + words_from(v@, q as int));
            }
            p = q;
        }
    }
    proof {
        assert(res@.map_values(|w: String| w@) + words_from(v@, p as int) =~= res@.map_values(
            |w: String| w@,
        ));
    }
    res
}

/// `pat` occurs in `s` at position `i`.
pub open spec fn occurs_at(s: Seq<char>, pat: Seq<char>, i: int) -> bool {
    0 <= i && i + pat.len() <= s.len() && s.subrange(i, i + pat.len()) == pat
}

/// `str::contains`: `pat` occurs somewhere in `s`.
pub open spec fn contains_spec(s: Seq<char>, pat: Seq<char>) -> bool {
    exists|i: int| occurs_at(s, pat, i)
}

/// Whether `pat` occurs in `v` at position `i`.
pub fn occurs_exec(v: &Vec<char>, pat: &Vec<char>, i: usize) -> (res: bool)
    requires
        i <= v.len(),
    ensures
        res == occurs_at(v@, pat@, i as int),
{
    if pat.len() > v.len() - i {
        return false;
    }
    let mut k: usize = 0;
    while k < pat.len()
        invariant
            i + pat@.len() <= v.len(),
            k <= pat@.len(),
            forall|j: int| 0 <= j < k ==> v@[i + j] == pat@[j],
        decreases pat@.len() - k,
    {
        if v[i + k] != pat[k] {
            proof {
                assert(v@.subrange(i as int, i + pat@.len())[k as int] != pat@[k as int]);
            }
            return false;
        }
        k += 1;
    }
    proof {
        assert(v@.subrange(i as int, i + pat@.len()) =~= pat@);
    }
    true
}

/// `str::contains`: whether `pat` occurs in `s`.
pub fn contains(s: &str, pat: &str) -> (res: bool)
    ensures
        res == contains_spec(s@, pat@),
{
    let v = chars_of(s);
    let pv = chars_of(pat);
    let mut i: usize = 0;
    while i < v.len()
        invariant
            v@ == s@,
            pv@ == pat@,
            i <= v.len(),
            forall|j: int| 0 <= j < i ==> !occurs_at(s@, pat@, j),
        decreases v.len() - i,
    {
        if occurs_exec(&v, &pv, i) {
            return true;
        }
        i += 1;
    }
    if occurs_exec(&v, &pv, v.len()) {
        return true;
    }
    false
}

/// `str::replace(pat, rep)` for a non-empty `pat`: each occurrence of `pat`,
/// scanning from the left and not overlapping, replaced by `rep`.
pub open spec fn replace_spec(s: Seq<char>, pat: Seq<char>, rep: Seq<char>) -> Seq<char>
    decreases s.len(),
{
    if s.len() == 0 || pat.len() == 0 {
        s
    } else if occurs_at(s, pat, 0) {
        rep + replace_spec(s.skip(pat.len() as int), pat, rep)
    } else {
        seq![s[0]] + replace_spec(s.skip(1), pat, rep)
    }
}

/// `str::replace`: `s` with each occurrence of the non-empty `pat` replaced by `rep`.
pub fn replace(s: &str, pat: &str, rep: &str) -> (res: String)
    requires
        pat@.len() > 0,
    ensures
        res@ == replace_spec(s@, pat@, rep@),
{
    let v = chars_of(s);
    let pv = chars_of(pat);
    let mut out = String::new();
    let mut i: usize = 0;
    proof {
        assert(v@.skip(0) =~= v@);
        assert(out@ + replace_spec(s@, pat@, rep@) =~= replace_spec(s@, pat@, rep@));
    }
    while i < v.len()
        invariant
            v@ == s@,
            pv@ == pat@,
            pat@.len() > 0,
            i <= v.len(),
            out@ + replace_spec(v@.skip(i as int), pat@, rep@) == replace_spec(s@, pat@, rep@),
        decreases v.len() - i,
    {
        let ghost rest = v@.skip(i as int);
        if occurs_exec(&v, &pv, i) {
            proof {
                assert(occurs_at(rest, pat@, 0)) by {
                    assert(rest.subrange(0, pat@.len() as int) =~= v@.subrange(
                        i as int,
                        i + pat@.len(),
                    ));
                }
                assert(rest.skip(pat@.len() as int) =~= v@.skip(i + pat@.len()));
                assert(out@ + (rep@ + replace_spec(rest.skip(pat@.len() as int), pat@, rep@))
                    =~= (out@ + rep@) + replace_spec(v@.skip(i + pat@.len()), pat@, rep@));
            }
            push_str(&mut out, rep);
            i = i + pv.len();
        } else {
            proof {
                assert(!occurs_at(rest, pat@, 0)) by {
                    if occurs_at(rest, pat@, 0) {
                        assert(rest.subrange(0, pat@.len() as int) =~= v@.subrange(
                            i as int,
                            i + pat@.len(),
                        ));
                    }
                }
                assert(rest.skip(1) =~= v@.skip(i + 1));
                assert(rest[0] == v@[i as int]);
                assert(out@ + (seq![v@[i as int]] + replace_spec(rest.skip(1), pat@, rep@))
                    =~= out@.push(v@[i as int]) + replace_spec(v@.skip(i + 1), pat@, rep@));
            }
            push_char(&mut out, v[i]);
            i += 1;
        }
    }
    proof {
        assert(v@.skip(i as int) =~= Seq::<char>::empty());
        assert(out@ + Seq::<char>::empty() =~= out@);
    }
    out
}

/// No character of `s` is `c`.
pub open spec fn lacks(s: Seq<char>, c: char) -> bool {
    forall|i: int| 0 <= i < s.len() ==> s[i] != c
}

/// Every character of the non-empty `s` is `c`.
pub open spec fn all_of(s: Seq<char>, c: char) -> bool {
    s.len() > 0 && forall|i: int| 0 <= i < s.len() ==> s[i] == c
}

/// Where the first `n` characters of a replacement's result hold no character
/// of the (uniform) replacement text, they are the first `n` characters of the input.
pub proof fn lemma_replace_keeps_prefix(u: Seq<char>, pat: Seq<char>, rep: Seq<char>, c: char, n: int)
    requires
        all_of(rep, c),
        0 <= n <= replace_spec(u, pat, rep).len(),
        forall|j: int| 0 <= j < n ==> replace_spec(u, pat, rep)[j] != c,
    ensures
        n <= u.len(),
        u.subrange(0, n) == replace_spec(u, pat, rep).subrange(0, n),
    decreases u.len(),
{
    let r = replace_spec(u, pat, rep);
    if u.len() == 0 || pat.len() == 0 {
    } else if occurs_at(u, pat, 0) {
        if n > 0 {
            assert(r[0] == rep[0]);
        }
    } else if n > 0 {
        let t = replace_spec(u.skip(1), pat, rep);
        assert(r == seq![u[0]] + t);
        assert forall|j: int| 0 <= j < n - 1 implies t[j] != c by {
            assert(r[j + 1] == t[j]);
        }
        lemma_replace_keeps_prefix(u.skip(1), pat, rep, c, n - 1);
        assert(u.subrange(0, n) =~= seq![u[0]] + u.skip(1).subrange(0, n - 1));
        assert(r.subrange(0, n) =~= seq![u[0]] + t.subrange(0, n - 1));
    }
}

/// A text `q` without the replacement's character that does not occur before a
/// replacement does not occur after it either.
pub proof fn lemma_replace_keeps_absent(s: Seq<char>, pat: Seq<char>, rep: Seq<char>, c: char, q: Seq<char>)
    requires
        all_of(rep, c),
        q.len() > 0,
        lacks(q, c),
        !contains_spec(s, q),
    ensures
        !contains_spec(replace_spec(s, pat, rep), q),
    decreases s.len(),
{
    let r = replace_spec(s, pat, rep);
    if s.len() == 0 || pat.len() == 0 {
    } else if occurs_at(s, pat, 0) {
        let rest = s.skip(pat.len() as int);
        let t = replace_spec(rest, pat, rep);
        assert(r == rep + t);
        assert forall|i: int| !occurs_at(rest, q, i) by {
            if occurs_at(rest, q, i) {
                assert(s.subrange(i + pat.len(), i + pat.len() + q.len()) =~= rest.subrange(i, i + q.len()));
                assert(occurs_at(s, q, i + pat.len()));
            }
        }
        lemma_replace_keeps_absent(rest, pat, rep, c, q);
        assert forall|i: int| !occurs_at(r, q, i) by {
            if occurs_at(r, q, i) {
                if i < rep.len() {
                    assert(r.subrange(i, i + q.len())[0] == r[i]);
                    assert(q[0] == c);
                } else {
                    assert(t.subrange(i - rep.len(), i - rep.len() + q.len()) =~= r.subrange(i, i + q.len()));
                    assert(occurs_at(t, q, i - rep.len()));
                }
            }
        }
    } else {
        let rest = s.skip(1);
        let t = replace_spec(rest, pat, rep);
        assert(r == seq![s[0]] + t);
        assert forall|i: int| !occurs_at(rest, q, i) by {
            if occurs_at(rest, q, i) {
                assert(s.subrange(i + 1, i + 1 + q.len()) =~= rest.subrange(i, i + q.len()));
                assert(occurs_at(s, q, i + 1));
            }
        }
        lemma_replace_keeps_absent(rest, pat, rep, c, q);
        assert forall|i: int| !occurs_at(r, q, i) by {
            if occurs_at(r, q, i) {
                if i == 0 {
                    let n = q.len() - 1;
                    assert forall|j: int| 0 <= j < n implies t[j] != c by {
                        assert(r.subrange(0, q.len() as int)[j + 1] == t[j]);
                    }
                    lemma_replace_keeps_prefix(rest, pat, rep, c, n);
                    assert(s.subrange(0, q.len() as int) =~= seq![s[0]] + rest.subrange(0, n));
                    assert(r.subrange(0, q.len() as int) =~= seq![s[0]] + t.subrange(0, n));
                    assert(occurs_at(s, q, 0));
                } else {
                    assert(t.subrange(i - 1, i - 1 + q.len()) =~= r.subrange(i, i + q.len()));
                    assert(occurs_at(t, q, i - 1));
                }
            }
        }
    }
}

/// Replacing a pattern that does not occur changes nothing.
pub proof fn lemma_replace_absent(s: Seq<char>, pat: Seq<char>, rep: Seq<char>)
    requires
        !contains_spec(s, pat),
    ensures
        replace_spec(s, pat, rep) == s,
    decreases s.len(),
{
    if s.len() > 0 && pat.len() > 0 {
        let rest = s.skip(1);
        assert(!occurs_at(s, pat, 0));
        assert forall|i: int| !occurs_at(rest, pat, i) by {
            if occurs_at(rest, pat, i) {
                assert(s.subrange(i + 1, i + 1 + pat.len()) =~= rest.subrange(i, i + pat.len()));
                assert(occurs_at(s, pat, i + 1));
            }
        }
        lemma_replace_absent(rest, pat, rep);
        assert(seq![s[0]] + rest =~= s);
    }
}

/// A non-empty pattern without the replacement's character no longer occurs
/// once each of its occurrences is replaced.
pub proof fn lemma_replace_removes(s: Seq<char>, pat: Seq<char>, rep: Seq<char>, c: char)
    requires
        all_of(rep, c),
        pat.len() > 0,
        lacks(pat, c),
    ensures
        !contains_spec(replace_spec(s, pat, rep), pat),
    decreases s.len(),
{
    let r = replace_spec(s, pat, rep);
    if s.len() == 0 {
        assert forall|i: int| !occurs_at(r, pat, i) by {}
    } else if occurs_at(s, pat, 0) {
        let rest = s.skip(pat.len() as int);
        let t = replace_spec(rest, pat, rep);
        assert(r == rep + t);
        lemma_replace_removes(rest, pat, rep, c);
        assert forall|i: int| !occurs_at(r, pat, i) by {
            if occurs_at(r, pat, i) {
                if i < rep.len() {
                    assert(r.subrange(i, i + pat.len())[0] == r[i]);
                    assert(pat[0] == c);
                } else {
                    assert(t.subrange(i - rep.len(), i - rep.len() + pat.len()) =~= r.subrange(i, i + pat.len()));
                    assert(occurs_at(t, pat, i - rep.len()));
                }
            }
        }
    } else {
        let rest = s.skip(1);
        let t = replace_spec(rest, pat, rep);
        assert(r == seq![s[0]] + t);
        lemma_replace_removes(rest, pat, rep, c);
        assert forall|i: int| !occurs_at(r, pat, i) by {
            if occurs_at(r, pat, i) {
                if i == 0 {
                    let n = pat.len() - 1;
                    assert forall|j: int| 0 <= j < n implies t[j] != c by {
                        assert(r.subrange(0, pat.len() as int)[j + 1] == t[j]);
                    }
                    lemma_replace_keeps_prefix(rest, pat, rep, c, n);
                    assert(s.subrange(0, pat.len() as int) =~= seq![s[0]] + rest.subrange(0, n));
                    assert(r.subrange(0, pat.len() as int) =~= seq![s[0]] + t.subrange(0, n));
                    assert(occurs_at(s, pat, 0));
                } else {
                    assert(t.subrange(i - 1, i - 1 + pat.len()) =~= r.subrange(i, i + pat.len()));
                    assert(occurs_at(t, pat, i - 1));
                }
            }
        }
    }
}

/// `str::trim_start_matches(pre)` for a non-empty `pre`: `s` without every
/// leading repetition of `pre`.
pub open spec fn strip_prefix_all(s: Seq<char>, pre: Seq<char>) -> Seq<char>
    decreases s.len(),
{
    if pre.len() > 0 && occurs_at(s, pre, 0) {
        strip_prefix_all(s.skip(pre.len() as int), pre)
    } else {
        s
    }
}

/// `str::trim_start_matches(pre)`: `s` without every leading repetition of the
/// non-empty `pre`.
pub fn trim_start_matches(s: &str, pre: &str) -> (res: String)
    requires
        pre@.len() > 0,
    ensures
        res@ == strip_prefix_all(s@, pre@),
{
    let v = chars_of(s);
    let pv = chars_of(pre);
    let mut i: usize = 0;
    proof {
        assert(v@.skip(0) =~= v@);
    }
    while i < v.len() && occurs_exec(&v, &pv, i)
        invariant
            v@ == s@,
            pv@ == pre@,
            pre@.len() > 0,
            i <= v.len(),
            strip_prefix_all(v@.skip(i as int), pre@) == strip_prefix_all(s@, pre@),
        decreases v.len() - i,
    {
        proof {
            let rest = v@.skip(i as int);
            assert(rest.subrange(0, pre@.len() as int) =~= v@.subrange(i as int, i + pre@.len()));
            assert(rest.skip(pre@.len() as int) =~= v@.skip(i + pre@.len()));
        }
        i = i + pv.len();
    }
    proof {
        let rest = v@.skip(i as int);
        if occurs_at(rest, pre@, 0) {
            assert(rest.subrange(0, pre@.len() as int) =~= v@.subrange(i as int, i + pre@.len()));
        }
        assert(v@.subrange(i as int, v@.len() as int) =~= rest);
    }
    string_from_range(&v, i, v.len())
}

/// `str::starts_with`: `pre` is a prefix of `s`.
pub fn starts_with(s: &str, pre: &str) -> (res: bool)
    ensures
        res == occurs_at(s@, pre@, 0),
{
    let v = chars_of(s);
    let pv = chars_of(pre);
    occurs_exec(&v, &pv, 0)
}

/// `str::to_uppercase`: the upper-case mapping of every character.
pub uninterp spec fn upper(s: Seq<char>) -> Seq<char>;

/// `str::to_lowercase`: the lower-case mapping of every character.
pub uninterp spec fn lower(s: Seq<char>) -> Seq<char>;

/// `str::to_uppercase`: maps each character to its Unicode upper case, which
/// may be several characters. The case tables are not restated here; the
/// contract names the result.
#[verifier::external_body]
pub(crate) fn to_uppercase(s: &str) -> (res: String)
    ensures
        res@ == upper(s@),
{
    s.to_uppercase()
}

/// `str::to_lowercase`: maps each character to its Unicode lower case, which
/// may be several characters (with the final-sigma rule). The case tables are
/// not restated here; the contract names the result.
#[verifier::external_body]
pub(crate) fn to_lowercase(s: &str) -> (res: String)
    ensures
        res@ == lower(s@),
{
    s.to_lowercase()
}

/// The decimal digits of `n`, with no leading zeros.
pub open spec fn decimal_spec(n: nat) -> Seq<char>
    decreases n,
{
    if n < 10 {
        seq![(('0' as u8) + (n as u8)) as char]
    } else {
        decimal_spec(n / 10).push((('0' as u8) + ((n % 10) as u8)) as char)
    }
}

/// Appends the decimal digits of `n` (`format!("{}", n)`).
pub fn push_decimal(s: &mut String, n: u64)
    ensures
        final(s)@ == old(s)@ + decimal_spec(n as nat),
    decreases n,
{
    if n < 10 {
        push_char(s, (('0' as u8) + (n as u8)) as char);
        proof {
            assert(final(s)@ =~= old(s)@ + decimal_spec(n as nat));
        }
    } else {
        push_decimal(s, n / 10);
        push_char(s, (('0' as u8) + ((n % 10) as u8)) as char);
        proof {
            assert(final(s)@ =~= old(s)@ + decimal_spec(n as nat));
        }
    }
}

/// `str::ends_with`: `suf` is a suffix of `s`.
pub open spec fn ends_with_spec(s: Seq<char>, suf: Seq<char>) -> bool {
    suf.len() <= s.len() && occurs_at(s, suf, s.len() - suf.len())
}

/// `str::ends_with`: whether `suf` is a suffix of `s`.
pub fn ends_with(s: &str, suf: &str) -> (res: bool)
    ensures
        res == ends_with_spec(s@, suf@),
{
    let v = chars_of(s);
    let sv = chars_of(suf);
    if sv.len() > v.len() {
        return false;
    }
    occurs_exec(&v, &sv, v.len() - sv.len())
}

/// The first `k` bytes of `s` as text, where `k` is the smaller of `max` and
/// the byte length of `s` (`&s[..max.min(s.len())]`).
pub open spec fn byte_prefix(s: Seq<char>, max: nat) -> Seq<char> {
    let b = vstd::utf8::encode_utf8(s);
    vstd::utf8::decode_utf8(b.subrange(0, if b.len() <= max { b.len() as int } else { max as int }))
}

/// `&s[..max.min(s.len())]` lies on a character boundary.
pub open spec fn prefix_on_boundary(s: Seq<char>, max: nat) -> bool {
    let b = vstd::utf8::encode_utf8(s);
    b.len() <= max || vstd::utf8::is_char_boundary(b, max as int)
}

/// `&s[..max.min(s.len())]`: the first `max` bytes of `s`, or all of it.
/// Slicing inside a character panics, which `requires` rules out.
pub fn byte_prefix_exec(s: &str, max: usize) -> (res: &str)
    requires
        prefix_on_boundary(s@, max as nat),
    ensures
        res@ == byte_prefix(s@, max as nat),
        vstd::utf8::encode_utf8(s@).len() <= max ==> res@ == s@,
{
    let n = s.as_bytes().len();
    let k = if n < max {
        n
    } else {
        max
    };
    proof {
        assert(s.spec_bytes() == vstd::utf8::encode_utf8(s@));
        vstd::utf8::encode_utf8_valid_utf8(s@);
        vstd::utf8::is_char_boundary_start_end_of_seq(s.spec_bytes());
        assert(vstd::utf8::is_char_boundary(s.spec_bytes(), k as int));
    }
    let (a, _) = s.split_at(k);
    proof {
        assert(a.spec_bytes() == vstd::utf8::encode_utf8(a@));
        vstd::utf8::encode_utf8_decode_utf8(a@);
        vstd::utf8::encode_utf8_decode_utf8(s@);
        assert(vstd::utf8::encode_utf8(s@).subrange(0, vstd::utf8::encode_utf8(s@).len() as int) =~= vstd::utf8::encode_utf8(s@));
    }
    a
}

} // verus!
