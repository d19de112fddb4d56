//! Character-level text primitives shared by the runtime modules.
//!
//! Every string the runtime inspects is read through its `Seq<char>` view.
//! The spec functions here state what `str::trim`, `str::starts_with`,
//! lexicographic `String` order and friends compute, and the executable
//! functions are proved against them.
use vstd::prelude::*;
use vstd::std_specs::iter::IteratorSpec;

verus! {

/// Unicode `White_Space` code points, the set `char::is_whitespace` accepts.
pub open spec fn is_ws(c: char) -> bool {
    ||| ('\u{9}' <= c && c <= '\u{d}')
    ||| c == ' '
    ||| c == '\u{85}'
    ||| c == '\u{a0}'
    ||| c == '\u{1680}'
    ||| ('\u{2000}' <= c && c <= '\u{200a}')
    ||| c == '\u{2028}'
    ||| c == '\u{2029}'
    ||| c == '\u{202f}'
    ||| c == '\u{205f}'
    ||| c == '\u{3000}'
}

pub fn ws_char(c: char) -> (b: bool)
    ensures
        b == is_ws(c),
{
    ('\u{9}' <= c && c <= '\u{d}') || c == ' ' || c == '\u{85}' || c == '\u{a0}' || c
        == '\u{1680}' || ('\u{2000}' <= c && c <= '\u{200a}') || c == '\u{2028}' || c
        == '\u{2029}' || c == '\u{202f}' || c == '\u{205f}' || c == '\u{3000}'
}

/// Index of the first non-whitespace character at or after `i` (or `s.len()`).
pub open spec fn lo_from(s: Seq<char>, i: int) -> int
    decreases s.len() - i,
{
    if i < 0 || i >= s.len() {
        s.len() as int
    } else if is_ws(s[i]) {
        lo_from(s, i + 1)
    } else {
        i
    }
}

/// One past the last non-whitespace character at or before `j - 1` (or `0`).
pub open spec fn hi_from(s: Seq<char>, j: int) -> int
    decreases j,
{
    if j <= 0 || j > s.len() {
        0
    } else if is_ws(s[j - 1]) {
        hi_from(s, j - 1)
    } else {
        j
    }
}

pub proof fn lemma_lo_bounds(s: Seq<char>, i: int)
    requires
        0 <= i <= s.len(),
    ensures
        i <= lo_from(s, i) <= s.len(),
    decreases s.len() - i,
{
    if i < s.len() && is_ws(s[i]) {
        lemma_lo_bounds(s, i + 1);
    }
}

pub proof fn lemma_hi_bounds(s: Seq<char>, j: int)
    requires
        0 <= j <= s.len(),
    ensures
        0 <= hi_from(s, j) <= j,
    decreases j,
{
    if j > 0 && is_ws(s[j - 1]) {
        lemma_hi_bounds(s, j - 1);
    }
}

/// `str::trim`: the input without leading and trailing whitespace.
pub open spec fn trim(s: Seq<char>) -> Seq<char> {
    let lo = lo_from(s, 0);
    let hi = hi_from(s, s.len() as int);
    if lo < hi {
        s.subrange(lo, hi)
    } else {
        Seq::empty()
    }
}

/// A string that is empty once trimmed.
pub open spec fn is_blank(s: Seq<char>) -> bool {
    trim(s).len() == 0
}

/// `Option<&str>` passed through `.map(str::trim).filter(|v| !v.is_empty())`.
pub open spec fn non_blank(s: Option<Seq<char>>) -> Option<Seq<char>> {
    match s {
        Some(v) => if is_blank(v) {
            None
        } else {
            Some(trim(v))
        },
        None => None,
    }
}

pub open spec fn starts_with(s: Seq<char>, p: Seq<char>) -> bool {
    p.len() <= s.len() && s.subrange(0, p.len() as int) == p
}

pub open spec fn ends_with(s: Seq<char>, p: Seq<char>) -> bool {
    p.len() <= s.len() && s.subrange(s.len() - p.len(), s.len() as int) == p
}

pub open spec fn occurs_at(s: Seq<char>, p: Seq<char>, i: int) -> bool {
    0 <= i && i + p.len() <= s.len() && s.subrange(i, i + p.len()) == p
}

pub open spec fn contains(s: Seq<char>, p: Seq<char>) -> bool {
    exists|i: int| occurs_at(s, p, i)
}

pub open spec fn ascii_lower_char(c: char) -> char {
    if 'A' <= c && c <= 'Z' {
        (((c as u8) + 32) as u8) as char
    } else {
        c
    }
}

/// `str::to_ascii_lowercase`.
pub open spec fn ascii_lower(s: Seq<char>) -> Seq<char> {
    s.map_values(|c: char| ascii_lower_char(c))
}

/// Length of the longest common prefix of `a` and `b` from position `i` on.
pub open spec fn cp_from(a: Seq<char>, b: Seq<char>, i: int) -> int
    decreases a.len() - i,
{
    if i < 0 || i >= a.len() || i >= b.len() || a[i] != b[i] {
        i
    } else {
        cp_from(a, b, i + 1)
    }
}

/// Length of the longest common prefix of `a` and `b`.
pub open spec fn common_prefix(a: Seq<char>, b: Seq<char>) -> int {
    cp_from(a, b, 0)
}

/// Strict lexicographic order by code point, the order `String`'s `Ord`
/// gives (UTF-8 byte order agrees with code-point order).
pub open spec fn lex_lt(a: Seq<char>, b: Seq<char>) -> bool {
    let m = common_prefix(a, b);
    (m == a.len() && m < b.len()) || (m < a.len() && m < b.len() && a[m] < b[m])
}

proof fn lemma_cp_from(a: Seq<char>, b: Seq<char>, i: int)
    requires
        0 <= i <= a.len(),
        i <= b.len(),
        forall|j: int| 0 <= j < i ==> a[j] == b[j],
    ensures
        i <= cp_from(a, b, i) <= a.len(),
        cp_from(a, b, i) <= b.len(),
        forall|j: int| 0 <= j < cp_from(a, b, i) ==> a[j] == b[j],
        cp_from(a, b, i) == a.len() || cp_from(a, b, i) == b.len() || a[cp_from(a, b, i)]
            != b[cp_from(a, b, i)],
    decreases a.len() - i,
{
    if i < a.len() && i < b.len() && a[i] == b[i] {
        lemma_cp_from(a, b, i + 1);
    }
}

/// What the common prefix is: the two agree below it and differ (or one ends) at it.
pub proof fn lemma_common_prefix(a: Seq<char>, b: Seq<char>)
    ensures
        0 <= common_prefix(a, b) <= a.len(),
        common_prefix(a, b) <= b.len(),
        forall|j: int| 0 <= j < common_prefix(a, b) ==> a[j] == b[j],
        common_prefix(a, b) == a.len() || common_prefix(a, b) == b.len() || a[common_prefix(
            a,
            b,
        )] != b[common_prefix(a, b)],
{
    lemma_cp_from(a, b, 0);
}

/// Any index with that property is the common prefix.
pub proof fn lemma_common_prefix_unique(a: Seq<char>, b: Seq<char>, m: int)
    requires
        0 <= m <= a.len(),
        m <= b.len(),
        forall|j: int| 0 <= j < m ==> a[j] == b[j],
        m == a.len() || m == b.len() || a[m] != b[m],
    ensures
        common_prefix(a, b) == m,
{
    lemma_common_prefix(a, b);
    let c = common_prefix(a, b);
    if c < m {
        assert(a[c] == b[c]);
    } else if c > m {
        assert(a[m] == b[m]);
    }
}

pub proof fn lemma_common_prefix_symmetric(a: Seq<char>, b: Seq<char>)
    ensures
        common_prefix(a, b) == common_prefix(b, a),
{
    lemma_common_prefix(a, b);
    lemma_common_prefix_unique(b, a, common_prefix(a, b));
}

/// Exactly one of `a < b`, `a == b`, `b < a` holds.
pub proof fn lemma_lex_trichotomy(a: Seq<char>, b: Seq<char>)
    ensures
        lex_lt(a, b) || a == b || lex_lt(b, a),
        !(lex_lt(a, b) && lex_lt(b, a)),
        lex_lt(a, b) ==> a != b,
{
    lemma_common_prefix(a, b);
    lemma_common_prefix_symmetric(a, b);
    let m = common_prefix(a, b);
    if m == a.len() && m == b.len() {
        assert(a =~= b);
    }
    if a == b {
        lemma_common_prefix_unique(a, b, a.len() as int);
    }
}

/// Strict order is transitive.
pub proof fn lemma_lex_transitive(a: Seq<char>, b: Seq<char>, c: Seq<char>)
    requires
        lex_lt(a, b),
        lex_lt(b, c),
    ensures
        lex_lt(a, c),
{
    lemma_common_prefix(a, b);
    lemma_common_prefix(b, c);
    let p = common_prefix(a, b);
    let q = common_prefix(b, c);
    if p < q {
        lemma_common_prefix_unique(a, c, p);
        if p < a.len() {
            assert(b[p] == c[p]);
        }
    } else if p > q {
        assert(a[q] == b[q]);
        lemma_common_prefix_unique(a, c, q);
    } else {
        if p == a.len() {
            lemma_common_prefix_unique(a, c, p);
        } else {
            lemma_common_prefix_unique(a, c, p);
        }
    }
}

/// The views of a sequence of strings.
pub open spec fn strings_view(v: Seq<String>) -> Seq<Seq<char>> {
    v.map_values(|s: String| s@)
}

pub fn chars_of(s: &str) -> (out: Vec<char>)
    ensures
        out@ == s@,
{
    broadcast use vstd::string::group_string_axioms;

    let mut out: Vec<char> = Vec::new();
    for c in it: s.chars()
        invariant
            out@ == it.seq().take(it.index() as int),
            it.seq() == s@,
    {
        out.push(c);
    }
    out
}

/// `String::push`, which vstd leaves unspecified.
#[verifier::external_body]
fn push_char(s: &mut String, c: char)
    ensures
        final(s)@ == old(s)@.push(c),
{
    s.push(c);
}

pub fn string_of(v: &[char]) -> (s: String)
    ensures
        s@ == v@,
{
    let mut s = String::new();
    let mut i: usize = 0;
    while i < v.len()
        invariant
            i <= v.len(),
            s@ == v@.subrange(0, i as int),
        decreases v.len() - i,
    {
        push_char(&mut s, v[i]);
        i += 1;
        assert(v@.subrange(0, i as int) == v@.subrange(0, i - 1).push(v@[i - 1]));
    }
    assert(v@.subrange(0, v.len() as int) == v@);
    s
}

pub fn string_of_range(v: &[char], lo: usize, hi: usize) -> (s: String)
    requires
        lo <= hi <= v.len(),
    ensures
        s@ == v@.subrange(lo as int, hi as int),
{
    let mut s = String::new();
    let mut i: usize = lo;
    while i < hi
        invariant
            lo <= i <= hi <= v.len(),
            s@ == v@.subrange(lo as int, i as int),
        decreases hi - i,
    {
        push_char(&mut s, v[i]);
        i += 1;
        assert(v@.subrange(lo as int, i as int) == v@.subrange(lo as int, i - 1).push(
            v@[i - 1],
        ));
    }
    s
}

/// Appends `t` to `s`.
pub fn push_str(s: &mut String, t: &str)
    ensures
        final(s)@ == old(s)@ + t@,
{
    let cs = chars_of(t);
    let mut i: usize = 0;
    while i < cs.len()
        invariant
            i <= cs.len(),
            cs@ == t@,
            s@ == old(s)@ + cs@.subrange(0, i as int),
        decreases cs.len() - i,
    {
        push_char(s, cs[i]);
        i += 1;
        assert(cs@.subrange(0, i as int) == cs@.subrange(0, i - 1).push(cs@[i - 1]));
    }
    assert(cs@.subrange(0, cs.len() as int) == cs@);
}

pub fn copy_string(t: &str) -> (s: String)
    ensures
        s@ == t@,
{
    let mut s = String::new();
    push_str(&mut s, t);
    assert(s@ == Seq::<char>::empty() + t@);
    s
}

pub fn seq_eq(a: &[char], b: &[char]) -> (r: bool)
    ensures
        r == (a@ == b@),
{
    if a.len() != b.len() {
        return false;
    }
    let mut i: usize = 0;
    while i < a.len()
        invariant
            a.len() == b.len(),
            i <= a.len(),
            forall|k: int| 0 <= k < i ==> a@[k] == b@[k],
        decreases a.len() - i,
    {
        if a[i] != b[i] {
            return false;
        }
        i += 1;
    }
    assert(a@ =~= b@);
    true
}

pub fn str_eq(a: &str, b: &str) -> (r: bool)
    ensures
        r == (a@ == b@),
{
    let ca = chars_of(a);
    let cb = chars_of(b);
    seq_eq(ca.as_slice(), cb.as_slice())
}

/// Position of the first non-whitespace character of `v` (or its length).
pub fn lo_index(v: &[char]) -> (i: usize)
    ensures
        i == lo_from(v@, 0),
        i <= v.len(),
{
    proof {
        lemma_lo_bounds(v@, 0);
    }
    let mut i: usize = 0;
    while i < v.len() && ws_char(v[i])
        invariant
            i <= v.len(),
            lo_from(v@, i as int) == lo_from(v@, 0),
        decreases v.len() - i,
    {
        i += 1;
    }
    i
}

/// One past the last non-whitespace character of `v` (or `0`).
pub fn hi_index(v: &[char]) -> (j: usize)
    ensures
        j == hi_from(v@, v@.len() as int),
        j <= v.len(),
{
    proof {
        lemma_hi_bounds(v@, v@.len() as int);
    }
    let mut j: usize = v.len();
    while j > 0 && ws_char(v[j - 1])
        invariant
            j <= v.len(),
            hi_from(v@, j as int) == hi_from(v@, v@.len() as int),
        decreases j,
    {
        j -= 1;
    }
    j
}

pub fn trim_chars(v: &[char]) -> (out: String)
    ensures
        out@ == trim(v@),
{
    let lo = lo_index(v);
    let hi = hi_index(v);
    if lo < hi {
        string_of_range(v, lo, hi)
    } else {
        String::new()
    }
}

/// `str::trim`, as an owned string.
pub fn trimmed(s: &str) -> (out: String)
    ensures
        out@ == trim(s@),
{
    let v = chars_of(s);
    trim_chars(v.as_slice())
}

pub fn blank(s: &str) -> (b: bool)
    ensures
        b == is_blank(s@),
{
    let v = chars_of(s);
    let lo = lo_index(v.as_slice());
    let hi = hi_index(v.as_slice());
    !(lo < hi)
}

/// `value.map(str::trim).filter(|v| !v.is_empty()).map(ToOwned::to_owned)`.
pub fn non_blank_owned(value: Option<&str>) -> (out: Option<String>)
    ensures
        out.is_some() == non_blank(opt_view(value)).is_some(),
        out.is_some() ==> out.unwrap()@ == non_blank(opt_view(value)).unwrap(),
{
    match value {
        None => None,
        Some(v) => {
            if blank(v) {
                None
            } else {
                Some(trimmed(v))
            }
        },
    }
}

pub open spec fn opt_view(value: Option<&str>) -> Option<Seq<char>> {
    match value {
        Some(v) => Some(v@),
        None => None,
    }
}

pub open spec fn opt_string_view(value: Option<String>) -> Option<Seq<char>> {
    match value {
        Some(v) => Some(v@),
        None => None,
    }
}

pub fn seq_starts_with(v: &[char], p: &[char]) -> (b: bool)
    ensures
        b == starts_with(v@, p@),
{
    if p.len() > v.len() {
        return false;
    }
    let mut i: usize = 0;
    while i < p.len()
        invariant
            p.len() <= v.len(),
            i <= p.len(),
            forall|k: int| 0 <= k < i ==> v@[k] == p@[k],
        decreases p.len() - i,
    {
        if v[i] != p[i] {
            assert(v@.subrange(0, p.len() as int)[i as int] != p@[i as int]);
            return false;
        }
        i += 1;
    }
    assert(v@.subrange(0, p.len() as int) =~= p@);
    true
}

pub fn str_starts_with(s: &str, p: &str) -> (b: bool)
    ensures
        b == starts_with(s@, p@),
{
    let v = chars_of(s);
    let q = chars_of(p);
    seq_starts_with(v.as_slice(), q.as_slice())
}

pub fn seq_occurs_at(v: &[char], p: &[char], i: usize) -> (b: bool)
    ensures
        b == occurs_at(v@, p@, i as int),
{
    if i > v.len() || p.len() > v.len() - i {
        return false;
    }
    let mut k: usize = 0;
    while k < p.len()
        invariant
            i + p.len() <= v.len(),
            k <= p.len(),
            forall|m: int| 0 <= m < k ==> v@[i + m] == p@[m],
        decreases p.len() - k,
    {
        if v[i + k] != p[k] {
            assert(v@.subrange(i as int, i + p.len())[k as int] != p@[k as int]);
            return false;
        }
        k += 1;
    }
    assert(v@.subrange(i as int, i + p.len()) =~= p@);
    true
}

pub fn seq_ends_with(v: &[char], p: &[char]) -> (b: bool)
    ensures
        b == ends_with(v@, p@),
{
    if p.len() > v.len() {
        return false;
    }
    seq_occurs_at(v, p, v.len() - p.len())
}

pub fn seq_contains(v: &[char], p: &[char]) -> (b: bool)
    ensures
        b == contains(v@, p@),
{
    if p.len() > v.len() {
        assert forall|i: int| !occurs_at(v@, p@, i) by {}
        return false;
    }
    let last = v.len() - p.len();
    let mut i: usize = 0;
    loop
        invariant
            p.len() <= v.len(),
            last == v.len() - p.len(),
            i <= last,
            forall|j: int| 0 <= j < i ==> !occurs_at(v@, p@, j),
        ensures
            forall|j: int| 0 <= j <= last ==> !occurs_at(v@, p@, j),
        decreases last - i,
    {
        if seq_occurs_at(v, p, i) {
            return true;
        }
        if i == last {
            break;
        }
        i += 1;
    }
    assert forall|j: int| !occurs_at(v@, p@, j) by {
        if 0 <= j <= last {
        }
    }
    false
}

pub fn str_contains(s: &str, p: &str) -> (b: bool)
    ensures
        b == contains(s@, p@),
{
    let v = chars_of(s);
    let q = chars_of(p);
    seq_contains(v.as_slice(), q.as_slice())
}

pub fn lower_char(c: char) -> (d: char)
    ensures
        d == ascii_lower_char(c),
{
    if 'A' <= c && c <= 'Z' {
        let code: u8 = c as u8;
        ((code + 32) as u8) as char
    } else {
        c
    }
}

pub fn lower_chars(v: &[char]) -> (out: Vec<char>)
    ensures
        out@ == ascii_lower(v@),
{
    let mut out: Vec<char> = Vec::new();
    let mut i: usize = 0;
    while i < v.len()
        invariant
            i <= v.len(),
            out@ == ascii_lower(v@.subrange(0, i as int)),
        decreases v.len() - i,
    {
        let d = lower_char(v[i]);
        out.push(d);
        i += 1;
        assert(ascii_lower(v@.subrange(0, i as int)) =~= ascii_lower(
            v@.subrange(0, i - 1),
        ).push(ascii_lower_char(v@[i - 1])));
    }
    assert(v@.subrange(0, v.len() as int) == v@);
    out
}

/// `str::to_ascii_lowercase`.
pub fn to_ascii_lower(s: &str) -> (out: String)
    ensures
        out@ == ascii_lower(s@),
{
    let v = chars_of(s);
    let l = lower_chars(v.as_slice());
    string_of(l.as_slice())
}

/// `a < b` in `String` order.
pub fn seq_lex_lt(a: &[char], b: &[char]) -> (r: bool)
    ensures
        r == lex_lt(a@, b@),
{
    let mut k: usize = 0;
    while k < a.len() && k < b.len() && a[k] == b[k]
        invariant
            k <= a.len(),
            k <= b.len(),
            forall|j: int| 0 <= j < k ==> a@[j] == b@[j],
        decreases a.len() - k,
    {
        k += 1;
    }
    proof {
        lemma_common_prefix_unique(a@, b@, k as int);
    }
    if k == a.len() {
        k < b.len()
    } else if k == b.len() {
        false
    } else {
        a[k] < b[k]
    }
}

pub fn str_lex_lt(a: &str, b: &str) -> (r: bool)
    ensures
        r == lex_lt(a@, b@),
{
    let va = chars_of(a);
    let vb = chars_of(b);
    seq_lex_lt(va.as_slice(), vb.as_slice())
}

/// `s.split(sep)`: the pieces between occurrences of `sep`, for the piece
/// that starts at `start`, scanned from `i`.
pub open spec fn split_from(s: Seq<char>, sep: char, start: int, i: int) -> Seq<Seq<char>>
    decreases s.len() - i,
{
    if i >= s.len() {
        seq![s.subrange(start, s.len() as int)]
    } else if s[i] == sep {
        seq![s.subrange(start, i)] + split_from(s, sep, i + 1, i + 1)
    } else {
        split_from(s, sep, start, i + 1)
    }
}

pub open spec fn split_on(s: Seq<char>, sep: char) -> Seq<Seq<char>> {
    split_from(s, sep, 0, 0)
}

/// `s.split(sep)` collected.
pub fn split_pieces(s: &str, sep: char) -> (out: Vec<String>)
    ensures
        strings_view(out@) == split_on(s@, sep),
{
    let cs = chars_of(s);
    let mut out: Vec<String> = Vec::new();
    let mut start: usize = 0;
    let mut i: usize = 0;
    while i < cs.len()
        invariant
            start <= i <= cs.len(),
            cs@ == s@,
            strings_view(out@) + split_from(cs@, sep, start as int, i as int) == split_on(cs@, sep),
        decreases cs.len() - i,
    {
        if cs[i] == sep {
            let piece = string_of_range(cs.as_slice(), start, i);
            let ghost before = strings_view(out@);
            out.push(piece);
            proof {
                let rest = split_from(cs@, sep, i + 1, i + 1);
                assert(strings_view(out@) =~= before.push(piece@));
                assert(before + (seq![piece@] + rest) =~= before.push(piece@) + rest);
            }
            start = i + 1;
        }
        i += 1;
    }
    let piece = string_of_range(cs.as_slice(), start, cs.len());
    let ghost before = strings_view(out@);
    out.push(piece);
    assert(strings_view(out@) =~= before.push(piece@));
    assert(before + seq![piece@] =~= before.push(piece@));
    out
}

} // verus!
