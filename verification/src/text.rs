//! Small verified string helpers used by the configuration parsers.
use vstd::prelude::*;
use vstd::string::StrSliceExecFns;

verus! {

/// ASCII lower-casing of one character; other characters are unchanged.
pub open spec fn ascii_lower(c: char) -> char {
    if 'A' <= c <= 'Z' {
        ((c as u32) + 32) as char
    } else {
        c
    }
}

/// ASCII lower-casing of a whole string.
pub open spec fn ascii_lowercase_spec(s: Seq<char>) -> Seq<char> {
    s.map_values(|c: char| ascii_lower(c))
}

/// `str::to_ascii_lowercase`: maps `A..=Z` to `a..=z` and leaves every other
/// character as it is.
#[verifier::external_body]
pub fn to_ascii_lowercase(s: &str) -> (r: String)
    ensures
        r@ == ascii_lowercase_spec(s@),
{
    s.to_ascii_lowercase()
}

/// ASCII upper-casing of one character; other characters are unchanged.
pub open spec fn ascii_upper(c: char) -> char {
    if 'a' <= c <= 'z' {
        ((c as u32) - 32) as char
    } else {
        c
    }
}

/// ASCII upper-casing of a whole string.
pub open spec fn ascii_uppercase_spec(s: Seq<char>) -> Seq<char> {
    s.map_values(|c: char| ascii_upper(c))
}

/// `str::to_ascii_uppercase`: maps `a..=z` to `A..=Z` and leaves every other
/// character as it is.
#[verifier::external_body]
pub fn to_ascii_uppercase(s: &str) -> (r: String)
    ensures
        r@ == ascii_uppercase_spec(s@),
{
    s.to_ascii_uppercase()
}

fn bytes_equal(a: &[u8], b: &[u8]) -> (r: bool)
    ensures
        r == (a@ == b@),
{
    if a.len() != b.len() {
        return false;
    }
    let mut i: usize = 0;
    while i < a.len()
        invariant
            a@.len() == b@.len(),
            i <= a@.len(),
            forall|k: int| 0 <= k < i ==> a@[k] == b@[k],
        decreases a@.len() - i,
    {
        if a[i] != b[i] {
            return false;
        }
        i += 1;
    }
    assert(a@ =~= b@);
    true
}

/// String equality, decided on the UTF-8 bytes.
pub fn str_eq(a: &str, b: &str) -> (r: bool)
    ensures
        r == (a@ == b@),
{
    let x = a.as_bytes();
    let y = b.as_bytes();
    let same = bytes_equal(x, y);
    proof {
        vstd::utf8::encode_utf8_decode_utf8(a@);
        vstd::utf8::encode_utf8_decode_utf8(b@);
    }
    same
}

/// The Unicode `White_Space` property.
pub open spec fn white_space(c: char) -> bool {
    ||| '\u{9}' <= c <= '\u{D}'
    ||| c == ' '
    ||| c == '\u{85}'
    ||| c == '\u{A0}'
    ||| c == '\u{1680}'
    ||| '\u{2000}' <= c <= '\u{200A}'
    ||| c == '\u{2028}'
    ||| c == '\u{2029}'
    ||| c == '\u{202F}'
    ||| c == '\u{205F}'
    ||| c == '\u{3000}'
}

/// Whether `c` has the Unicode `White_Space` property, as
/// `char::is_whitespace` answers.
pub fn is_whitespace(c: char) -> (r: bool)
    ensures
        r == white_space(c),
{
    ('\u{9}' <= c && c <= '\u{D}') || c == ' ' || c == '\u{85}' || c == '\u{A0}' || c == '\u{1680}'
        || ('\u{2000}' <= c && c <= '\u{200A}') || c == '\u{2028}' || c == '\u{2029}' || c == '\u{202F}'
        || c == '\u{205F}' || c == '\u{3000}'
}

/// `s` without its leading white space.
pub open spec fn trim_start_spec(s: Seq<char>) -> Seq<char>
    decreases s.len(),
{
    if s.len() > 0 && white_space(s[0]) {
        trim_start_spec(s.drop_first())
    } else {
        s
    }
}

/// `s` without its trailing white space.
pub open spec fn trim_end_spec(s: Seq<char>) -> Seq<char>
    decreases s.len(),
{
    if s.len() > 0 && white_space(s.last()) {
        trim_end_spec(s.drop_last())
    } else {
        s
    }
}

/// `s` without leading and trailing white space (`str::trim`).
pub open spec fn trim_spec(s: Seq<char>) -> Seq<char> {
    trim_end_spec(trim_start_spec(s))
}

proof fn lemma_trim_start_at(s: Seq<char>, k: int)
    requires
        0 <= k <= s.len(),
        forall|i: int| 0 <= i < k ==> white_space(#[trigger] s[i]),
        k == s.len() || !white_space(s[k]),
    ensures
        trim_start_spec(s) == s.subrange(k, s.len() as int),
    decreases k,
{
    if k == 0 {
        assert(s.subrange(0, s.len() as int) =~= s);
    } else {
        let t = s.drop_first();
        assert forall|i: int| 0 <= i < k - 1 implies white_space(#[trigger] t[i]) by {
            assert(t[i] == s[i + 1]);
        }
        lemma_trim_start_at(t, k - 1);
        assert(t.subrange(k - 1, t.len() as int) =~= s.subrange(k, s.len() as int));
    }
}

proof fn lemma_trim_end_at(s: Seq<char>, k: int)
    requires
        0 <= k <= s.len(),
        forall|i: int| k <= i < s.len() ==> white_space(#[trigger] s[i]),
        k == 0 || !white_space(s[k - 1]),
    ensures
        trim_end_spec(s) == s.subrange(0, k),
    decreases s.len() - k,
{
    if k == s.len() {
        assert(s.subrange(0, k) =~= s);
    } else {
        let t = s.drop_last();
        assert forall|i: int| k <= i < t.len() implies white_space(#[trigger] t[i]) by {
            assert(t[i] == s[i]);
        }
        lemma_trim_end_at(t, k);
        assert(t.subrange(0, k) =~= s.subrange(0, k));
    }
}

/// `str::trim`: drops leading and trailing white space.
pub fn trim(s: &str) -> (r: &str)
    ensures
        r@ == trim_spec(s@),
{
    let n = s.unicode_len();
    let mut lo: usize = 0;
    while lo < n && is_whitespace(s.get_char(lo))
        invariant
            n == s@.len(),
            lo <= n,
            forall|i: int| 0 <= i < lo ==> white_space(#[trigger] s@[i]),
        decreases n - lo,
    {
        lo += 1;
    }
    proof {
        lemma_trim_start_at(s@, lo as int);
    }
    let ghost t = s@.subrange(lo as int, n as int);
    let mut hi: usize = n;
    while hi > lo && is_whitespace(s.get_char(hi - 1))
        invariant
            n == s@.len(),
            lo <= hi <= n,
            t == s@.subrange(lo as int, n as int),
            forall|i: int| hi <= i < n ==> white_space(#[trigger] s@[i]),
        decreases hi - lo,
    {
        hi -= 1;
    }
    proof {
        assert forall|i: int| hi - lo <= i < t.len() implies white_space(#[trigger] t[i]) by {
            assert(t[i] == s@[i + lo]);
        }
        if hi > lo {
            assert(t[hi - lo - 1] == s@[hi - 1]);
        }
        lemma_trim_end_at(t, hi - lo);
        assert(t.subrange(0, hi - lo) =~= s@.subrange(lo as int, hi as int));
    }
    s.substring_char(lo, hi)
}

/// `p` occurs in `s` starting at character `i`.
pub open spec fn occurs_at(s: Seq<char>, p: Seq<char>, i: int) -> bool {
    0 <= i && i + p.len() <= s.len() && s.subrange(i, i + p.len()) == p
}

/// `i` is the first position at which `p` occurs in `s`.
pub open spec fn first_at(s: Seq<char>, p: Seq<char>, i: int) -> bool {
    occurs_at(s, p, i) && forall|j: int| 0 <= j < i ==> !#[trigger] occurs_at(s, p, j)
}

/// The first position at which `p` occurs in `s`, if any.
pub open spec fn first_occurrence(s: Seq<char>, p: Seq<char>) -> Option<int> {
    if exists|i: int| #[trigger] occurs_at(s, p, i) {
        Some(choose|i: int| #[trigger] first_at(s, p, i))
    } else {
        None
    }
}

/// `str::split_once`: the parts before and after the first occurrence of `p`.
pub open spec fn split_once_spec(s: Seq<char>, p: Seq<char>) -> Option<(Seq<char>, Seq<char>)> {
    match first_occurrence(s, p) {
        Some(i) => Some((s.subrange(0, i), s.subrange(i + p.len(), s.len() as int))),
        None => None,
    }
}

proof fn lemma_some_first(s: Seq<char>, p: Seq<char>, k: int)
    requires
        occurs_at(s, p, k),
    ensures
        exists|i: int| #[trigger] first_at(s, p, i),
    decreases k,
{
    if exists|j: int| 0 <= j < k && #[trigger] occurs_at(s, p, j) {
        let j = choose|j: int| 0 <= j < k && #[trigger] occurs_at(s, p, j);
        lemma_some_first(s, p, j);
    } else {
        assert(first_at(s, p, k));
    }
}

/// Splitting at the first occurrence of `p` and putting `p` back between the
/// parts gives the original text, and the first part holds no `p`.
pub proof fn lemma_split_once_rejoins(s: Seq<char>, p: Seq<char>)
    requires
        split_once_spec(s, p) is Some,
        p.len() > 0,
    ensures
        match split_once_spec(s, p) {
            Some((a, b)) => a + p + b == s && forall|j: int| !#[trigger] occurs_at(a, p, j),
            None => false,
        },
{
    let k = choose|i: int| #[trigger] occurs_at(s, p, i);
    lemma_some_first(s, p, k);
    let i = choose|i: int| #[trigger] first_at(s, p, i);
    assert(first_at(s, p, i));
    let a = s.subrange(0, i);
    let b = s.subrange(i + p.len(), s.len() as int);
    assert(a + p + b =~= s) by {
        assert(s.subrange(i, i + p.len()) == p);
    }
    assert forall|j: int| !#[trigger] occurs_at(a, p, j) by {
        if occurs_at(a, p, j) {
            assert(a.subrange(j, j + p.len()) =~= s.subrange(j, j + p.len()));
            assert(occurs_at(s, p, j));
            assert(j < i);
        }
    }
}

pub proof fn lemma_first_occurrence_is(s: Seq<char>, p: Seq<char>, i: int)
    requires
        first_at(s, p, i),
    ensures
        first_occurrence(s, p) == Some(i),
{
    let c = choose|k: int| #[trigger] first_at(s, p, k);
    assert(first_at(s, p, c));
    if c < i {
        assert(!occurs_at(s, p, c));
    }
    if i < c {
        assert(!occurs_at(s, p, i));
    }
}

fn occurs_at_exec(s: &str, n: usize, p: &str, m: usize, i: usize) -> (r: bool)
    requires
        n == s@.len(),
        m == p@.len(),
        i + m <= n,
    ensures
        r == occurs_at(s@, p@, i as int),
{
    let mut k: usize = 0;
    while k < m
        invariant
            n == s@.len(),
            m == p@.len(),
            i + m <= n,
            k <= m,
            forall|j: int| 0 <= j < k ==> s@[i + j] == p@[j],
        decreases m - k,
    {
        if s.get_char(i + k) != p.get_char(k) {
            assert(s@.subrange(i as int, i + m)[k as int] != p@[k as int]);
            return false;
        }
        k += 1;
    }
    assert(s@.subrange(i as int, i + m) =~= p@);
    true
}

/// The character index of the first occurrence of `p` in `s`.
pub fn find(s: &str, p: &str) -> (r: Option<usize>)
    ensures
        r matches Some(i) ==> first_occurrence(s@, p@) == Some(i as int) && first_at(s@, p@, i as int),
        r is None ==> first_occurrence(s@, p@) is None,
{
    let n = s.unicode_len();
    let m = p.unicode_len();
    if m > n {
        assert forall|i: int| !#[trigger] occurs_at(s@, p@, i) by {}
        return None;
    }
    if m == 0 {
        proof {
            assert(s@.subrange(0, 0) =~= p@);
            lemma_first_occurrence_is(s@, p@, 0);
        }
        return Some(0);
    }
    let mut i: usize = 0;
    while i <= n - m
        invariant
            n == s@.len(),
            m == p@.len(),
            1 <= m <= n,
            i <= n - m + 1,
            forall|j: int| 0 <= j < i ==> !#[trigger] occurs_at(s@, p@, j),
        decreases n - m + 1 - i,
    {
        if occurs_at_exec(s, n, p, m, i) {
            proof {
                lemma_first_occurrence_is(s@, p@, i as int);
            }
            return Some(i);
        }
        i += 1;
    }
    assert forall|j: int| !#[trigger] occurs_at(s@, p@, j) by {
        if 0 <= j < i {
        }
    }
    None
}

/// `str::split_once`, by characters.
pub fn split_once<'a>(s: &'a str, p: &str) -> (r: Option<(&'a str, &'a str)>)
    ensures
        r matches Some((a, b)) ==> split_once_spec(s@, p@) == Some((a@, b@)),
        r is None ==> split_once_spec(s@, p@) is None,
{
    match find(s, p) {
        Some(i) => {
            let n = s.unicode_len();
            let m = p.unicode_len();
            Some((s.substring_char(0, i), s.substring_char(i + m, n)))
        },
        None => None,
    }
}


/// The decimal digit `d` (for `d < 10`).
pub open spec fn digit_char(d: nat) -> char {
    if d == 0 {
        '0'
    } else if d == 1 {
        '1'
    } else if d == 2 {
        '2'
    } else if d == 3 {
        '3'
    } else if d == 4 {
        '4'
    } else if d == 5 {
        '5'
    } else if d == 6 {
        '6'
    } else if d == 7 {
        '7'
    } else if d == 8 {
        '8'
    } else {
        '9'
    }
}

/// The decimal text of `n`, as `{}` formats an unsigned integer.
pub open spec fn decimal_spec(n: nat) -> Seq<char>
    decreases n,
{
    if n < 10 {
        seq![digit_char(n)]
    } else {
        decimal_spec(n / 10).push(digit_char(n % 10))
    }
}

fn digit_text(d: usize) -> (r: &'static str)
    requires
        d < 10,
    ensures
        r@ == seq![digit_char(d as nat)],
{
    proof {
        reveal_strlit("0");
        reveal_strlit("1");
        reveal_strlit("2");
        reveal_strlit("3");
        reveal_strlit("4");
        reveal_strlit("5");
        reveal_strlit("6");
        reveal_strlit("7");
        reveal_strlit("8");
        reveal_strlit("9");
    }
    match d {
        0 => "0",
        1 => "1",
        2 => "2",
        3 => "3",
        4 => "4",
        5 => "5",
        6 => "6",
        7 => "7",
        8 => "8",
        _ => "9",
    }
}

/// Formats `n` in decimal.
pub fn decimal(n: usize) -> (r: String)
    ensures
        r@ == decimal_spec(n as nat),
    decreases n,
{
    if n < 10 {
        let d = digit_text(n);
        d.to_string()
    } else {
        let head = decimal(n / 10);
        let d = digit_text(n % 10);
        let r = head.concat(d);
        assert(r@ =~= decimal_spec(n as nat));
        r
    }
}


/// Lexicographic order of byte strings: the order of `[u8]` and of `str`.
pub open spec fn bytes_less(a: Seq<u8>, b: Seq<u8>) -> bool
    decreases a.len(),
{
    if a.len() == 0 {
        b.len() > 0
    } else if b.len() == 0 {
        false
    } else if a[0] < b[0] {
        true
    } else if a[0] > b[0] {
        false
    } else {
        bytes_less(a.drop_first(), b.drop_first())
    }
}

/// The order of `String` values: by their UTF-8 bytes.
pub open spec fn text_less(a: Seq<char>, b: Seq<char>) -> bool {
    bytes_less(vstd::utf8::encode_utf8(a), vstd::utf8::encode_utf8(b))
}

/// `bytes_less` is irreflexive and transitive, and any two distinct byte
/// strings are ordered one way or the other.
pub proof fn lemma_bytes_less_order(a: Seq<u8>, b: Seq<u8>, c: Seq<u8>)
    ensures
        !bytes_less(a, a),
        bytes_less(a, b) ==> !bytes_less(b, a),
        bytes_less(a, b) && bytes_less(b, c) ==> bytes_less(a, c),
        a != b ==> bytes_less(a, b) || bytes_less(b, a),
    decreases a.len(),
{
    if a.len() > 0 && b.len() > 0 && c.len() > 0 {
        lemma_bytes_less_order(a.drop_first(), b.drop_first(), c.drop_first());
    }
    if a.len() > 0 && b.len() > 0 {
        lemma_bytes_less_order(a.drop_first(), b.drop_first(), b.drop_first());
        if a != b && a[0] == b[0] {
            assert(a =~= seq![a[0]] + a.drop_first());
            assert(b =~= seq![b[0]] + b.drop_first());
        }
    }
    if a.len() > 0 {
        lemma_bytes_less_order(a.drop_first(), a.drop_first(), a.drop_first());
    }
    if a.len() == 0 && b.len() == 0 {
        assert(a =~= b);
    }
}

/// `text_less` is a strict total order on strings.
pub proof fn lemma_text_less_order(a: Seq<char>, b: Seq<char>, c: Seq<char>)
    ensures
        !text_less(a, a),
        text_less(a, b) ==> !text_less(b, a),
        text_less(a, b) && text_less(b, c) ==> text_less(a, c),
        a != b ==> text_less(a, b) || text_less(b, a),
{
    let ea = vstd::utf8::encode_utf8(a);
    let eb = vstd::utf8::encode_utf8(b);
    let ec = vstd::utf8::encode_utf8(c);
    lemma_bytes_less_order(ea, eb, ec);
    vstd::utf8::encode_utf8_decode_utf8(a);
    vstd::utf8::encode_utf8_decode_utf8(b);
}

proof fn lemma_bytes_less_skip(a: Seq<u8>, b: Seq<u8>, i: int)
    requires
        0 <= i <= a.len(),
        i <= b.len(),
        a.take(i) == b.take(i),
    ensures
        bytes_less(a, b) == bytes_less(a.skip(i), b.skip(i)),
    decreases i,
{
    if i > 0 {
        assert(a[0] == a.take(i)[0]);
        assert(b[0] == b.take(i)[0]);
        assert(a.drop_first().take(i - 1) =~= a.take(i).drop_first());
        assert(b.drop_first().take(i - 1) =~= b.take(i).drop_first());
        lemma_bytes_less_skip(a.drop_first(), b.drop_first(), i - 1);
        assert(a.drop_first().skip(i - 1) =~= a.skip(i));
        assert(b.drop_first().skip(i - 1) =~= b.skip(i));
    } else {
        assert(a.skip(0) =~= a);
        assert(b.skip(0) =~= b);
    }
}

/// Whether `a` sorts before `b` as a `String` does.
pub fn str_less(a: &str, b: &str) -> (r: bool)
    ensures
        r == text_less(a@, b@),
{
    let x = a.as_bytes();
    let y = b.as_bytes();
    let mut i: usize = 0;
    while i < x.len() && i < y.len()
        invariant
            x@ == vstd::utf8::encode_utf8(a@),
            y@ == vstd::utf8::encode_utf8(b@),
            i <= x@.len(),
            i <= y@.len(),
            x@.take(i as int) == y@.take(i as int),
        decreases x@.len() - i,
    {
        if x[i] != y[i] {
            proof {
                lemma_bytes_less_skip(x@, y@, i as int);
                let xs = x@.skip(i as int);
                let ys = y@.skip(i as int);
                assert(xs.len() > 0 && ys.len() > 0);
                assert(xs[0] == x@[i as int]);
                assert(ys[0] == y@[i as int]);
                assert(bytes_less(xs, ys) == (x@[i as int] < y@[i as int]));
            }
            return x[i] < y[i];
        }
        assert(x@.take(i + 1) =~= x@.take(i as int).push(x@[i as int]));
        assert(y@.take(i + 1) =~= y@.take(i as int).push(y@[i as int]));
        i += 1;
    }
    proof {
        lemma_bytes_less_skip(x@, y@, i as int);
    }
    i < y.len()
}

/// The first occurrence of `p`, when there is one, is an occurrence.
pub proof fn lemma_first_occurrence_occurs(s: Seq<char>, p: Seq<char>)
    ensures
        first_occurrence(s, p) matches Some(i) ==> first_at(s, p, i) && occurs_at(s, p, i),
{
    if exists|i: int| #[trigger] occurs_at(s, p, i) {
        let k = choose|i: int| #[trigger] occurs_at(s, p, i);
        lemma_some_first(s, p, k);
    }
}

/// `s` begins with `p`.
pub open spec fn starts_with_spec(s: Seq<char>, p: Seq<char>) -> bool {
    p.len() <= s.len() && s.take(p.len() as int) == p
}

/// `str::starts_with` for a string pattern.
pub fn starts_with(s: &str, p: &str) -> (r: bool)
    ensures
        r == starts_with_spec(s@, p@),
{
    let n = s.unicode_len();
    let m = p.unicode_len();
    if m > n {
        return false;
    }
    let r = occurs_at_exec(s, n, p, m, 0);
    assert(s@.subrange(0, m as int) =~= s@.take(m as int));
    r
}

/// `str::ends_with` for a character pattern.
pub fn ends_with_char(s: &str, c: char) -> (r: bool)
    ensures
        r == (s@.len() > 0 && s@.last() == c),
{
    let n = s.unicode_len();
    if n == 0 {
        return false;
    }
    s.get_char(n - 1) == c
}

/// `s` with every leading copy of `p` removed (`str::trim_start_matches`).
pub open spec fn strip_prefixes(s: Seq<char>, p: Seq<char>) -> Seq<char>
    decreases s.len(),
{
    if p.len() > 0 && starts_with_spec(s, p) {
        strip_prefixes(s.skip(p.len() as int), p)
    } else {
        s
    }
}

/// `str::trim_start_matches` for a string pattern.
pub fn trim_start_matches<'a>(s: &'a str, p: &str) -> (r: &'a str)
    ensures
        r@ == strip_prefixes(s@, p@),
{
    let n = s.unicode_len();
    let m = p.unicode_len();
    if m == 0 {
        return s;
    }
    let mut lo: usize = 0;
    assert(s@.skip(0) =~= s@);
    while m <= n - lo && occurs_at_exec(s, n, p, m, lo)
        invariant
            n == s@.len(),
            m == p@.len(),
            m > 0,
            lo <= n,
            strip_prefixes(s@, p@) == strip_prefixes(s@.skip(lo as int), p@),
        decreases n - lo,
    {
        proof {
            let t = s@.skip(lo as int);
            assert(t.take(m as int) =~= s@.subrange(lo as int, lo + m));
            assert(t.skip(m as int) =~= s@.skip(lo + m));
        }
        lo += m;
    }
    proof {
        let t = s@.skip(lo as int);
        if m <= t.len() {
            assert(t.take(m as int) =~= s@.subrange(lo as int, lo + m));
        }
        assert(s@.subrange(lo as int, n as int) =~= t);
    }
    s.substring_char(lo, n)
}

/// `s` with every trailing `c` removed (`str::trim_end_matches`).
pub open spec fn strip_suffix_chars(s: Seq<char>, c: char) -> Seq<char>
    decreases s.len(),
{
    if s.len() > 0 && s.last() == c {
        strip_suffix_chars(s.drop_last(), c)
    } else {
        s
    }
}

/// `str::trim_end_matches` for a character pattern.
pub fn trim_end_matches_char(s: &str, c: char) -> (r: &str)
    ensures
        r@ == strip_suffix_chars(s@, c),
{
    let mut hi = s.unicode_len();
    assert(s@.take(hi as int) =~= s@);
    while hi > 0 && s.get_char(hi - 1) == c
        invariant
            hi <= s@.len(),
            strip_suffix_chars(s@, c) == strip_suffix_chars(s@.take(hi as int), c),
        decreases hi,
    {
        assert(s@.take(hi as int).drop_last() =~= s@.take(hi - 1));
        hi -= 1;
    }
    assert(s@.subrange(0, hi as int) =~= s@.take(hi as int));
    s.substring_char(0, hi)
}

/// The number of non-overlapping occurrences of `p` in `s`, left to right
/// (`str::matches(..).count()` for a non-empty pattern).
pub open spec fn count_matches(s: Seq<char>, p: Seq<char>) -> nat
    decreases s.len(),
{
    if p.len() == 0 {
        0
    } else {
        match first_occurrence(s, p) {
            Some(i) => if 0 <= i && i + p.len() <= s.len() {
                1 + count_matches(s.skip(i + p.len()), p)
            } else {
                0
            },
            None => 0,
        }
    }
}

/// `s` with every non-overlapping occurrence of `p`, left to right,
/// replaced by `r` (`str::replace` for a non-empty pattern).
pub open spec fn replace_spec(s: Seq<char>, p: Seq<char>, r: Seq<char>) -> Seq<char>
    decreases s.len(),
{
    if p.len() == 0 {
        s
    } else {
        match first_occurrence(s, p) {
            Some(i) => if 0 <= i && i + p.len() <= s.len() {
                s.take(i) + r + replace_spec(s.skip(i + p.len()), p, r)
            } else {
                s
            },
            None => s,
        }
    }
}

/// `str::matches(p).count()` for a non-empty pattern.
pub fn count_matches_exec(s: &str, p: &str) -> (r: usize)
    requires
        p@.len() > 0,
    ensures
        r == count_matches(s@, p@),
{
    let m = p.unicode_len();
    let total = s.unicode_len();
    let mut rest = s;
    let mut count: usize = 0;
    loop
        invariant
            total == s@.len(),
            m == p@.len(),
            m > 0,
            count + count_matches(rest@, p@) == count_matches(s@, p@),
            count <= s@.len() - rest@.len(),
            rest@.len() <= s@.len(),
        decreases rest@.len(),
    {
        match find(rest, p) {
            Some(i) => {
                let n = rest.unicode_len();
                proof {
                    lemma_first_occurrence_occurs(rest@, p@);
                }
                let ghost before = rest@;
                rest = rest.substring_char(i + m, n);
                assert(rest@ =~= before.skip(i + m));
                assert(count_matches(before, p@) == 1 + count_matches(rest@, p@));
                count += 1;
            },
            None => {
                return count;
            },
        }
    }
}

/// `str::replace` for a non-empty pattern.
pub fn replace(s: &str, p: &str, r: &str) -> (out: String)
    requires
        p@.len() > 0,
    ensures
        out@ == replace_spec(s@, p@, r@),
{
    let m = p.unicode_len();
    let mut rest = s;
    let mut out = String::new();
    loop
        invariant
            m == p@.len(),
            m > 0,
            out@ + replace_spec(rest@, p@, r@) == replace_spec(s@, p@, r@),
        decreases rest@.len(),
    {
        match find(rest, p) {
            Some(i) => {
                let n = rest.unicode_len();
                proof {
                    lemma_first_occurrence_occurs(rest@, p@);
                }
                let ghost before = rest@;
                let ghost out_before = out@;
                let head = rest.substring_char(0, i);
                out.append(head);
                out.append(r);
                rest = rest.substring_char(i + m, n);
                proof {
                    assert(rest@ =~= before.skip(i + m));
                    assert(head@ =~= before.take(i as int));
                    assert(replace_spec(before, p@, r@) == before.take(i as int) + r@ + replace_spec(rest@, p@, r@));
                    assert(out@ + replace_spec(rest@, p@, r@) =~= out_before + replace_spec(before, p@, r@));
                }
            },
            None => {
                assert(replace_spec(rest@, p@, r@) == rest@);
                out.append(rest);
                return out;
            },
        }
    }
}

} // verus!
