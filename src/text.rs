use vstd::prelude::*;

verus! {

/// The characters of `s`, in order.
pub fn chars_of(s: &str) -> (r: Vec<char>)
    ensures
        r@ == s@,
{
    let mut r: Vec<char> = Vec::new();
    for c in it: s.chars()
        invariant
            r@ == it.seq().take(it.index() as int),
            it.seq() == s@,
    {
        r.push(c);
    }
    r
}

/// Relies on `FromIterator<&char>` for `String`: the string holds the given characters in order.
#[verifier::external_body]
pub(crate) fn string_of(v: &[char]) -> (r: String)
    ensures
        r@ == v@,
{
    v.iter().collect()
}

/// Appends all of `x` to `r`.
pub fn extend(r: &mut Vec<char>, x: &[char])
    ensures
        final(r)@ == old(r)@ + x@,
{
    let mut i: usize = 0;
    while i < x.len()
        invariant
            0 <= i <= x.len(),
            r@ == old(r)@ + x@.take(i as int),
        decreases x.len() - i,
    {
        r.push(x[i]);
        i = i + 1;
        assert(x@.take(i as int) == x@.take(i - 1) + seq![x@[i - 1]]);
    }
    assert(x@.take(x.len() as int) == x@);
}

/// `p` occurs in `s` at position `i`.
pub open spec fn occurs_at(s: Seq<char>, i: int, p: Seq<char>) -> bool {
    0 <= i && i + p.len() <= s.len() && s.subrange(i, i + p.len()) == p
}

pub fn occurs_at_exec(s: &[char], i: usize, p: &[char]) -> (b: bool)
    ensures
        b == occurs_at(s@, i as int, p@),
{
    if i > s.len() || p.len() > s.len() - i {
        return false;
    }
    let mut k: usize = 0;
    while k < p.len()
        invariant
            0 <= k <= p.len(),
            i + p.len() <= s.len(),
            forall|j: int| 0 <= j < k ==> s@[i + j] == p@[j],
        decreases p.len() - k,
    {
        if s[i + k] != p[k] {
            assert(s@.subrange(i as int, i + p.len())[k as int] != p@[k as int]);
            return false;
        }
        k = k + 1;
    }
    assert(s@.subrange(i as int, i + p.len()) == p@);
    true
}

/// Every non-overlapping occurrence of `pat` in `s` from position `i` on, taken from the
/// left, replaced by `rep`.
pub open spec fn replace_from(s: Seq<char>, i: int, pat: Seq<char>, rep: Seq<char>) -> Seq<char>
    decreases s.len() - i,
{
    if i < 0 || i >= s.len() {
        seq![]
    } else if pat.len() > 0 && occurs_at(s, i, pat) {
        rep + replace_from(s, i + pat.len(), pat, rep)
    } else {
        seq![s[i]] + replace_from(s, i + 1, pat, rep)
    }
}

pub open spec fn replace_all(s: Seq<char>, pat: Seq<char>, rep: Seq<char>) -> Seq<char> {
    replace_from(s, 0, pat, rep)
}

/// Replaces every non-overlapping occurrence of `pat`, from the left, by `rep`.
pub fn replace_chars(s: &[char], pat: &str, rep: &str) -> (r: Vec<char>)
    ensures
        r@ == replace_all(s@, pat@, rep@),
{
    let p = chars_of(pat);
    let q = chars_of(rep);
    let mut r: Vec<char> = Vec::new();
    let mut i: usize = 0;
    while i < s.len()
        invariant
            0 <= i <= s.len(),
            p@ == pat@,
            q@ == rep@,
            r@ + replace_from(s@, i as int, p@, q@) == replace_all(s@, p@, q@),
        decreases s.len() - i,
    {
        if p.len() > 0 && occurs_at_exec(s, i, &p) {
            let ghost before = r@;
            extend(&mut r, &q);
            assert(before + replace_from(s@, i as int, p@, q@) == r@ + replace_from(
                s@,
                i + p.len(),
                p@,
                q@,
            ));
            i = i + p.len();
        } else {
            let ghost before = r@;
            r.push(s[i]);
            assert(before + replace_from(s@, i as int, p@, q@) == r@ + replace_from(
                s@,
                i + 1,
                p@,
                q@,
            ));
            i = i + 1;
        }
    }
    r
}

/// The ASCII whitespace characters: space, tab, line feed, vertical tab, form feed and
/// carriage return.
pub open spec fn is_ascii_space(c: char) -> bool {
    c == ' ' || c == '\t' || c == '\n' || c == '\x0B' || c == '\x0C' || c == '\r'
}

pub fn is_ascii_space_exec(c: char) -> (b: bool)
    ensures
        b == is_ascii_space(c),
{
    c == ' ' || c == '\t' || c == '\n' || c == '\x0B' || c == '\x0C' || c == '\r'
}

/// Characters with the Unicode `White_Space` property.
pub open spec fn is_white_space(c: char) -> bool {
    ('\t' <= c <= '\r') || c == ' ' || c == '\u{85}' || c == '\u{A0}' || c == '\u{1680}'
        || ('\u{2000}' <= c <= '\u{200A}') || c == '\u{2028}' || c == '\u{2029}'
        || c == '\u{202F}' || c == '\u{205F}' || c == '\u{3000}'
}

pub fn is_white_space_exec(c: char) -> (b: bool)
    ensures
        b == is_white_space(c),
{
    ('\t' <= c && c <= '\r') || c == ' ' || c == '\u{85}' || c == '\u{A0}' || c == '\u{1680}'
        || ('\u{2000}' <= c && c <= '\u{200A}') || c == '\u{2028}' || c == '\u{2029}'
        || c == '\u{202F}' || c == '\u{205F}' || c == '\u{3000}'
}

/// Each maximal run of ASCII whitespace from position `i` on becomes one space.
pub open spec fn collapse_from(s: Seq<char>, i: int) -> Seq<char>
    decreases s.len() - i,
{
    if i < 0 || i >= s.len() {
        seq![]
    } else if is_ascii_space(s[i]) && (i == 0 || !is_ascii_space(s[i - 1])) {
        seq![' '] + collapse_from(s, i + 1)
    } else if is_ascii_space(s[i]) {
        collapse_from(s, i + 1)
    } else {
        seq![s[i]] + collapse_from(s, i + 1)
    }
}

pub open spec fn collapse_spaces(s: Seq<char>) -> Seq<char> {
    collapse_from(s, 0)
}

/// Replaces each maximal run of ASCII whitespace by a single space.
pub fn collapse_spaces_exec(s: &[char]) -> (r: Vec<char>)
    ensures
        r@ == collapse_spaces(s@),
{
    let mut r: Vec<char> = Vec::new();
    let mut i: usize = 0;
    while i < s.len()
        invariant
            0 <= i <= s.len(),
            r@ + collapse_from(s@, i as int) == collapse_spaces(s@),
        decreases s.len() - i,
    {
        let ghost before = r@;
        if is_ascii_space_exec(s[i]) {
            if i == 0 || !is_ascii_space_exec(s[i - 1]) {
                r.push(' ');
            }
        } else {
            r.push(s[i]);
        }
        assert(before + collapse_from(s@, i as int) == r@ + collapse_from(s@, i + 1));
        i = i + 1;
    }
    r
}

/// The number of leading characters of `s` from `i` on that are whitespace.
pub open spec fn lead_ws(s: Seq<char>, i: int) -> int
    decreases s.len() - i,
{
    if i < 0 || i >= s.len() || !is_white_space(s[i]) {
        0
    } else {
        1 + lead_ws(s, i + 1)
    }
}

/// The number of whitespace characters that end `s.take(n)`.
pub open spec fn trail_ws(s: Seq<char>, n: int) -> int
    decreases n,
{
    if n <= 0 || n > s.len() || !is_white_space(s[n - 1]) {
        0
    } else {
        1 + trail_ws(s, n - 1)
    }
}

proof fn lemma_lead_ws_bounds(s: Seq<char>, i: int)
    requires
        0 <= i <= s.len(),
    ensures
        0 <= lead_ws(s, i) <= s.len() - i,
    decreases s.len() - i,
{
    if i < s.len() {
        lemma_lead_ws_bounds(s, i + 1);
    }
}

proof fn lemma_trail_ws_bounds(s: Seq<char>, n: int)
    requires
        0 <= n <= s.len(),
    ensures
        0 <= trail_ws(s, n) <= n,
    decreases n,
{
    if n > 0 {
        lemma_trail_ws_bounds(s, n - 1);
    }
}

/// `s` without its leading and trailing Unicode whitespace.
pub open spec fn trim(s: Seq<char>) -> Seq<char> {
    let a = lead_ws(s, 0);
    if a == s.len() {
        seq![]
    } else {
        s.subrange(a, s.len() - trail_ws(s, s.len() as int))
    }
}

/// Removes leading and trailing Unicode whitespace.
pub fn trim_exec(s: &[char]) -> (r: Vec<char>)
    ensures
        r@ == trim(s@),
{
    let mut a: usize = 0;
    while a < s.len() && is_white_space_exec(s[a])
        invariant
            0 <= a <= s.len(),
            lead_ws(s@, 0) == a + lead_ws(s@, a as int),
        decreases s.len() - a,
    {
        a = a + 1;
    }
    proof {
        lemma_lead_ws_bounds(s@, a as int);
    }
    let mut r: Vec<char> = Vec::new();
    if a == s.len() {
        return r;
    }
    let mut b: usize = s.len();
    while b > 0 && is_white_space_exec(s[b - 1])
        invariant
            0 <= b <= s.len(),
            trail_ws(s@, s.len() as int) == (s.len() - b) + trail_ws(s@, b as int),
        decreases b,
    {
        b = b - 1;
    }
    proof {
        lemma_trail_ws_bounds(s@, b as int);
        assert(!is_white_space(s@[a as int]));
        if b <= a {
            assert(trail_ws(s@, (a + 1) as int) == 0);
            lemma_trail_stops(s@, s.len() as int, (a + 1) as int);
        }
    }
    let mut i: usize = a;
    while i < b
        invariant
            a <= i <= b <= s.len(),
            r@ == s@.subrange(a as int, i as int),
        decreases b - i,
    {
        r.push(s[i]);
        i = i + 1;
    }
    r
}

/// Trailing whitespace stops at a character that is not whitespace.
proof fn lemma_trail_stops(s: Seq<char>, n: int, m: int)
    requires
        0 < m <= n <= s.len(),
        !is_white_space(s[m - 1]),
    ensures
        trail_ws(s, n) <= n - m,
    decreases n - m,
{
    if n > m {
        lemma_trail_stops(s, n - 1, m);
    }
}

/// The first position at or after `i` that holds `c`, or `s.len()` if there is none.
pub open spec fn find_char(s: Seq<char>, i: int, c: char) -> int
    decreases s.len() - i,
{
    if i >= s.len() {
        s.len() as int
    } else if i < 0 {
        find_char(s, 0, c)
    } else if s[i] == c {
        i
    } else {
        find_char(s, i + 1, c)
    }
}

pub proof fn lemma_find_char(s: Seq<char>, i: int, c: char)
    requires
        0 <= i,
    ensures
        i <= find_char(s, i, c) || find_char(s, i, c) == s.len(),
        find_char(s, i, c) <= s.len(),
        find_char(s, i, c) < s.len() ==> s[find_char(s, i, c)] == c,
        forall|j: int| i <= j < find_char(s, i, c) ==> s[j] != c,
    decreases s.len() - i,
{
    if i < s.len() && s[i] != c {
        lemma_find_char(s, i + 1, c);
    }
}

pub fn find_char_exec(s: &[char], i: usize, c: char) -> (r: usize)
    ensures
        r == find_char(s@, i as int, c),
        i <= r || r == s.len(),
        r <= s.len(),
{
    let mut j: usize = i;
    if j >= s.len() {
        return s.len();
    }
    while j < s.len() && s[j] != c
        invariant
            i <= j <= s.len(),
            find_char(s@, i as int, c) == find_char(s@, j as int, c),
        decreases s.len() - j,
    {
        j = j + 1;
    }
    j
}

/// The last position before `n` that holds `c`, or -1 if there is none.
pub open spec fn rfind_char(s: Seq<char>, n: int, c: char) -> int
    decreases n,
{
    if n <= 0 {
        -1
    } else if n > s.len() {
        rfind_char(s, s.len() as int, c)
    } else if s[n - 1] == c {
        n - 1
    } else {
        rfind_char(s, n - 1, c)
    }
}

pub proof fn lemma_rfind_char(s: Seq<char>, n: int, c: char)
    requires
        n <= s.len(),
    ensures
        -1 <= rfind_char(s, n, c) < n || (n <= 0 && rfind_char(s, n, c) == -1),
        rfind_char(s, n, c) >= 0 ==> s[rfind_char(s, n, c)] == c,
        forall|j: int| rfind_char(s, n, c) < j < n ==> s[j] != c,
    decreases n,
{
    if n > 0 && s[n - 1] != c {
        lemma_rfind_char(s, n - 1, c);
    }
}

/// The last position before `n` that holds `c`, or `None`.
pub fn rfind_char_exec(s: &[char], n: usize, c: char) -> (r: Option<usize>)
    requires
        n <= s.len(),
    ensures
        r is None ==> rfind_char(s@, n as int, c) == -1,
        r matches Some(j) ==> j == rfind_char(s@, n as int, c) && j < n,
{
    let mut k: usize = n;
    while k > 0 && s[k - 1] != c
        invariant
            0 <= k <= n <= s.len(),
            rfind_char(s@, n as int, c) == rfind_char(s@, k as int, c),
        decreases k,
    {
        k = k - 1;
    }
    if k == 0 {
        None
    } else {
        Some(k - 1)
    }
}

/// The first position at or after `i` that holds a line break or where `p` occurs, or
/// `s.len()` if there is none.
pub open spec fn stop_at(s: Seq<char>, i: int, p: Seq<char>) -> int
    decreases s.len() - i,
{
    if i < 0 || i >= s.len() {
        s.len() as int
    } else if s[i] == '\n' || occurs_at(s, i, p) {
        i
    } else {
        stop_at(s, i + 1, p)
    }
}

pub proof fn lemma_stop_at(s: Seq<char>, i: int, p: Seq<char>)
    requires
        0 <= i,
    ensures
        i <= stop_at(s, i, p) <= s.len() || stop_at(s, i, p) == s.len(),
        no_newline_between(s, i, stop_at(s, i, p)),
    decreases s.len() - i,
{
    if i < s.len() && !(s[i] == '\n' || occurs_at(s, i, p)) {
        lemma_stop_at(s, i + 1, p);
    }
}

/// No line break in `s[a..b]`.
pub open spec fn no_newline_between(s: Seq<char>, a: int, b: int) -> bool {
    forall|j: int| a <= j < b ==> s[j] != '\n'
}

pub fn stop_at_exec(s: &[char], i: usize, p: &[char]) -> (r: usize)
    ensures
        r == stop_at(s@, i as int, p@),
        i <= r <= s.len() || r == s.len(),
{
    if i >= s.len() {
        return s.len();
    }
    let mut j: usize = i;
    while j < s.len() && !(s[j] == '\n' || occurs_at_exec(s, j, p))
        invariant
            i <= j <= s.len(),
            stop_at(s@, i as int, p@) == stop_at(s@, j as int, p@),
        decreases s.len() - j,
    {
        j = j + 1;
    }
    j
}

/// The characters `s[a..b]`.
pub fn slice_chars(s: &[char], a: usize, b: usize) -> (r: Vec<char>)
    requires
        a <= b <= s.len(),
    ensures
        r@ == s@.subrange(a as int, b as int),
{
    let mut r: Vec<char> = Vec::new();
    let mut i: usize = a;
    while i < b
        invariant
            a <= i <= b <= s.len(),
            r@ == s@.subrange(a as int, i as int),
        decreases b - i,
    {
        r.push(s[i]);
        i = i + 1;
    }
    r
}

/// Whether two character sequences are equal.
pub fn chars_eq(a: &[char], b: &[char]) -> (r: bool)
    ensures
        r == (a@ == b@),
{
    if a.len() != b.len() {
        return false;
    }
    let mut i: usize = 0;
    while i < a.len()
        invariant
            0 <= i <= a.len(),
            a.len() == b.len(),
            forall|j: int| 0 <= j < i ==> a@[j] == b@[j],
        decreases a.len() - i,
    {
        if a[i] != b[i] {
            return false;
        }
        i = i + 1;
    }
    assert(a@ == b@);
    true
}

/// The decimal digits of `n`, most significant first.
pub open spec fn decimal(n: nat) -> Seq<char>
    decreases n,
{
    if n < 10 {
        seq![digit_char(n)]
    } else {
        decimal(n / 10) + seq![digit_char(n % 10)]
    }
}

pub open spec fn digit_char(d: nat) -> char {
    if d == 0 { '0' }
    else if d == 1 { '1' }
    else if d == 2 { '2' }
    else if d == 3 { '3' }
    else if d == 4 { '4' }
    else if d == 5 { '5' }
    else if d == 6 { '6' }
    else if d == 7 { '7' }
    else if d == 8 { '8' }
    else { '9' }
}

fn digit_char_exec(d: usize) -> (c: char)
    requires
        d < 10,
    ensures
        c == digit_char(d as nat),
{
    if d == 0 { '0' }
    else if d == 1 { '1' }
    else if d == 2 { '2' }
    else if d == 3 { '3' }
    else if d == 4 { '4' }
    else if d == 5 { '5' }
    else if d == 6 { '6' }
    else if d == 7 { '7' }
    else if d == 8 { '8' }
    else { '9' }
}

/// Writes `n` in decimal.
pub fn decimal_exec(n: usize) -> (r: Vec<char>)
    ensures
        r@ == decimal(n as nat),
    decreases n,
{
    if n < 10 {
        let mut r: Vec<char> = Vec::new();
        r.push(digit_char_exec(n));
        r
    } else {
        let mut r = decimal_exec(n / 10);
        r.push(digit_char_exec(n % 10));
        r
    }
}

} // verus!
