//! Character-level text helpers with specifications over `Seq<char>`.
//!
//! Every exec helper here is verified against a spec function stated over the
//! characters of its inputs; the rest of the crate phrases its contracts with
//! the same spec functions.
use vstd::prelude::*;
use vstd::string::*;

verus! {

/// Characters that Rust's `char::is_whitespace` accepts (Unicode `White_Space`).
pub open spec fn is_ws(c: char) -> bool {
    ||| c == '\t' || c == '\n' || c == '\u{0B}' || c == '\u{0C}' || c == '\r' || c == ' '
    ||| c == '\u{85}' || c == '\u{A0}' || c == '\u{1680}'
    ||| ('\u{2000}' <= c && c <= '\u{200A}')
    ||| c == '\u{2028}' || c == '\u{2029}' || c == '\u{202F}' || c == '\u{205F}' || c == '\u{3000}'
}

pub fn is_whitespace(c: char) -> (r: bool)
    ensures
        r == is_ws(c),
{
    c == '\t' || c == '\n' || c == '\u{0B}' || c == '\u{0C}' || c == '\r' || c == ' ' || c
        == '\u{85}' || c == '\u{A0}' || c == '\u{1680}' || ('\u{2000}' <= c && c <= '\u{200A}')
        || c == '\u{2028}' || c == '\u{2029}' || c == '\u{202F}' || c == '\u{205F}' || c
        == '\u{3000}'
}

/// Views of a sequence of strings.
pub open spec fn strs(v: Seq<String>) -> Seq<Seq<char>> {
    v.map_values(|s: String| s@)
}

/// Views of a sequence of string slices.
pub open spec fn strs_ref(v: Seq<&str>) -> Seq<Seq<char>> {
    v.map_values(|s: &str| s@)
}

/// Views of a sequence of character vectors.
pub open spec fn char_vecs(v: Seq<Vec<char>>) -> Seq<Seq<char>> {
    v.map_values(|x: Vec<char>| x@)
}

/// View of an optional string.
pub open spec fn opt_str(o: Option<String>) -> Option<Seq<char>> {
    match o {
        Some(s) => Some(s@),
        None => None,
    }
}

pub open spec fn starts_with_s(s: Seq<char>, p: Seq<char>) -> bool {
    p.len() <= s.len() && s.subrange(0, p.len() as int) == p
}

pub open spec fn ends_with_s(s: Seq<char>, p: Seq<char>) -> bool {
    p.len() <= s.len() && s.subrange(s.len() - p.len(), s.len() as int) == p
}

pub open spec fn occurs_at(s: Seq<char>, p: Seq<char>, i: int) -> bool {
    0 <= i && i + p.len() <= s.len() && s.subrange(i, i + p.len()) == p
}

pub open spec fn contains_s(s: Seq<char>, p: Seq<char>) -> bool {
    exists|i: int| occurs_at(s, p, i)
}

/// First index at or after `i` where `p` occurs in `s`.
pub open spec fn find_from(s: Seq<char>, p: Seq<char>, i: int) -> Option<int>
    decreases s.len() + 1 - i,
{
    if i < 0 || i + p.len() > s.len() {
        None
    } else if occurs_at(s, p, i) {
        Some(i)
    } else {
        find_from(s, p, i + 1)
    }
}

/// First index where `p` occurs in `s` (as `str::find`, counted in characters).
pub open spec fn find_s(s: Seq<char>, p: Seq<char>) -> Option<int> {
    find_from(s, p, 0)
}

/// First index of character `c` in `s`.
pub open spec fn find_char_s(s: Seq<char>, c: char) -> Option<int> {
    find_from(s, seq![c], 0)
}

pub open spec fn trim_start_s(s: Seq<char>) -> Seq<char>
    decreases s.len(),
{
    if s.len() > 0 && is_ws(s[0]) {
        trim_start_s(s.drop_first())
    } else {
        s
    }
}

pub open spec fn trim_end_s(s: Seq<char>) -> Seq<char>
    decreases s.len(),
{
    if s.len() > 0 && is_ws(s.last()) {
        trim_end_s(s.drop_last())
    } else {
        s
    }
}

/// `str::trim`.
pub open spec fn trim_s(s: Seq<char>) -> Seq<char> {
    trim_end_s(trim_start_s(s))
}

/// `str::split(c)`: the pieces between occurrences of `c`, in order.
pub open spec fn split_s(s: Seq<char>, c: char) -> Seq<Seq<char>>
    decreases s.len(),
{
    let f = find_char_s(s, c);
    if f is Some && 0 <= f->0 < s.len() {
        let i = f->0;
        seq![s.subrange(0, i)] + split_s(s.subrange(i + 1, s.len() as int), c)
    } else {
        seq![s]
    }
}

/// Strip one trailing `'\r'`.
pub open spec fn strip_cr(s: Seq<char>) -> Seq<char> {
    if s.len() > 0 && s.last() == '\r' {
        s.drop_last()
    } else {
        s
    }
}

/// `str::lines`: pieces split on `'\n'`, without a final empty piece, each with one
/// trailing `'\r'` removed.
pub open spec fn lines_s(s: Seq<char>) -> Seq<Seq<char>> {
    let pieces = split_s(s, '\n');
    let kept = if s.len() == 0 || s.last() == '\n' {
        pieces.drop_last()
    } else {
        pieces
    };
    kept.map_values(strip_cr_fn())
}

pub open spec fn strip_cr_fn() -> spec_fn(Seq<char>) -> Seq<char> {
    |l: Seq<char>| strip_cr(l)
}

pub open spec fn is_digit(c: char) -> bool {
    '0' <= c && c <= '9'
}

pub open spec fn digit_val(c: char) -> int {
    (c as int) - ('0' as int)
}

/// Decimal value of a run of ASCII digits.
pub open spec fn dec_value(s: Seq<char>) -> int
    decreases s.len(),
{
    if s.len() == 0 {
        0
    } else {
        dec_value(s.drop_last()) * 10 + digit_val(s.last())
    }
}

pub open spec fn all_digits(s: Seq<char>) -> bool {
    forall|i: int| 0 <= i < s.len() ==> is_digit(#[trigger] s[i])
}

/// Outcome of parsing an unsigned decimal integer the way `str::parse` does.
#[derive(Debug, Clone, Copy, PartialEq, Eq, Structural)]
pub enum UintParse {
    Value(u128),
    Empty,
    InvalidDigit,
    Overflow,
}

/// Digits after an optional leading `'+'` (a lone `"+"` keeps its sign as a digit).
pub open spec fn unsigned_body(s: Seq<char>) -> Seq<char> {
    if s.len() > 1 && s[0] == '+' {
        s.drop_first()
    } else {
        s
    }
}

/// Length of the leading run of ASCII digits.
pub open spec fn digit_run(s: Seq<char>) -> nat
    decreases s.len(),
{
    if s.len() > 0 && is_digit(s[0]) {
        1 + digit_run(s.drop_first())
    } else {
        0
    }
}

/// `str::parse::<uN>()` for a type whose maximum is `max`: digits are read from the
/// left, and the first non-digit or the first prefix whose value exceeds `max`
/// decides the error.
pub open spec fn parse_uint_s(s: Seq<char>, max: int) -> UintParse {
    let body = unsigned_body(s);
    let k = digit_run(body);
    if s.len() == 0 {
        UintParse::Empty
    } else if dec_value(body.subrange(0, k as int)) > max {
        UintParse::Overflow
    } else if k < body.len() {
        UintParse::InvalidDigit
    } else {
        UintParse::Value(dec_value(body) as u128)
    }
}

/// Decimal rendering of a natural number.
pub open spec fn dec_str(n: nat) -> Seq<char>
    decreases n,
{
    if n < 10 {
        seq![digit_char(n)]
    } else {
        dec_str(n / 10).push(digit_char(n % 10))
    }
}

pub open spec fn digit_char(d: nat) -> char {
    if d == 0 {
        '0'
    } else if d == 1 {
        '1'
    } else if d == 2 {
        '2'
    } else if d == 3 {
        '3'
    } else if d == 4 {
        '4'
    } else if d == 5 {
        '5'
    } else if d == 6 {
        '6'
    } else if d == 7 {
        '7'
    } else if d == 8 {
        '8'
    } else {
        '9'
    }
}

/// Decimal rendering of an integer, with a leading `'-'` when negative.
pub open spec fn int_str(n: int) -> Seq<char> {
    if n < 0 {
        seq!['-'] + dec_str((-n) as nat)
    } else {
        dec_str(n as nat)
    }
}

/// Number of UTF-8 bytes that encode `c`.
pub open spec fn utf8_len(c: char) -> nat {
    if (c as u32) < 0x80 {
        1
    } else if (c as u32) < 0x800 {
        2
    } else if (c as u32) < 0x10000 {
        3
    } else {
        4
    }
}

/// Number of UTF-8 bytes that encode `s`.
pub open spec fn byte_len(s: Seq<char>) -> nat
    decreases s.len(),
{
    if s.len() == 0 {
        0
    } else {
        byte_len(s.drop_last()) + utf8_len(s.last())
    }
}

// ---------------------------------------------------------------------------
// Exec helpers
// ---------------------------------------------------------------------------

/// The characters of `s`.
pub fn chars_of(s: &str) -> (r: Vec<char>)
    ensures
        r@ == s@,
{
    let n = s.unicode_len();
    let mut v: Vec<char> = Vec::new();
    let mut i: usize = 0;
    while i < n
        invariant
            n == s@.len(),
            i <= n,
            v@ == s@.subrange(0, i as int),
        decreases n - i,
    {
        let c = s.get_char(i);
        v.push(c);
        i = i + 1;
        assert(v@ =~= s@.subrange(0, i as int));
    }
    assert(v@ =~= s@);
    v
}

/// Appends one character (std's `String::push`).
#[verifier::external_body]
pub(crate) fn push_char(s: &mut String, c: char)
    ensures
        final(s)@ == old(s)@.push(c),
{
    s.push(c);
}

/// A new string holding `v[from..to]`.
pub fn string_of_range(v: &Vec<char>, from: usize, to: usize) -> (r: String)
    requires
        from <= to <= v@.len(),
    ensures
        r@ == v@.subrange(from as int, to as int),
{
    let mut s = String::new();
    let mut i = from;
    while i < to
        invariant
            from <= i <= to <= v@.len(),
            s@ == v@.subrange(from as int, i as int),
        decreases to - i,
    {
        push_char(&mut s, v[i]);
        i = i + 1;
        assert(s@ =~= v@.subrange(from as int, i as int));
    }
    s
}

/// A new string holding all of `v`.
pub fn string_of(v: &Vec<char>) -> (r: String)
    ensures
        r@ == v@,
{
    let r = string_of_range(v, 0, v.len());
    assert(v@.subrange(0, v@.len() as int) =~= v@);
    r
}

/// A copy of `s`.
pub fn copy_str(s: &str) -> (r: String)
    ensures
        r@ == s@,
{
    s.to_owned()
}

/// A copy of an optional string.
pub fn copy_opt(o: &Option<String>) -> (r: Option<String>)
    ensures
        opt_str(r) == opt_str(*o),
{
    match o {
        Some(s) => Some(s.clone()),
        None => None,
    }
}

/// An equal copy of an optional string.
pub fn clone_opt(o: &Option<String>) -> (r: Option<String>)
    ensures
        r == *o,
{
    match o {
        Some(s) => Some(s.clone()),
        None => None,
    }
}

/// A copy of a vector of strings, element for element equal.
pub fn clone_strings(v: &Vec<String>) -> (r: Vec<String>)
    ensures
        r@ == v@,
{
    let mut r: Vec<String> = Vec::new();
    let mut i: usize = 0;
    while i < v.len()
        invariant
            i <= v@.len(),
            r@ == v@.subrange(0, i as int),
        decreases v@.len() - i,
    {
        r.push(v[i].clone());
        i = i + 1;
        assert(r@ =~= v@.subrange(0, i as int));
    }
    assert(v@.subrange(0, i as int) =~= v@);
    r
}

/// A copy of a vector of strings.
pub fn copy_strings(v: &Vec<String>) -> (r: Vec<String>)
    ensures
        strs(r@) == strs(v@),
        r@.len() == v@.len(),
{
    let mut r: Vec<String> = Vec::new();
    let mut i: usize = 0;
    while i < v.len()
        invariant
            i <= v@.len(),
            r@.len() == i,
            forall|k: int| 0 <= k < i ==> r@[k]@ == v@[k]@,
        decreases v@.len() - i,
    {
        r.push(v[i].clone());
        i = i + 1;
    }
    assert(strs(r@) =~= strs(v@));
    r
}

/// Equality of two strings by their characters.
pub fn str_eq(a: &str, b: &str) -> (r: bool)
    ensures
        r == (a@ == b@),
{
    let x = a.to_owned();
    let y = b.to_owned();
    x == y
}

/// Equality of two character vectors.
pub fn chars_eq(a: &Vec<char>, b: &Vec<char>) -> (r: bool)
    ensures
        r == (a@ == b@),
{
    if a.len() != b.len() {
        return false;
    }
    let mut i: usize = 0;
    while i < a.len()
        invariant
            a@.len() == b@.len(),
            i <= a@.len(),
            forall|k: int| 0 <= k < i ==> a@[k] == b@[k],
        decreases a@.len() - i,
    {
        if a[i] != b[i] {
            return false;
        }
        i = i + 1;
    }
    assert(a@ =~= b@);
    true
}

/// Whether `p` occurs in `v` at index `i`.
pub fn occurs_at_exec(v: &Vec<char>, p: &Vec<char>, i: usize) -> (r: bool)
    ensures
        r == occurs_at(v@, p@, i as int),
{
    if i > v.len() || p.len() > v.len() - i {
        return false;
    }
    let n = v.len();
    let mut k: usize = 0;
    while k < p.len()
        invariant
            n == v@.len(),
            i + p@.len() <= n,
            k <= p@.len(),
            forall|j: int| 0 <= j < k ==> v@[i + j] == p@[j],
        decreases p@.len() - k,
    {
        if v[i + k] != p[k] {
            assert(v@.subrange(i as int, i + p@.len())[k as int] != p@[k as int]);
            return false;
        }
        k = k + 1;
    }
    assert(v@.subrange(i as int, i + p@.len()) =~= p@);
    true
}

/// `find_from` on vectors.
pub fn find_from_exec(v: &Vec<char>, p: &Vec<char>, from: usize) -> (r: Option<usize>)
    ensures
        match r {
            Some(i) => find_from(v@, p@, from as int) == Some(i as int),
            None => find_from(v@, p@, from as int) is None,
        },
{
    let mut i = from;
    if i > v.len() || p.len() > v.len() - i {
        return None;
    }
    while p.len() <= v.len() - i
        invariant
            from <= i,
            i <= v@.len(),
            find_from(v@, p@, from as int) == find_from(v@, p@, i as int),
        decreases v@.len() - i,
    {
        if occurs_at_exec(v, p, i) {
            return Some(i);
        }
        if i == v.len() {
            assert(find_from(v@, p@, i + 1) is None);
            return None;
        }
        i = i + 1;
    }
    None
}

/// `find_char_s` on vectors, from a start index.
pub fn find_char_from(v: &Vec<char>, c: char, from: usize) -> (r: Option<usize>)
    ensures
        match r {
            Some(i) => find_from(v@, seq![c], from as int) == Some(i as int),
            None => find_from(v@, seq![c], from as int) is None,
        },
{
    let p: Vec<char> = vec![c];
    assert(p@ =~= seq![c]);
    find_from_exec(v, &p, from)
}

pub proof fn lemma_find_from_some(s: Seq<char>, p: Seq<char>, i: int)
    requires
        0 <= i,
    ensures
        find_from(s, p, i) matches Some(j) ==> i <= j && occurs_at(s, p, j) && (forall|k: int|
            i <= k < j ==> !occurs_at(s, p, k)),
        find_from(s, p, i) is None ==> (forall|k: int| i <= k ==> !occurs_at(s, p, k)),
    decreases s.len() + 1 - i,
{
    if i < 0 || i + p.len() > s.len() {
    } else if occurs_at(s, p, i) {
    } else {
        lemma_find_from_some(s, p, i + 1);
    }
}

/// Scanning for `c`: the first index holding it, or none when no index up to the end does.
pub proof fn lemma_find_char_scan(a: Seq<char>, c: char, n: int)
    requires
        0 <= n <= a.len(),
        forall|k: int| 0 <= k < n ==> a[k] != c,
        n < a.len() ==> a[n] == c,
    ensures
        n < a.len() ==> find_char_s(a, c) == Some(n),
        n == a.len() ==> find_char_s(a, c) is None,
{
    lemma_find_char_from(a, c, n, 0);
}

proof fn lemma_find_char_from(a: Seq<char>, c: char, n: int, i: int)
    requires
        0 <= i <= n <= a.len(),
        forall|k: int| 0 <= k < n ==> a[k] != c,
        n < a.len() ==> a[n] == c,
    ensures
        n < a.len() ==> find_from(a, seq![c], i) == Some(n),
        n == a.len() ==> find_from(a, seq![c], i) is None,
    decreases n - i,
{
    if i < n {
        assert(!occurs_at(a, seq![c], i)) by {
            if occurs_at(a, seq![c], i) {
                assert(a.subrange(i, i + 1)[0] == a[i]);
            }
        }
        lemma_find_char_from(a, c, n, i + 1);
    } else if n < a.len() {
        assert(a.subrange(n, n + 1) =~= seq![c]);
    }
}

/// Shift of `find_from` into a suffix.
pub proof fn lemma_find_from_shift(s: Seq<char>, p: Seq<char>, i: int, k: int)
    requires
        0 <= k <= i,
        k <= s.len(),
    ensures
        find_from(s.subrange(k, s.len() as int), p, i - k) == match find_from(s, p, i) {
            Some(j) => Some(j - k),
            None => None,
        },
    decreases s.len() + 1 - i,
{
    let t = s.subrange(k, s.len() as int);
    if i < 0 || i + p.len() > s.len() {
    } else {
        assert(occurs_at(t, p, i - k) == occurs_at(s, p, i)) by {
            assert(t.subrange(i - k, i - k + p.len()) =~= s.subrange(i, i + p.len()));
        }
        if !occurs_at(s, p, i) {
            lemma_find_from_shift(s, p, i + 1, k);
        }
    }
}

/// `str::starts_with` on a character vector.
pub fn starts_with(v: &Vec<char>, p: &str) -> (r: bool)
    ensures
        r == starts_with_s(v@, p@),
{
    let pv = chars_of(p);
    let r = occurs_at_exec(v, &pv, 0);
    assert(r == starts_with_s(v@, p@));
    r
}

/// `str::ends_with` on a character vector.
pub fn ends_with(v: &Vec<char>, p: &str) -> (r: bool)
    ensures
        r == ends_with_s(v@, p@),
{
    let pv = chars_of(p);
    if pv.len() > v.len() {
        return false;
    }
    occurs_at_exec(v, &pv, v.len() - pv.len())
}

/// `str::contains` on a character vector.
pub fn contains(v: &Vec<char>, p: &str) -> (r: bool)
    ensures
        r == contains_s(v@, p@),
{
    let pv = chars_of(p);
    let f = find_from_exec(v, &pv, 0);
    proof {
        lemma_find_from_some(v@, p@, 0);
        if f is None {
            assert forall|i: int| !occurs_at(v@, p@, i) by {
                if i >= 0 {
                }
            }
        }
    }
    f.is_some()
}

/// `contains` for a pattern given as characters.
pub fn contains_chars(v: &Vec<char>, pv: &Vec<char>) -> (r: bool)
    ensures
        r == contains_s(v@, pv@),
{
    let f = find_from_exec(v, pv, 0);
    proof {
        lemma_find_from_some(v@, pv@, 0);
        if f is None {
            assert forall|i: int| !occurs_at(v@, pv@, i) by {
                if i >= 0 {
                }
            }
        }
    }
    f.is_some()
}

/// Whether a character occurs in `v`.
pub fn has_char(v: &Vec<char>, c: char) -> (r: bool)
    ensures
        r == v@.contains(c),
{
    let mut i: usize = 0;
    while i < v.len()
        invariant
            i <= v@.len(),
            forall|k: int| 0 <= k < i ==> v@[k] != c,
        decreases v@.len() - i,
    {
        if v[i] == c {
            return true;
        }
        i = i + 1;
    }
    false
}

/// Index range `[lo, hi)` of `v[from..to]` with surrounding whitespace removed.
pub fn trim_range(v: &Vec<char>, from: usize, to: usize) -> (r: (usize, usize))
    requires
        from <= to <= v@.len(),
    ensures
        from <= r.0 <= r.1 <= to,
        v@.subrange(r.0 as int, r.1 as int) == trim_s(v@.subrange(from as int, to as int)),
        v@.subrange(r.0 as int, to as int) == trim_start_s(v@.subrange(from as int, to as int)),
{
    let mut lo = from;
    while lo < to && is_whitespace(v[lo])
        invariant
            from <= lo <= to <= v@.len(),
            trim_start_s(v@.subrange(from as int, to as int)) == trim_start_s(
                v@.subrange(lo as int, to as int),
            ),
        decreases to - lo,
    {
        assert(v@.subrange(lo as int, to as int).drop_first() =~= v@.subrange(
            lo + 1,
            to as int,
        ));
        lo = lo + 1;
    }
    assert(trim_start_s(v@.subrange(lo as int, to as int)) == v@.subrange(lo as int, to as int));
    let mut hi = to;
    while hi > lo && is_whitespace(v[hi - 1])
        invariant
            lo <= hi <= to <= v@.len(),
            trim_end_s(v@.subrange(lo as int, to as int)) == trim_end_s(
                v@.subrange(lo as int, hi as int),
            ),
        decreases hi,
    {
        assert(v@.subrange(lo as int, hi as int).drop_last() =~= v@.subrange(
            lo as int,
            hi - 1,
        ));
        hi = hi - 1;
    }
    (lo, hi)
}

/// `str::trim` producing a new string.
pub fn trim_str(s: &str) -> (r: String)
    ensures
        r@ == trim_s(s@),
{
    let v = chars_of(s);
    let (lo, hi) = trim_range(&v, 0, v.len());
    assert(v@.subrange(0, v@.len() as int) =~= v@);
    string_of_range(&v, lo, hi)
}

/// Decimal rendering of an unsigned 128-bit number.
pub fn u128_to_string(n: u128) -> (r: String)
    ensures
        r@ == dec_str(n as nat),
    decreases n,
{
    let d = n % 10;
    let c = if d == 0 {
        '0'
    } else if d == 1 {
        '1'
    } else if d == 2 {
        '2'
    } else if d == 3 {
        '3'
    } else if d == 4 {
        '4'
    } else if d == 5 {
        '5'
    } else if d == 6 {
        '6'
    } else if d == 7 {
        '7'
    } else if d == 8 {
        '8'
    } else {
        '9'
    };
    if n < 10 {
        let mut s = String::new();
        push_char(&mut s, c);
        assert(s@ =~= dec_str(n as nat));
        s
    } else {
        let mut s = u128_to_string(n / 10);
        push_char(&mut s, c);
        s
    }
}

/// Decimal rendering of a `u64`.
pub fn u64_to_string(n: u64) -> (r: String)
    ensures
        r@ == dec_str(n as nat),
{
    u128_to_string(n as u128)
}

/// Decimal rendering of a `usize`.
pub fn usize_to_string(n: usize) -> (r: String)
    ensures
        r@ == dec_str(n as nat),
{
    u128_to_string(n as u128)
}

/// Decimal rendering of an `i128`, with a leading `'-'` when negative.
pub fn i128_to_string(n: i128) -> (r: String)
    ensures
        r@ == int_str(n as int),
{
    if n < 0 {
        let m: u128 = if n == i128::MIN {
            170141183460469231731687303715884105728u128
        } else {
            (-n) as u128
        };
        let digits = u128_to_string(m);
        let mut s = String::new();
        push_char(&mut s, '-');
        s.append(digits.as_str());
        assert(s@ =~= int_str(n as int));
        s
    } else {
        u128_to_string(n as u128)
    }
}

/// `str::parse` of the unsigned integer written in `v[from..to]`.
pub fn parse_uint_range(v: &Vec<char>, from: usize, to: usize, max: u128) -> (r: UintParse)
    requires
        from <= to <= v@.len(),
        max >= 9,
    ensures
        r == parse_uint_s(v@.subrange(from as int, to as int), max as int),
{
    let ghost s = v@.subrange(from as int, to as int);
    if from == to {
        return UintParse::Empty;
    }
    let start = if to - from > 1 && v[from] == '+' {
        from + 1
    } else {
        from
    };
    let ghost body = v@.subrange(start as int, to as int);
    assert(unsigned_body(s) =~= body);
    let mut acc: u128 = 0;
    let mut i = start;
    while i < to
        invariant
            from <= start <= i <= to <= v@.len(),
            from < to,
            max >= 9,
            s == v@.subrange(from as int, to as int),
            body == unsigned_body(s),
            body == v@.subrange(start as int, to as int),
            forall|k: int| 0 <= k < i - start ==> is_digit(#[trigger] body[k]),
            acc as int == dec_value(body.subrange(0, i - start)),
            acc <= max,
        decreases to - i,
    {
        let c = v[i];
        proof {
            lemma_digit_run_prefix(body, (i - start) as nat);
        }
        if !('0' <= c && c <= '9') {
            proof {
                assert(body[i - start] == c);
                lemma_digit_run_stop(body, (i - start) as nat);
                assert(s.len() > 0);
                assert(digit_run(body) < body.len());
                assert(dec_value(body.subrange(0, digit_run(body) as int)) <= max);
            }
            return UintParse::InvalidDigit;
        }
        let d = (c as u32 - '0' as u32) as u128;
        assert(d <= 9);
        let ghost next = body.subrange(0, i - start + 1);
        assert(next.drop_last() =~= body.subrange(0, i - start));
        assert(dec_value(next) == acc * 10 + d);
        if acc > (max - d) / 10 {
            assert(acc * 10 + d > max) by (nonlinear_arith)
                requires
                    acc > (max - d) / 10,
                    d <= max,
            ;
            proof {
                lemma_digit_run_prefix(body, (i - start + 1) as nat);
                lemma_dec_value_mono(body, (i - start + 1) as nat, digit_run(body));
            }
            return UintParse::Overflow;
        }
        assert(acc * 10 + d <= max) by (nonlinear_arith)
            requires
                acc <= (max - d) / 10,
                d <= max,
        ;
        acc = acc * 10 + d;
        i = i + 1;
    }
    proof {
        lemma_digit_run_prefix(body, body.len());
        assert(body.subrange(0, body.len() as int) =~= body);
    }
    UintParse::Value(acc)
}

/// A parsed value never exceeds the type's maximum.
pub proof fn lemma_parse_uint_bound(s: Seq<char>, max: int)
    requires
        0 <= max <= u128::MAX,
    ensures
        parse_uint_s(s, max) matches UintParse::Value(n) ==> n <= max,
{
    let body = unsigned_body(s);
    lemma_digit_run_prefix(body, 0);
    if parse_uint_s(s, max) is Value {
        assert(digit_run(body) == body.len());
        assert(all_digits(body));
        lemma_dec_value_nonneg(body);
        assert(body.subrange(0, digit_run(body) as int) =~= body);
    }
}

/// When the first `k` characters are digits, the leading run is at least `k` long.
proof fn lemma_digit_run_prefix(s: Seq<char>, k: nat)
    requires
        k <= s.len(),
        forall|j: int| 0 <= j < k ==> is_digit(#[trigger] s[j]),
    ensures
        k <= digit_run(s) <= s.len(),
        forall|j: int| 0 <= j < digit_run(s) ==> is_digit(#[trigger] s[j]),
    decreases s.len(),
{
    if s.len() > 0 && is_digit(s[0]) {
        let t = s.drop_first();
        if k > 0 {
            assert forall|j: int| 0 <= j < k - 1 implies is_digit(#[trigger] t[j]) by {
                assert(t[j] == s[j + 1]);
            }
            lemma_digit_run_prefix(t, (k - 1) as nat);
        } else {
            lemma_digit_run_prefix(t, 0);
        }
        assert forall|j: int| 0 <= j < digit_run(s) implies is_digit(#[trigger] s[j]) by {
            if j > 0 {
                assert(s[j] == t[j - 1]);
            }
        }
    }
}

/// A non-digit right after `k` digits ends the leading run there.
proof fn lemma_digit_run_stop(s: Seq<char>, k: nat)
    requires
        k < s.len(),
        forall|j: int| 0 <= j < k ==> is_digit(#[trigger] s[j]),
        !is_digit(s[k as int]),
    ensures
        digit_run(s) == k,
    decreases s.len(),
{
    if k > 0 {
        let t = s.drop_first();
        assert(is_digit(s[0]));
        assert forall|j: int| 0 <= j < k - 1 implies is_digit(#[trigger] t[j]) by {
            assert(t[j] == s[j + 1]);
        }
        assert(t[k - 1] == s[k as int]);
        lemma_digit_run_stop(t, (k - 1) as nat);
    }
}

/// The value of a digit prefix grows with its length.
proof fn lemma_dec_value_mono(s: Seq<char>, a: nat, b: nat)
    requires
        a <= b <= s.len(),
        forall|j: int| 0 <= j < b ==> is_digit(#[trigger] s[j]),
    ensures
        dec_value(s.subrange(0, a as int)) <= dec_value(s.subrange(0, b as int)),
    decreases b - a,
{
    if a < b {
        lemma_dec_value_mono(s, a, (b - 1) as nat);
        let x = s.subrange(0, b as int);
        assert(x.drop_last() =~= s.subrange(0, b - 1));
        lemma_dec_value_nonneg(x.drop_last());
        assert(is_digit(x.last()));
    }
}

proof fn lemma_dec_value_nonneg(s: Seq<char>)
    requires
        all_digits(s),
    ensures
        dec_value(s) >= 0,
    decreases s.len(),
{
    if s.len() > 0 {
        lemma_dec_value_nonneg(s.drop_last());
    }
}

/// A non-empty run of digits whose value is at most `max` parses to that value.
pub proof fn lemma_parse_uint_digits(s: Seq<char>, max: int)
    requires
        s.len() > 0,
        all_digits(s),
        dec_value(s) <= max,
    ensures
        dec_value(s) >= 0,
        parse_uint_s(s, max) == UintParse::Value(dec_value(s) as u128),
{
    assert(is_digit(s[0]));
    assert(unsigned_body(s) == s);
    lemma_digit_run_prefix(s, s.len());
    assert(s.subrange(0, s.len() as int) =~= s);
    lemma_dec_value_nonneg(s);
}

/// A text that neither starts nor ends with white space is its own trimmed form.
pub proof fn lemma_trim_unchanged(b: Seq<char>)
    requires
        b.len() > 0,
        !is_ws(b[0]),
        !is_ws(b.last()),
    ensures
        trim_s(b) == b,
{
    assert(trim_start_s(b) == b);
    assert(trim_end_s(b) == b);
}

/// `split_s` on vectors.
pub fn split_chars(v: &Vec<char>, c: char) -> (r: Vec<Vec<char>>)
    ensures
        char_vecs(r@) == split_s(v@, c),
{
    let mut r: Vec<Vec<char>> = Vec::new();
    let mut pos: usize = 0;
    let vl = v.len();
    assert(v@.subrange(0, v@.len() as int) =~= v@);
    loop
        invariant
            vl == v@.len(),
            pos <= v@.len(),
            char_vecs(r@) + split_s(v@.subrange(pos as int, v@.len() as int), c)
                == split_s(v@, c),
        decreases v@.len() - pos,
    {
        let ghost rest = v@.subrange(pos as int, v@.len() as int);
        let ghost before = char_vecs(r@);
        let f = find_char_from(v, c, pos);
        proof {
            lemma_find_from_shift(v@, seq![c], pos as int, pos as int);
            lemma_find_from_some(v@, seq![c], pos as int);
        }
        match f {
            Some(i) => {
                let mut piece: Vec<char> = Vec::new();
                let mut k = pos;
                while k < i
                    invariant
                        pos <= k <= i < v@.len(),
                        piece@ == v@.subrange(pos as int, k as int),
                    decreases i - k,
                {
                    piece.push(v[k]);
                    k = k + 1;
                    assert(piece@ =~= v@.subrange(pos as int, k as int));
                }
                assert(occurs_at(v@, seq![c], i as int));
                assert(rest.subrange(0, i - pos) =~= piece@);
                assert(rest.subrange(i - pos + 1, rest.len() as int) =~= v@.subrange(
                    i + 1,
                    v@.len() as int,
                ));
                r.push(piece);
                assert(char_vecs(r@) =~= before.push(rest.subrange(0, i - pos)));
                pos = i + 1;
                assert(char_vecs(r@) + split_s(
                    v@.subrange(pos as int, v@.len() as int),
                    c,
                ) =~= split_s(v@, c));
            },
            None => {
                let mut piece: Vec<char> = Vec::new();
                let mut k = pos;
                while k < v.len()
                    invariant
                        pos <= k <= v@.len(),
                        piece@ == v@.subrange(pos as int, k as int),
                    decreases v@.len() - k,
                {
                    piece.push(v[k]);
                    k = k + 1;
                    assert(piece@ =~= v@.subrange(pos as int, k as int));
                }
                r.push(piece);
                assert(char_vecs(r@) =~= before.push(rest));
                assert(char_vecs(r@) =~= split_s(v@, c));
                return r;
            },
        }
    }
}

/// A copy of a character vector.
pub fn copy_chars(v: &Vec<char>) -> (r: Vec<char>)
    ensures
        r@ == v@,
{
    let mut r: Vec<char> = Vec::new();
    let mut i: usize = 0;
    while i < v.len()
        invariant
            i <= v@.len(),
            r@ == v@.subrange(0, i as int),
        decreases v@.len() - i,
    {
        r.push(v[i]);
        i = i + 1;
        assert(r@ =~= v@.subrange(0, i as int));
    }
    assert(v@.subrange(0, v@.len() as int) =~= v@);
    r
}

/// `a` followed by `b`.
pub fn concat_chars(a: &Vec<char>, b: &Vec<char>) -> (r: Vec<char>)
    ensures
        r@ == a@ + b@,
{
    let mut r = copy_chars(a);
    let mut i: usize = 0;
    while i < b.len()
        invariant
            i <= b@.len(),
            r@ == a@ + b@.subrange(0, i as int),
        decreases b@.len() - i,
    {
        r.push(b[i]);
        i = i + 1;
        assert(r@ =~= a@ + b@.subrange(0, i as int));
    }
    assert(b@.subrange(0, b@.len() as int) =~= b@);
    r
}

/// `starts_with` for a prefix given as characters.
pub fn starts_with_chars(v: &Vec<char>, p: &Vec<char>) -> (r: bool)
    ensures
        r == starts_with_s(v@, p@),
{
    occurs_at_exec(v, p, 0)
}

/// `ends_with` for a suffix given as characters.
pub fn ends_with_chars(v: &Vec<char>, p: &Vec<char>) -> (r: bool)
    ensures
        r == ends_with_s(v@, p@),
{
    if p.len() > v.len() {
        return false;
    }
    occurs_at_exec(v, p, v.len() - p.len())
}

/// Lexicographic order by code point from index `i` on; for UTF-8 strings this is
/// the byte order that `String`'s `Ord` uses.
pub open spec fn lex_lt_from(a: Seq<char>, b: Seq<char>, i: int) -> bool
    decreases a.len() - i,
{
    if i < 0 || i >= a.len() {
        0 <= i < b.len()
    } else if i >= b.len() {
        false
    } else if a[i] != b[i] {
        (a[i] as u32) < (b[i] as u32)
    } else {
        lex_lt_from(a, b, i + 1)
    }
}

/// `a` sorts strictly before `b`.
pub open spec fn lex_lt(a: Seq<char>, b: Seq<char>) -> bool {
    lex_lt_from(a, b, 0)
}

proof fn lemma_lex_from_irrefl(a: Seq<char>, i: int)
    requires
        0 <= i <= a.len(),
    ensures
        !lex_lt_from(a, a, i),
    decreases a.len() - i,
{
    if i < a.len() {
        lemma_lex_from_irrefl(a, i + 1);
    }
}

proof fn lemma_lex_from_trans(a: Seq<char>, b: Seq<char>, c: Seq<char>, i: int)
    requires
        0 <= i,
        lex_lt_from(a, b, i),
        lex_lt_from(b, c, i),
    ensures
        lex_lt_from(a, c, i),
    decreases a.len() - i,
{
    if i < a.len() && i < b.len() && i < c.len() && a[i] == b[i] && b[i] == c[i] {
        lemma_lex_from_trans(a, b, c, i + 1);
    }
}

proof fn lemma_lex_from_total(a: Seq<char>, b: Seq<char>, i: int)
    requires
        0 <= i <= a.len(),
        i <= b.len(),
    ensures
        lex_lt_from(a, b, i) || lex_lt_from(b, a, i) || a.subrange(i, a.len() as int)
            == b.subrange(i, b.len() as int),
    decreases a.len() - i,
{
    if i < a.len() && i < b.len() && a[i] == b[i] {
        lemma_lex_from_total(a, b, i + 1);
        if a.subrange(i + 1, a.len() as int) == b.subrange(i + 1, b.len() as int) {
            assert(a.subrange(i + 1, a.len() as int).len() == b.subrange(i + 1, b.len() as int).len());
            assert(a.len() == b.len());
            assert(a.subrange(i, a.len() as int) =~= b.subrange(i, b.len() as int)) by {
                assert forall|k: int| 0 <= k < a.len() - i implies a.subrange(i, a.len() as int)[k]
                    == b.subrange(i, b.len() as int)[k] by {
                    if k > 0 {
                        assert(a.subrange(i + 1, a.len() as int)[k - 1] == b.subrange(
                            i + 1,
                            b.len() as int,
                        )[k - 1]);
                    }
                }
            }
        }
    } else if i >= a.len() && i >= b.len() {
        assert(a.subrange(i, a.len() as int) =~= b.subrange(i, b.len() as int));
    } else if i < a.len() && i < b.len() {
        vstd::utf8::char_u32_cast(a[i], a[i] as u32);
        vstd::utf8::char_u32_cast(b[i], b[i] as u32);
    }
}

/// `lex_lt` is a strict total order on character sequences.
pub proof fn lemma_lex_order(a: Seq<char>, b: Seq<char>, c: Seq<char>)
    ensures
        !lex_lt(a, a),
        lex_lt(a, b) && lex_lt(b, c) ==> lex_lt(a, c),
        lex_lt(a, b) || lex_lt(b, a) || a == b,
{
    lemma_lex_from_irrefl(a, 0);
    if lex_lt(a, b) && lex_lt(b, c) {
        lemma_lex_from_trans(a, b, c, 0);
    }
    lemma_lex_from_total(a, b, 0);
    assert(a.subrange(0, a.len() as int) =~= a);
    assert(b.subrange(0, b.len() as int) =~= b);
}

/// Whether `a` sorts strictly before `b`.
pub fn chars_lt(a: &Vec<char>, b: &Vec<char>) -> (r: bool)
    ensures
        r == lex_lt(a@, b@),
{
    let mut i: usize = 0;
    while i < a.len() && i < b.len()
        invariant
            i <= a@.len(),
            i <= b@.len(),
            lex_lt(a@, b@) == lex_lt_from(a@, b@, i as int),
        decreases a@.len() - i,
    {
        if a[i] != b[i] {
            return (a[i] as u32) < (b[i] as u32);
        }
        i = i + 1;
    }
    i < b.len()
}

/// Concatenation of two strings.
pub fn join2(a: &str, b: &str) -> (r: String)
    ensures
        r@ == a@ + b@,
{
    string_of(&concat_chars(&chars_of(a), &chars_of(b)))
}

/// Concatenation of three strings.
pub fn join3(a: &str, b: &str, c: &str) -> (r: String)
    ensures
        r@ == a@ + b@ + c@,
{
    let ab = concat_chars(&chars_of(a), &chars_of(b));
    string_of(&concat_chars(&ab, &chars_of(c)))
}

/// `str::replace`: occurrences of `pat` found from the left, without overlap, each
/// replaced by `rep` (a non-empty pattern).
pub open spec fn replace_s(s: Seq<char>, pat: Seq<char>, rep: Seq<char>) -> Seq<char>
    decreases s.len(),
{
    if s.len() == 0 || pat.len() == 0 {
        s
    } else if starts_with_s(s, pat) {
        rep + replace_s(s.subrange(pat.len() as int, s.len() as int), pat, rep)
    } else {
        seq![s[0]] + replace_s(s.subrange(1, s.len() as int), pat, rep)
    }
}

/// `str::replace` on character vectors.
pub fn replace_chars(v: &Vec<char>, pat: &str, rep: &str) -> (r: Vec<char>)
    requires
        pat@.len() > 0,
    ensures
        r@ == replace_s(v@, pat@, rep@),
{
    let pv = chars_of(pat);
    let rv = chars_of(rep);
    let mut out: Vec<char> = Vec::new();
    let mut i: usize = 0;
    assert(v@.subrange(0, v@.len() as int) =~= v@);
    assert(out@ + replace_s(v@, pat@, rep@) =~= replace_s(v@, pat@, rep@));
    while i < v.len()
        invariant
            i <= v@.len(),
            pv@ == pat@,
            rv@ == rep@,
            pat@.len() > 0,
            out@ + replace_s(v@.subrange(i as int, v@.len() as int), pat@, rep@) == replace_s(v@, pat@, rep@),
        decreases v@.len() - i,
    {
        let ghost rest = v@.subrange(i as int, v@.len() as int);
        if occurs_at_exec(v, &pv, i) {
            assert(starts_with_s(rest, pat@)) by {
                assert(rest.subrange(0, pat@.len() as int) =~= v@.subrange(i as int, i + pat@.len()));
            }
            assert(rest.subrange(pat@.len() as int, rest.len() as int) =~= v@.subrange(i + pat@.len(), v@.len() as int));
            let mut k: usize = 0;
            let ghost before = out@;
            while k < rv.len()
                invariant
                    k <= rv@.len(),
                    out@ == before + rv@.subrange(0, k as int),
                decreases rv@.len() - k,
            {
                out.push(rv[k]);
                k = k + 1;
                assert(out@ =~= before + rv@.subrange(0, k as int));
            }
            assert(rv@.subrange(0, k as int) =~= rv@);
            assert(before + (rep@ + replace_s(v@.subrange(i + pat@.len(), v@.len() as int), pat@, rep@))
                =~= out@ + replace_s(v@.subrange(i + pat@.len(), v@.len() as int), pat@, rep@));
            i = i + pv.len();
        } else {
            assert(!starts_with_s(rest, pat@)) by {
                if starts_with_s(rest, pat@) {
                    assert(rest.subrange(0, pat@.len() as int) =~= v@.subrange(i as int, i + pat@.len()));
                }
            }
            assert(rest.subrange(1, rest.len() as int) =~= v@.subrange(i + 1, v@.len() as int));
            let ghost before = out@;
            out.push(v[i]);
            assert(before + (seq![v@[i as int]] + replace_s(v@.subrange(i + 1, v@.len() as int), pat@, rep@))
                =~= out@ + replace_s(v@.subrange(i + 1, v@.len() as int), pat@, rep@));
            i = i + 1;
        }
    }
    assert(replace_s(v@.subrange(i as int, v@.len() as int), pat@, rep@) =~= seq![]);
    assert(out@ + seq![] =~= out@);
    out
}

/// ASCII letters lowered, other characters kept (`to_ascii_lowercase`).
pub open spec fn lower_ascii(s: Seq<char>) -> Seq<char> {
    s.map_values(|c: char| if 'A' <= c && c <= 'Z' {
        ((c as u32) + 32) as char
    } else {
        c
    })
}

pub fn lower_ascii_chars(v: &Vec<char>) -> (r: Vec<char>)
    ensures
        r@ == lower_ascii(v@),
{
    let mut out: Vec<char> = Vec::new();
    let mut i: usize = 0;
    while i < v.len()
        invariant
            i <= v@.len(),
            out@ == lower_ascii(v@).subrange(0, i as int),
        decreases v@.len() - i,
    {
        let c = v[i];
        let l = if 'A' <= c && c <= 'Z' {
            lower_letter(c)
        } else {
            c
        };
        out.push(l);
        i = i + 1;
        assert(out@ =~= lower_ascii(v@).subrange(0, i as int));
    }
    assert(lower_ascii(v@).subrange(0, i as int) =~= lower_ascii(v@));
    out
}

fn lower_letter(c: char) -> (r: char)
    requires
        'A' <= c && c <= 'Z',
    ensures
        r == ((c as u32) + 32) as char,
{
    let table = ['a', 'b', 'c', 'd', 'e', 'f', 'g', 'h', 'i', 'j', 'k', 'l', 'm', 'n', 'o', 'p',
        'q', 'r', 's', 't', 'u', 'v', 'w', 'x', 'y', 'z'];
    let k = (c as u32 - 65) as usize;
    assert(table@[k as int] == ((c as u32) + 32) as char) by {
        assert((c as u32) >= 65 && (c as u32) <= 90);
    }
    table[k]
}

/// Value of a digit in `radix` (`char::to_digit`), for radices up to 16.
pub open spec fn digit_in(c: char, radix: u32) -> Option<int> {
    let v: int = if '0' <= c && c <= '9' {
        (c as int) - ('0' as int)
    } else if 'a' <= c && c <= 'f' {
        (c as int) - ('a' as int) + 10
    } else if 'A' <= c && c <= 'F' {
        (c as int) - ('A' as int) + 10
    } else {
        99
    };
    if v < radix {
        Some(v)
    } else {
        None
    }
}

/// Every character is a digit in `radix`.
pub open spec fn all_radix_digits(s: Seq<char>, radix: u32) -> bool {
    forall|i: int| 0 <= i < s.len() ==> (#[trigger] digit_in(s[i], radix)) is Some
}

/// Value of a run of digits in `radix`.
pub open spec fn radix_value(s: Seq<char>, radix: u32) -> int
    decreases s.len(),
{
    if s.len() == 0 {
        0
    } else {
        radix_value(s.drop_last(), radix) * radix + match digit_in(s.last(), radix) {
            Some(d) => d,
            None => 0,
        }
    }
}

/// `i128::from_str_radix`: an optional sign, then digits of the radix; `None` where
/// Rust reports an error (empty, a lone sign, a non-digit, or out of range).
pub open spec fn parse_i128_s(s: Seq<char>, radix: u32) -> Option<i128> {
    if s.len() == 0 || ((s[0] == '+' || s[0] == '-') && s.len() == 1) {
        None
    } else {
        let neg = s[0] == '-';
        let digits = if s[0] == '-' || s[0] == '+' {
            s.drop_first()
        } else {
            s
        };
        if !all_radix_digits(digits, radix) {
            None
        } else {
            let v = radix_value(digits, radix);
            if neg && v <= 0x8000_0000_0000_0000_0000_0000_0000_0000 {
                Some((-v) as i128)
            } else if !neg && v < 0x8000_0000_0000_0000_0000_0000_0000_0000 {
                Some(v as i128)
            } else {
                None
            }
        }
    }
}

fn digit_exec(c: char, radix: u32) -> (r: Option<u32>)
    requires
        2 <= radix <= 16,
    ensures
        match r {
            Some(d) => digit_in(c, radix) == Some(d as int),
            None => digit_in(c, radix) is None,
        },
{
    let v: u32 = if '0' <= c && c <= '9' {
        (c as u32) - ('0' as u32)
    } else if 'a' <= c && c <= 'f' {
        (c as u32) - ('a' as u32) + 10
    } else if 'A' <= c && c <= 'F' {
        (c as u32) - ('A' as u32) + 10
    } else {
        99
    };
    if v < radix {
        Some(v)
    } else {
        None
    }
}

proof fn lemma_radix_value_nonneg(s: Seq<char>, radix: u32)
    requires
        radix >= 2,
    ensures
        radix_value(s, radix) >= 0,
    decreases s.len(),
{
    if s.len() > 0 {
        lemma_radix_value_nonneg(s.drop_last(), radix);
        let a = radix_value(s.drop_last(), radix);
        assert(a * radix >= 0) by (nonlinear_arith)
            requires
                a >= 0,
                radix >= 2,
        ;
    }
}

/// A longer run of digits has at least the value of its prefix.
proof fn lemma_radix_value_mono(s: Seq<char>, radix: u32, a: int, b: int)
    requires
        radix >= 2,
        0 <= a <= b <= s.len(),
    ensures
        radix_value(s.subrange(0, a), radix) <= radix_value(s.subrange(0, b), radix),
    decreases b - a,
{
    if a < b {
        lemma_radix_value_mono(s, radix, a, b - 1);
        let p = s.subrange(0, b);
        assert(p.drop_last() =~= s.subrange(0, b - 1));
        lemma_radix_value_nonneg(s.subrange(0, b - 1), radix);
        let x = radix_value(s.subrange(0, b - 1), radix);
        assert(x <= x * radix) by (nonlinear_arith)
            requires
                x >= 0,
                radix >= 2,
        ;
    }
}

/// `i128::from_str_radix` on a character range, for radices 8, 10 and 16.
#[verifier::loop_isolation(false)]
pub fn parse_i128_range(v: &Vec<char>, from: usize, to: usize, radix: u32) -> (r: Option<i128>)
    requires
        from <= to <= v@.len(),
        2 <= radix <= 16,
    ensures
        r == parse_i128_s(v@.subrange(from as int, to as int), radix),
{
    let ghost s = v@.subrange(from as int, to as int);
    if from == to {
        return None;
    }
    if (v[from] == '+' || v[from] == '-') && to - from == 1 {
        return None;
    }
    let neg = v[from] == '-';
    let start = if v[from] == '-' || v[from] == '+' {
        from + 1
    } else {
        from
    };
    let ghost digits = v@.subrange(start as int, to as int);
    assert(digits =~= if s[0] == '-' || s[0] == '+' {
        s.drop_first()
    } else {
        s
    });
    let limit: u128 = if neg {
        0x8000_0000_0000_0000_0000_0000_0000_0000
    } else {
        0x7fff_ffff_ffff_ffff_ffff_ffff_ffff_ffff
    };
    let mut acc: u128 = 0;
    let mut i = start;
    let mut too_big = false;
    while i < to
        invariant
            from <= start <= i <= to <= v@.len(),
            2 <= radix <= 16,
            digits == v@.subrange(start as int, to as int),
            forall|k: int| start <= k < i ==> (#[trigger] digit_in(v@[k], radix)) is Some,
            !too_big ==> acc == radix_value(v@.subrange(start as int, i as int), radix),
            !too_big ==> acc <= limit,
            too_big ==> radix_value(v@.subrange(start as int, i as int), radix) > limit,
        decreases to - i,
    {
        let d = match digit_exec(v[i], radix) {
            Some(d) => d,
            None => {
                assert(!all_radix_digits(digits, radix)) by {
                    assert(digits[i - start] == v@[i as int]);
                }
                return None;
            },
        };
        let ghost prev = v@.subrange(start as int, i as int);
        let ghost next = v@.subrange(start as int, i + 1);
        assert(next.drop_last() =~= prev);
        assert(next.last() == v@[i as int]);
        proof {
            lemma_radix_value_nonneg(prev, radix);
        }
        if !too_big {
            if acc > (limit - d as u128) / (radix as u128) {
                too_big = true;
                assert(radix_value(next, radix) > limit) by (nonlinear_arith)
                    requires
                        radix_value(next, radix) == acc * radix + d,
                        acc > (limit - d) / (radix as int),
                        radix >= 2,
                        d >= 0,
                        d < radix,
                        limit >= d,
                ;
            } else {
                assert(acc * (radix as int) + d <= limit) by (nonlinear_arith)
                    requires
                        acc <= (limit - d) / (radix as int),
                        radix >= 2,
                        d >= 0,
                        limit >= d,
                ;
                acc = acc * (radix as u128) + d as u128;
            }
        } else {
            let ghost x = radix_value(prev, radix);
            assert(x * radix + d > limit) by (nonlinear_arith)
                requires
                    x > limit,
                    radix >= 2,
                    d >= 0,
            ;
        }
        i = i + 1;
    }
    assert(digits == v@.subrange(start as int, i as int));
    assert(all_radix_digits(digits, radix)) by {
        assert forall|k: int| 0 <= k < digits.len() implies (#[trigger] digit_in(digits[k], radix)) is Some by {
            assert(digits[k] == v@[start + k]);
        }
    }
    if too_big {
        return None;
    }
    if neg {
        if acc == 0x8000_0000_0000_0000_0000_0000_0000_0000 {
            Some(i128::MIN)
        } else {
            Some(-(acc as i128))
        }
    } else {
        Some(acc as i128)
    }
}

/// The characters `v[from..to]`.
pub fn slice_chars(v: &Vec<char>, from: usize, to: usize) -> (r: Vec<char>)
    requires
        from <= to <= v@.len(),
    ensures
        r@ == v@.subrange(from as int, to as int),
{
    let mut r: Vec<char> = Vec::new();
    let mut i = from;
    while i < to
        invariant
            from <= i <= to <= v@.len(),
            r@ == v@.subrange(from as int, i as int),
        decreases to - i,
    {
        r.push(v[i]);
        i = i + 1;
        assert(r@ =~= v@.subrange(from as int, i as int));
    }
    r
}

/// `str::lines` on vectors.
pub fn lines_of(v: &Vec<char>) -> (r: Vec<Vec<char>>)
    ensures
        char_vecs(r@) == lines_s(v@),
{
    let pieces = split_chars(v, '\n');
    let ghost ps = split_s(v@, '\n');
    let n = if v.len() == 0 || v[v.len() - 1] == '\n' {
        proof {
            lemma_split_len(v@, '\n');
        }
        pieces.len() - 1
    } else {
        pieces.len()
    };
    let ghost kept = if v@.len() == 0 || v@.last() == '\n' {
        ps.drop_last()
    } else {
        ps
    };
    assert(kept.len() == n);
    let mut r: Vec<Vec<char>> = Vec::new();
    let mut i: usize = 0;
    while i < n
        invariant
            i <= n <= pieces@.len(),
            char_vecs(pieces@) == ps,
            kept.len() == n,
            forall|k: int| 0 <= k < n ==> kept[k] == ps[k],
            char_vecs(r@) == kept.subrange(0, i as int).map_values(strip_cr_fn()),
        decreases n - i,
    {
        let p = &pieces[i];
        assert(char_vecs(pieces@)[i as int] == p@);
        let end = if p.len() > 0 && p[p.len() - 1] == '\r' {
            p.len() - 1
        } else {
            p.len()
        };
        let mut line: Vec<char> = Vec::new();
        let mut k: usize = 0;
        while k < end
            invariant
                k <= end <= p@.len(),
                line@ == p@.subrange(0, k as int),
            decreases end - k,
        {
            line.push(p[k]);
            k = k + 1;
            assert(line@ =~= p@.subrange(0, k as int));
        }
        assert(line@ =~= strip_cr(p@));
        let ghost before = r@;
        let ghost lv = line@;
        r.push(line);
        proof {
            let a = char_vecs(r@);
            let b = kept.subrange(0, i + 1).map_values(strip_cr_fn());
            let c = char_vecs(before);
            assert(c == kept.subrange(0, i as int).map_values(strip_cr_fn()));
            assert(c.len() == i);
            assert(before.len() == i);
            assert(r@.len() == i + 1);
            assert(a.len() == i + 1);
            assert(b.len() == i + 1);
            assert forall|j: int| 0 <= j < i + 1 implies a[j] == b[j] by {
                if j < i {
                    assert(r@[j] == before[j]);
                    assert(a[j] == c[j]);
                } else {
                    assert(r@[j]@ == lv);
                    assert(kept[j] == ps[j]);
                }
            }
            assert(a =~= b);
        }
        i = i + 1;
    }
    assert(kept.subrange(0, n as int) =~= kept);
    r
}

pub proof fn lemma_split_len(s: Seq<char>, c: char)
    ensures
        split_s(s, c).len() >= 1,
    decreases s.len(),
{
}

} // verus!
