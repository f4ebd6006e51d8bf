//! Character-level text operations with exact specifications.
//!
//! Strings are modelled by their views, sequences of `char`. Each executable
//! operation here states its result over the spec functions of this module.

use vstd::prelude::*;

verus! {

// ---------------------------------------------------------------------------
// Specifications
// ---------------------------------------------------------------------------

/// `p` is a prefix of `s`.
pub open spec fn has_prefix(s: Seq<char>, p: Seq<char>) -> bool {
    p.len() <= s.len() && s.subrange(0, p.len() as int) == p
}

/// `p` is a suffix of `s`.
pub open spec fn has_suffix(s: Seq<char>, p: Seq<char>) -> bool {
    p.len() <= s.len() && s.subrange(s.len() - p.len(), s.len() as int) == p
}

/// `p` occurs in `s` starting at index `i`.
pub open spec fn occurs_at(s: Seq<char>, p: Seq<char>, i: int) -> bool {
    0 <= i && i + p.len() <= s.len() && s.subrange(i, i + p.len()) == p
}

/// `p` occurs somewhere in `s`.
pub open spec fn contains_seq(s: Seq<char>, p: Seq<char>) -> bool {
    exists|i: int| occurs_at(s, p, i)
}

/// Index of the first occurrence of `p` in `s` at or after `i`, or -1.
pub open spec fn find_from(s: Seq<char>, p: Seq<char>, i: int) -> int
    decreases s.len() - i,
{
    if i < 0 || i + p.len() > s.len() {
        -1
    } else if occurs_at(s, p, i) {
        i
    } else if i >= s.len() {
        -1
    } else {
        find_from(s, p, i + 1)
    }
}

/// Index of the first occurrence of `p` in `s`, or -1.
pub open spec fn find(s: Seq<char>, p: Seq<char>) -> int {
    find_from(s, p, 0)
}

/// Every non-overlapping occurrence of `p` in `s`, taken from left to right,
/// replaced by `r` (the behaviour of `str::replace` for a non-empty pattern).
pub open spec fn replace_all(s: Seq<char>, p: Seq<char>, r: Seq<char>) -> Seq<char>
    decreases s.len(),
{
    if s.len() == 0 || p.len() == 0 {
        s
    } else if has_prefix(s, p) {
        r + replace_all(s.skip(p.len() as int), p, r)
    } else {
        seq![s[0]] + replace_all(s.skip(1), p, r)
    }
}

/// The part of `s` before the first occurrence of `p` (all of `s` if none):
/// the first item of `s.split(p)`.
pub open spec fn before_first(s: Seq<char>, p: Seq<char>) -> Seq<char> {
    let i = find(s, p);
    if i < 0 {
        s
    } else {
        s.take(i)
    }
}

/// The second item of `s.split(p)`: the text between the first and the
/// second occurrence of `p` (or to the end), or `None` when `p` does not occur.
pub open spec fn split_second(s: Seq<char>, p: Seq<char>) -> Option<Seq<char>> {
    let i = find(s, p);
    if i < 0 {
        None
    } else {
        Some(before_first(s.skip(i + p.len()), p))
    }
}

/// Rust's `char::is_whitespace`: the Unicode `White_Space` property.
pub open spec fn is_whitespace(c: char) -> bool {
    ||| '\u{9}' <= c <= '\u{d}'
    ||| c == ' '
    ||| c == '\u{85}'
    ||| c == '\u{a0}'
    ||| c == '\u{1680}'
    ||| '\u{2000}' <= c <= '\u{200a}'
    ||| c == '\u{2028}'
    ||| c == '\u{2029}'
    ||| c == '\u{202f}'
    ||| c == '\u{205f}'
    ||| c == '\u{3000}'
}

/// A set of characters that `strip` removes from both ends of a text.
pub enum CharSet {
    /// Characters with the `White_Space` property.
    Whitespace,
    /// One given character.
    Only(char),
}

pub open spec fn in_set(c: char, set: CharSet) -> bool {
    match set {
        CharSet::Whitespace => is_whitespace(c),
        CharSet::Only(d) => c == d,
    }
}

/// `s` without its leading characters in `set`.
pub open spec fn strip_start(s: Seq<char>, set: CharSet) -> Seq<char>
    decreases s.len(),
{
    if s.len() > 0 && in_set(s[0], set) {
        strip_start(s.skip(1), set)
    } else {
        s
    }
}

/// `s` without its trailing characters in `set`.
pub open spec fn strip_end(s: Seq<char>, set: CharSet) -> Seq<char>
    decreases s.len(),
{
    if s.len() > 0 && in_set(s.last(), set) {
        strip_end(s.drop_last(), set)
    } else {
        s
    }
}

/// `s` without the characters in `set` at either end (`str::trim`,
/// `str::trim_matches`).
pub open spec fn strip(s: Seq<char>, set: CharSet) -> Seq<char> {
    strip_end(strip_start(s, set), set)
}

/// `s` with surrounding whitespace removed (`str::trim`).
pub open spec fn trim(s: Seq<char>) -> Seq<char> {
    strip(s, CharSet::Whitespace)
}

/// The ASCII lower-case form of one character.
pub open spec fn ascii_lower(c: char) -> char {
    if 'A' <= c <= 'Z' {
        ((c as u32) + 32) as char
    } else {
        c
    }
}

/// `a` and `b` are equal when ASCII letters are compared without case.
pub open spec fn eq_ignore_ascii_case(a: Seq<char>, b: Seq<char>) -> bool {
    a.len() == b.len() && forall|i: int| 0 <= i < a.len() ==> ascii_lower(#[trigger] a[i]) == ascii_lower(b[i])
}

/// Lexicographic order on character sequences (the order of `String`'s `cmp`,
/// which compares UTF-8 bytes and therefore code points).
pub open spec fn seq_lt(a: Seq<char>, b: Seq<char>) -> bool
    decreases a.len(),
{
    if a.len() == 0 {
        b.len() > 0
    } else if b.len() == 0 {
        false
    } else if a[0] != b[0] {
        (a[0] as u32) < (b[0] as u32)
    } else {
        seq_lt(a.skip(1), b.skip(1))
    }
}

/// The decimal digits of `n`, without leading zeros.
pub open spec fn decimal(n: nat) -> Seq<char>
    decreases n,
{
    if n < 10 {
        seq![digit_char(n)]
    } else {
        decimal(n / 10).push(digit_char(n % 10))
    }
}

pub open spec fn digit_char(d: nat) -> char {
    ((d + 48) as u32) as char
}

/// `s` left-padded with '0' to at least `w` characters.
pub open spec fn zero_pad(s: Seq<char>, w: nat) -> Seq<char> {
    if s.len() >= w {
        s
    } else {
        Seq::new((w - s.len()) as nat, |i: int| '0') + s
    }
}

/// The lower-case mapping of Unicode applied to a whole text
/// (the result of std's `str::to_lowercase`).
pub uninterp spec fn lowercase(s: Seq<char>) -> Seq<char>;

// ---------------------------------------------------------------------------
// Lemmas
// ---------------------------------------------------------------------------

/// What `find_from` returns: the first occurrence at or after `i`, or -1 when
/// there is none.
pub proof fn lemma_find_from(s: Seq<char>, p: Seq<char>, i: int)
    requires
        0 <= i,
    ensures
        ({
            let r = find_from(s, p, i);
            &&& r == -1 || (i <= r && occurs_at(s, p, r))
            &&& forall|j: int| i <= j && (r == -1 || j < r) ==> !occurs_at(s, p, j)
        }),
    decreases s.len() - i,
{
    if i + p.len() > s.len() {
    } else if occurs_at(s, p, i) {
    } else if i >= s.len() {
        assert forall|j: int| i <= j implies !occurs_at(s, p, j) by {
            if j > i {
                assert(j + p.len() > s.len());
            }
        }
    } else {
        lemma_find_from(s, p, i + 1);
    }
}

/// `find_from` is determined by the occurrences of `p`.
pub proof fn lemma_find_from_char(s: Seq<char>, p: Seq<char>, i: int, r: int)
    requires
        0 <= i,
        r == -1 || (i <= r && occurs_at(s, p, r)),
        forall|j: int| i <= j && (r == -1 || j < r) ==> !occurs_at(s, p, j),
    ensures
        find_from(s, p, i) == r,
{
    lemma_find_from(s, p, i);
    let f = find_from(s, p, i);
    if f != r {
        if f == -1 {
            assert(!occurs_at(s, p, r));
        } else if r == -1 {
            assert(!occurs_at(s, p, f));
        } else if f < r {
            assert(!occurs_at(s, p, f));
        } else {
            assert(!occurs_at(s, p, r));
        }
    }
}

pub proof fn lemma_strip_start_is_skip(s: Seq<char>, set: CharSet, a: int)
    requires
        0 <= a <= s.len(),
        forall|k: int| 0 <= k < a ==> in_set(#[trigger] s[k], set),
        a == s.len() || !in_set(s[a], set),
    ensures
        strip_start(s, set) == s.skip(a),
    decreases a,
{
    if a == 0 {
        assert(s.skip(0) =~= s);
    } else {
        let t = s.skip(1);
        assert forall|k: int| 0 <= k < a - 1 implies in_set(#[trigger] t[k], set) by {
            assert(t[k] == s[k + 1]);
        }
        lemma_strip_start_is_skip(t, set, a - 1);
        assert(t.skip(a - 1) =~= s.skip(a));
    }
}

pub proof fn lemma_strip_end_is_take(s: Seq<char>, set: CharSet, b: int)
    requires
        0 <= b <= s.len(),
        forall|k: int| b <= k < s.len() ==> in_set(#[trigger] s[k], set),
        b == 0 || !in_set(s[b - 1], set),
    ensures
        strip_end(s, set) == s.take(b),
    decreases s.len() - b,
{
    if b == s.len() {
        assert(s.take(b) =~= s);
    } else {
        let t = s.drop_last();
        assert forall|k: int| b <= k < t.len() implies in_set(#[trigger] t[k], set) by {
            assert(t[k] == s[k]);
        }
        lemma_strip_end_is_take(t, set, b);
        assert(t.take(b) =~= s.take(b));
    }
}

// ---------------------------------------------------------------------------
// Trusted items of std
// ---------------------------------------------------------------------------

/// Appends one character to a `String` (std `String::push`).
/// Claim: the new contents are the old contents followed by `c`, as documented.
#[verifier::external_body]
pub(crate) fn push_char(s: &mut String, c: char)
    ensures
        final(s)@ == old(s)@.push(c),
{
    s.push(c);
}

/// std `str::to_lowercase`. Claim: the result is the Unicode lower-case
/// mapping of `s`, named `lowercase`; nothing more is stated of that mapping.
#[verifier::external_body]
pub(crate) fn to_lowercase(s: &str) -> (r: String)
    ensures
        r@ == lowercase(s@),
{
    s.to_lowercase()
}

// ---------------------------------------------------------------------------
// Executable operations
// ---------------------------------------------------------------------------

/// The characters of `s`, in order.
pub fn chars_of(s: &str) -> (v: Vec<char>)
    ensures
        v@ == s@,
{
    let mut v: Vec<char> = Vec::new();
    for c in it: s.chars()
        invariant
            it.seq() == s@,
            v@ == it.seq().take(it.index()),
    {
        v.push(c);
    }
    v
}

/// A `String` holding `v[a..b]`.
pub fn string_of_range(v: &Vec<char>, a: usize, b: usize) -> (r: String)
    requires
        a <= b <= v.len(),
    ensures
        r@ == v@.subrange(a as int, b as int),
{
    let mut r = String::new();
    let mut i: usize = a;
    while i < b
        invariant
            a <= i <= b <= v.len(),
            r@ == v@.subrange(a as int, i as int),
        decreases b - i,
    {
        push_char(&mut r, v[i]);
        assert(v@.subrange(a as int, i + 1) =~= v@.subrange(a as int, i as int).push(v@[i as int]));
        i += 1;
    }
    r
}

/// A `String` holding `v`.
pub fn string_of(v: &Vec<char>) -> (r: String)
    ensures
        r@ == v@,
{
    let r = string_of_range(v, 0, v.len());
    assert(v@.subrange(0, v.len() as int) =~= v@);
    r
}

/// Appends all of `t` to `s`.
pub fn append_seq(s: &mut String, t: &Vec<char>)
    ensures
        final(s)@ == old(s)@ + t@,
{
    let mut i: usize = 0;
    while i < t.len()
        invariant
            i <= t.len(),
            s@ == old(s)@ + t@.take(i as int),
        decreases t.len() - i,
    {
        push_char(s, t[i]);
        assert(t@.take(i + 1) =~= t@.take(i as int).push(t@[i as int]));
        i += 1;
    }
    assert(t@.take(t.len() as int) =~= t@);
}

/// Appends all of `t` to `s`.
pub fn append_str(s: &mut String, t: &str)
    ensures
        final(s)@ == old(s)@ + t@,
{
    let tv = chars_of(t);
    append_seq(s, &tv);
}

/// Whether `p` occurs in `s` at index `i`.
pub fn occurs_at_exec(s: &Vec<char>, p: &Vec<char>, i: usize) -> (b: bool)
    ensures
        b == occurs_at(s@, p@, i as int),
{
    if i > s.len() || p.len() > s.len() - i {
        return false;
    }
    let mut k: usize = 0;
    while k < p.len()
        invariant
            i + p.len() <= s.len(),
            k <= p.len(),
            forall|j: int| 0 <= j < k ==> s@[i + j] == p@[j],
        decreases p.len() - k,
    {
        if s[i + k] != p[k] {
            assert(s@.subrange(i as int, i + p.len())[k as int] != p@[k as int]);
            return false;
        }
        k += 1;
    }
    assert(s@.subrange(i as int, i + p.len()) =~= p@);
    true
}

/// The first occurrence of `p` in `s` at or after `from`.
pub fn find_exec(s: &Vec<char>, p: &Vec<char>, from: usize) -> (r: Option<usize>)
    ensures
        match r {
            Some(k) => find_from(s@, p@, from as int) == k as int,
            None => find_from(s@, p@, from as int) == -1,
        },
{
    let mut j: usize = from;
    while j < s.len()
        invariant
            from <= j,
            forall|k: int| from <= k < j ==> !occurs_at(s@, p@, k),
        decreases s.len() - j,
    {
        if occurs_at_exec(s, p, j) {
            proof {
                lemma_find_from_char(s@, p@, from as int, j as int);
            }
            return Some(j);
        }
        j += 1;
    }
    if occurs_at_exec(s, p, j) {
        proof {
            lemma_find_from_char(s@, p@, from as int, j as int);
        }
        return Some(j);
    }
    proof {
        assert forall|k: int| from <= k implies !occurs_at(s@, p@, k) by {
            if k > j {
                assert(k > s.len());
            }
        }
        lemma_find_from_char(s@, p@, from as int, -1);
    }
    None
}

/// Whether `p` occurs in `s`.
pub fn contains_str(s: &str, p: &str) -> (b: bool)
    ensures
        b == contains_seq(s@, p@),
{
    let sv = chars_of(s);
    let pv = chars_of(p);
    let r = find_exec(&sv, &pv, 0);
    proof {
        lemma_find_from(s@, p@, 0);
    }
    r.is_some()
}

/// Whether `s` starts with `p`.
pub fn starts_with_str(s: &str, p: &str) -> (b: bool)
    ensures
        b == has_prefix(s@, p@),
{
    let sv = chars_of(s);
    let pv = chars_of(p);
    let b = occurs_at_exec(&sv, &pv, 0);
    proof {
        if has_prefix(s@, p@) {
            assert(occurs_at(s@, p@, 0));
        }
    }
    b
}

/// Whether `s` and `t` are the same text.
pub fn str_eq(s: &str, t: &str) -> (b: bool)
    ensures
        b == (s@ == t@),
{
    let sv = chars_of(s);
    let tv = chars_of(t);
    if sv.len() != tv.len() {
        return false;
    }
    let b = occurs_at_exec(&sv, &tv, 0);
    proof {
        if b {
            assert(sv@.subrange(0, tv@.len() as int) =~= sv@);
        }
        if s@ == t@ {
            assert(sv@.subrange(0, tv@.len() as int) =~= sv@);
        }
    }
    b
}

/// `s` with every occurrence of `p` replaced by `r` (std `str::replace`).
pub fn replace_str(s: &str, p: &str, r: &str) -> (out: String)
    requires
        p@.len() > 0,
    ensures
        out@ == replace_all(s@, p@, r@),
{
    let sv = chars_of(s);
    let pv = chars_of(p);
    let rv = chars_of(r);
    let mut out = String::new();
    let mut i: usize = 0;
    assert(sv@.skip(0) =~= sv@);
    while i < sv.len()
        invariant
            i <= sv.len(),
            pv@.len() > 0,
            sv@ == s@,
            pv@ == p@,
            rv@ == r@,
            out@ + replace_all(sv@.skip(i as int), p@, r@) == replace_all(s@, p@, r@),
        decreases sv.len() - i,
    {
        let ghost t = sv@.skip(i as int);
        if occurs_at_exec(&sv, &pv, i) {
            assert(t.subrange(0, p@.len() as int) =~= sv@.subrange(i as int, i + p@.len()));
            assert(t.skip(p@.len() as int) =~= sv@.skip(i + p@.len()));
            let ghost before = out@;
            append_seq(&mut out, &rv);
            assert(out@ + replace_all(sv@.skip(i + p@.len()), p@, r@) =~= before + replace_all(t, p@, r@))
                by {
                    assert(replace_all(t, p@, r@) == r@ + replace_all(t.skip(p@.len() as int), p@, r@));
                }
            i = i + pv.len();
        } else {
            proof {
                if has_prefix(t, p@) {
                    assert(t.subrange(0, p@.len() as int) =~= sv@.subrange(i as int, i + p@.len()));
                }
            }
            assert(t.skip(1) =~= sv@.skip(i + 1));
            let ghost before = out@;
            push_char(&mut out, sv[i]);
            assert(out@ + replace_all(sv@.skip(i + 1), p@, r@) =~= before + replace_all(t, p@, r@));
            i = i + 1;
        }
    }
    assert(sv@.skip(i as int) =~= Seq::<char>::empty());
    assert(out@ + replace_all(Seq::<char>::empty(), p@, r@) =~= out@);
    out
}

/// Whether `c` is in `set`.
pub fn char_in_set(c: char, set: &CharSet) -> (b: bool)
    ensures
        b == in_set(c, *set),
{
    match set {
        CharSet::Whitespace => {
            ('\u{9}' <= c && c <= '\u{d}') || c == ' ' || c == '\u{85}' || c == '\u{a0}'
                || c == '\u{1680}' || ('\u{2000}' <= c && c <= '\u{200a}') || c == '\u{2028}'
                || c == '\u{2029}' || c == '\u{202f}' || c == '\u{205f}' || c == '\u{3000}'
        },
        CharSet::Only(d) => c == *d,
    }
}

/// `s` without the characters of `set` at either end.
pub fn strip_seq(s: &Vec<char>, set: &CharSet) -> (r: Vec<char>)
    ensures
        r@ == strip(s@, *set),
{
    let mut a: usize = 0;
    while a < s.len() && char_in_set(s[a], set)
        invariant
            a <= s.len(),
            forall|k: int| 0 <= k < a ==> in_set(#[trigger] s@[k], *set),
        decreases s.len() - a,
    {
        a += 1;
    }
    proof {
        lemma_strip_start_is_skip(s@, *set, a as int);
    }
    let ghost t = s@.skip(a as int);
    let mut b: usize = s.len();
    while b > a && char_in_set(s[b - 1], set)
        invariant
            a <= b <= s.len(),
            t == s@.skip(a as int),
            forall|k: int| b <= k < s.len() ==> in_set(#[trigger] s@[k], *set),
        decreases b - a,
    {
        b -= 1;
    }
    proof {
        let bb = (b - a) as int;
        assert forall|k: int| bb <= k < t.len() implies in_set(#[trigger] t[k], *set) by {
            assert(t[k] == s@[k + a]);
        }
        if bb > 0 {
            assert(t[bb - 1] == s@[b - 1]);
        }
        lemma_strip_end_is_take(t, *set, bb);
    }
    let mut r: Vec<char> = Vec::new();
    let mut i: usize = a;
    while i < b
        invariant
            a <= i <= b <= s.len(),
            r@ == s@.subrange(a as int, i as int),
        decreases b - i,
    {
        r.push(s[i]);
        assert(s@.subrange(a as int, i + 1) =~= s@.subrange(a as int, i as int).push(s@[i as int]));
        i += 1;
    }
    assert(t.take((b - a) as int) =~= s@.subrange(a as int, b as int));
    r
}

/// `s` without surrounding whitespace (std `str::trim`).
pub fn trim_str(s: &str) -> (r: String)
    ensures
        r@ == trim(s@),
{
    let v = chars_of(s);
    let t = strip_seq(&v, &CharSet::Whitespace);
    string_of(&t)
}

/// Whether `a` and `b` are equal up to ASCII case.
pub fn eq_ignore_ascii_case_exec(a: &Vec<char>, b: &Vec<char>) -> (r: bool)
    ensures
        r == eq_ignore_ascii_case(a@, b@),
{
    if a.len() != b.len() {
        return false;
    }
    let mut i: usize = 0;
    while i < a.len()
        invariant
            a.len() == b.len(),
            i <= a.len(),
            forall|k: int| 0 <= k < i ==> ascii_lower(#[trigger] a@[k]) == ascii_lower(b@[k]),
        decreases a.len() - i,
    {
        let x = a[i];
        let y = b[i];
        let lx = if 'A' <= x && x <= 'Z' { ((x as u32) + 32) as u8 as char } else { x };
        let ly = if 'A' <= y && y <= 'Z' { ((y as u32) + 32) as u8 as char } else { y };
        assert(lx == ascii_lower(x) && ly == ascii_lower(y)) by {
            if 'A' <= x && x <= 'Z' {
                assert((((x as u32) + 32) as u8) as char == ((x as u32) + 32) as char);
            }
            if 'A' <= y && y <= 'Z' {
                assert((((y as u32) + 32) as u8) as char == ((y as u32) + 32) as char);
            }
        }
        if lx != ly {
            return false;
        }
        i += 1;
    }
    true
}

/// Whether `a` comes before `b` in the order of `String`'s comparison.
pub fn seq_lt_exec(a: &Vec<char>, b: &Vec<char>) -> (r: bool)
    ensures
        r == seq_lt(a@, b@),
{
    let mut i: usize = 0;
    assert(a@.skip(0) =~= a@ && b@.skip(0) =~= b@);
    while i < a.len() && i < b.len() && a[i] == b[i]
        invariant
            i <= a.len(),
            i <= b.len(),
            seq_lt(a@, b@) == seq_lt(a@.skip(i as int), b@.skip(i as int)),
        decreases a.len() - i,
    {
        let ghost sa = a@.skip(i as int);
        let ghost sb = b@.skip(i as int);
        assert(sa.skip(1) =~= a@.skip(i + 1));
        assert(sb.skip(1) =~= b@.skip(i + 1));
        i += 1;
    }
    let ghost sa = a@.skip(i as int);
    let ghost sb = b@.skip(i as int);
    if i == a.len() {
        i < b.len()
    } else if i == b.len() {
        false
    } else {
        assert(sa[0] == a@[i as int] && sb[0] == b@[i as int]);
        (a[i] as u32) < (b[i] as u32)
    }
}

/// The decimal text of `n`.
pub fn decimal_text(n: u32) -> (r: String)
    ensures
        r@ == decimal(n as nat),
    decreases n,
{
    if n < 10 {
        let mut r = String::new();
        push_char(&mut r, digit_exec(n));
        assert(r@ =~= seq![digit_char(n as nat)]);
        r
    } else {
        let mut r = decimal_text(n / 10);
        push_char(&mut r, digit_exec(n % 10));
        r
    }
}

/// The character of one decimal digit.
pub fn digit_exec(d: u32) -> (c: char)
    requires
        d < 10,
    ensures
        c == digit_char(d as nat),
{
    let c = ((d + 48) as u8) as char;
    assert(((d + 48) as u8) as char == ((d + 48) as u32) as char);
    c
}

} // verus!
