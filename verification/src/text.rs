//! Character-level text primitives used throughout the compiler: conversion
//! between strings and character vectors, whitespace trimming, prefix tests,
//! line splitting and number formatting.

use vstd::prelude::*;
use vstd::seq_lib::lemma_concat_associative;

verus! {

// ---------------------------------------------------------------------------
// Conversions between strings and character vectors
// ---------------------------------------------------------------------------

/// The characters of a string slice, in order.
pub fn chars_of(s: &str) -> (v: Vec<char>)
    ensures
        v@ == s@,
{
    let mut v: Vec<char> = Vec::new();
    for c in it: s.chars()
        invariant
            v@ == it.seq().take(it.index()),
            it.seq() == s@,
    {
        v.push(c);
    }
    v
}

/// Appends one character to a string (`String::push`).
#[verifier::external_body]
pub fn push_char(s: &mut String, c: char)
    ensures
        final(s)@ == old(s)@.push(c),
{
    s.push(c);
}

/// Appends a string slice to a string.
pub fn push_str(s: &mut String, t: &str)
    ensures
        final(s)@ == old(s)@ + t@,
{
    s.append(t);
}

/// Appends a sequence of characters to a string.
pub fn push_chars(s: &mut String, v: &Vec<char>)
    ensures
        final(s)@ == old(s)@ + v@,
{
    let ghost s0 = s@;
    let mut i: usize = 0;
    while i < v.len()
        invariant
            i <= v.len(),
            s@ == s0 + v@.take(i as int),
        decreases v.len() - i,
    {
        push_char(s, v[i]);
        i += 1;
        assert(v@.take(i as int) =~= v@.take(i - 1).push(v@[i - 1]));
    }
    assert(v@.take(v.len() as int) =~= v@);
}

/// A string holding exactly the given characters.
pub fn string_of(v: &Vec<char>) -> (s: String)
    ensures
        s@ == v@,
{
    let mut s = String::new();
    push_chars(&mut s, v);
    assert(s@ =~= v@);
    s
}

/// A string holding the characters of `t`.
pub fn string_from(t: &str) -> (s: String)
    ensures
        s@ == t@,
{
    t.to_owned()
}

/// Character-wise equality of two strings.
pub fn str_eq(a: &str, b: &str) -> (r: bool)
    ensures
        r == (a@ == b@),
{
    let va = chars_of(a);
    let vb = chars_of(b);
    vec_eq(&va, &vb)
}

/// Equality of two character vectors.
pub fn vec_eq(a: &Vec<char>, b: &Vec<char>) -> (r: bool)
    ensures
        r == (a@ == b@),
{
    if a.len() != b.len() {
        return false;
    }
    let mut i: usize = 0;
    while i < a.len()
        invariant
            a.len() == b.len(),
            i <= a.len(),
            forall|k: int| 0 <= k < i ==> a@[k] == b@[k],
        decreases a.len() - i,
    {
        if a[i] != b[i] {
            return false;
        }
        i += 1;
    }
    assert(a@ =~= b@);
    true
}

/// The characters `v[lo..hi]`.
pub fn slice_of(v: &Vec<char>, lo: usize, hi: usize) -> (r: Vec<char>)
    requires
        lo <= hi <= v.len(),
    ensures
        r@ == v@.subrange(lo as int, hi as int),
{
    let mut r: Vec<char> = Vec::new();
    let mut i = lo;
    while i < hi
        invariant
            lo <= i <= hi <= v.len(),
            r@ == v@.subrange(lo as int, i as int),
        decreases hi - i,
    {
        r.push(v[i]);
        i += 1;
        assert(r@ =~= v@.subrange(lo as int, i as int));
    }
    r
}

/// Appends the characters of a string slice to a character vector.
pub fn extend_str(v: &mut Vec<char>, t: &str)
    ensures
        final(v)@ == old(v)@ + t@,
{
    let tv = chars_of(t);
    extend_vec(v, &tv);
}

/// Appends a character vector to another.
pub fn extend_vec(v: &mut Vec<char>, t: &Vec<char>)
    ensures
        final(v)@ == old(v)@ + t@,
{
    let ghost v0 = v@;
    let mut i: usize = 0;
    while i < t.len()
        invariant
            i <= t.len(),
            v@ == v0 + t@.take(i as int),
        decreases t.len() - i,
    {
        v.push(t[i]);
        i += 1;
        assert(t@.take(i as int) =~= t@.take(i - 1).push(t@[i - 1]));
    }
    assert(t@.take(t.len() as int) =~= t@);
}

// ---------------------------------------------------------------------------
// Whitespace and trimming
// ---------------------------------------------------------------------------

/// Unicode `White_Space` characters (what `char::is_whitespace` accepts).
pub open spec fn is_ws(c: char) -> bool {
    ||| c == '\t' || c == '\n' || c == '\x0B' || c == '\x0C' || c == '\r' || c == ' '
    ||| c == '\u{85}' || c == '\u{A0}' || c == '\u{1680}'
    ||| ('\u{2000}' <= c && c <= '\u{200A}')
    ||| c == '\u{2028}' || c == '\u{2029}' || c == '\u{202F}' || c == '\u{205F}'
    ||| c == '\u{3000}'
}

/// Whether a character is whitespace.
pub fn is_ws_char(c: char) -> (r: bool)
    ensures
        r == is_ws(c),
{
    c == '\t' || c == '\n' || c == '\x0B' || c == '\x0C' || c == '\r' || c == ' ' || c
        == '\u{85}' || c == '\u{A0}' || c == '\u{1680}' || ('\u{2000}' <= c && c <= '\u{200A}')
        || c == '\u{2028}' || c == '\u{2029}' || c == '\u{202F}' || c == '\u{205F}' || c
        == '\u{3000}'
}

/// `s` without its leading whitespace.
pub open spec fn trim_start(s: Seq<char>) -> Seq<char>
    decreases s.len(),
{
    if s.len() > 0 && is_ws(s[0]) {
        trim_start(s.drop_first())
    } else {
        s
    }
}

pub proof fn lemma_trim_start_len(s: Seq<char>)
    ensures
        trim_start(s).len() <= s.len(),
    decreases s.len(),
{
    if s.len() > 0 && is_ws(s[0]) {
        lemma_trim_start_len(s.drop_first());
    }
}

/// `s` without its trailing whitespace.
pub open spec fn trim_end(s: Seq<char>) -> Seq<char>
    decreases s.len(),
{
    if s.len() > 0 && is_ws(s.last()) {
        trim_end(s.drop_last())
    } else {
        s
    }
}

/// `s` without leading and trailing whitespace (`str::trim`).
pub open spec fn trim(s: Seq<char>) -> Seq<char> {
    trim_end(trim_start(s))
}

/// `s` without its leading whitespace.
pub fn trim_start_vec(v: &Vec<char>) -> (r: Vec<char>)
    ensures
        r@ == trim_start(v@),
{
    let mut i: usize = 0;
    assert(v@.subrange(0, v.len() as int) =~= v@);
    while i < v.len() && is_ws_char(v[i])
        invariant
            i <= v.len(),
            trim_start(v@) == trim_start(v@.subrange(i as int, v.len() as int)),
        decreases v.len() - i,
    {
        assert(v@.subrange(i as int, v.len() as int).drop_first() =~= v@.subrange(
            i + 1,
            v.len() as int,
        ));
        i += 1;
    }
    let r = slice_of(v, i, v.len());
    r
}

/// `s` without its trailing whitespace.
pub fn trim_end_vec(v: &Vec<char>) -> (r: Vec<char>)
    ensures
        r@ == trim_end(v@),
{
    let mut j: usize = v.len();
    assert(v@.subrange(0, j as int) =~= v@);
    while j > 0 && is_ws_char(v[j - 1])
        invariant
            j <= v.len(),
            trim_end(v@) == trim_end(v@.subrange(0, j as int)),
        decreases j,
    {
        assert(v@.subrange(0, j as int).drop_last() =~= v@.subrange(0, j - 1));
        j -= 1;
    }
    slice_of(v, 0, j)
}

/// `s` without leading and trailing whitespace.
pub fn trim_vec(v: &Vec<char>) -> (r: Vec<char>)
    ensures
        r@ == trim(v@),
{
    let a = trim_start_vec(v);
    trim_end_vec(&a)
}

// ---------------------------------------------------------------------------
// Prefixes, suffixes and searching
// ---------------------------------------------------------------------------

/// `s` begins with `p`.
pub open spec fn starts_with(s: Seq<char>, p: Seq<char>) -> bool {
    p.len() <= s.len() && s.subrange(0, p.len() as int) == p
}

/// `s` ends with `p`.
pub open spec fn ends_with(s: Seq<char>, p: Seq<char>) -> bool {
    p.len() <= s.len() && s.subrange(s.len() - p.len(), s.len() as int) == p
}

/// `p` occurs in `s` at position `i`.
pub open spec fn occurs_at(s: Seq<char>, p: Seq<char>, i: int) -> bool {
    0 <= i && i + p.len() <= s.len() && s.subrange(i, i + p.len()) == p
}

/// The first position at or after `i` where `p` occurs in `s`.
pub open spec fn find_from(s: Seq<char>, p: Seq<char>, i: int) -> Option<int>
    decreases s.len() + 1 - i,
{
    if i < 0 || i + p.len() > s.len() {
        None
    } else if occurs_at(s, p, i) {
        Some(i)
    } else {
        find_from(s, p, i + 1)
    }
}

/// The first position where `p` occurs in `s` (`str::find`).
pub open spec fn find(s: Seq<char>, p: Seq<char>) -> Option<int> {
    find_from(s, p, 0)
}

pub proof fn lemma_find_from(s: Seq<char>, p: Seq<char>, i: int)
    requires
        0 <= i,
    ensures
        find_from(s, p, i) matches Some(k) ==> i <= k && occurs_at(s, p, k) && forall|j: int|
            i <= j < k ==> !occurs_at(s, p, j),
        find_from(s, p, i) is None ==> forall|j: int| i <= j ==> !occurs_at(s, p, j),
    decreases s.len() + 1 - i,
{
    if i + p.len() <= s.len() && !occurs_at(s, p, i) {
        lemma_find_from(s, p, i + 1);
    }
}

/// `p` occurs somewhere in `s` (`str::contains`).
pub open spec fn contains(s: Seq<char>, p: Seq<char>) -> bool {
    find(s, p) is Some
}

/// `p` occurs in `v` at position `i`.
pub fn occurs_at_vec(v: &Vec<char>, p: &Vec<char>, i: usize) -> (r: bool)
    ensures
        r == occurs_at(v@, p@, i as int),
{
    if i > v.len() || p.len() > v.len() - i {
        return false;
    }
    let mut k: usize = 0;
    while k < p.len()
        invariant
            i + p.len() <= v.len(),
            k <= p.len(),
            forall|j: int| 0 <= j < k ==> v@[i + j] == p@[j],
        decreases p.len() - k,
    {
        if v[i + k] != p[k] {
            assert(v@.subrange(i as int, i + p.len())[k as int] != p@[k as int]);
            return false;
        }
        k += 1;
    }
    assert(v@.subrange(i as int, i + p.len()) =~= p@);
    true
}

/// `v` begins with the characters of `p`.
pub fn starts_with_str(v: &Vec<char>, p: &str) -> (r: bool)
    ensures
        r == starts_with(v@, p@),
{
    let pv = chars_of(p);
    occurs_at_vec(v, &pv, 0)
}

/// `v` ends with the characters of `p`.
pub fn ends_with_str(v: &Vec<char>, p: &str) -> (r: bool)
    ensures
        r == ends_with(v@, p@),
{
    let pv = chars_of(p);
    if pv.len() > v.len() {
        return false;
    }
    occurs_at_vec(v, &pv, v.len() - pv.len())
}

/// The first position at or after `i` where `p` occurs in `v`.
pub fn find_from_vec(v: &Vec<char>, p: &Vec<char>, i: usize) -> (r: Option<usize>)
    ensures
        r matches Some(k) ==> find_from(v@, p@, i as int) == Some(k as int),
        r is None ==> find_from(v@, p@, i as int) is None,
{
    let mut k = i;
    while p.len() <= v.len() && k <= v.len() - p.len()
        invariant
            i <= k,
            find_from(v@, p@, i as int) == find_from(v@, p@, k as int),
        decreases v.len() - k,
    {
        if occurs_at_vec(v, p, k) {
            return Some(k);
        }
        if k == v.len() - p.len() {
            assert(find_from(v@, p@, k + 1) is None);
            return None;
        }
        k += 1;
    }
    None
}

/// The first position where `p` occurs in `v`.
pub fn find_str(v: &Vec<char>, p: &str) -> (r: Option<usize>)
    ensures
        r matches Some(k) ==> find(v@, p@) == Some(k as int),
        r is None ==> find(v@, p@) is None,
        r matches Some(k) ==> occurs_at(v@, p@, k as int) && k + p@.len() <= v@.len(),
{
    let pv = chars_of(p);
    proof {
        lemma_find_from(v@, p@, 0);
    }
    find_from_vec(v, &pv, 0)
}

/// `p` occurs somewhere in `v`.
pub fn contains_str(v: &Vec<char>, p: &str) -> (r: bool)
    ensures
        r == contains(v@, p@),
{
    find_str(v, p).is_some()
}


// ---------------------------------------------------------------------------
// Splitting into lines and words
// ---------------------------------------------------------------------------

/// The character sequences held by a sequence of character vectors.
pub open spec fn vviews(s: Seq<Vec<char>>) -> Seq<Seq<char>> {
    s.map_values(|x: Vec<char>| x@)
}

/// The pieces of `s` separated by the character `c` (always at least one piece).
pub open spec fn split_on(s: Seq<char>, c: char) -> Seq<Seq<char>>
    decreases s.len(),
{
    if s.len() == 0 {
        seq![Seq::<char>::empty()]
    } else {
        let r = split_on(s.drop_last(), c);
        if s.last() == c {
            r.push(Seq::<char>::empty())
        } else {
            r.update(r.len() - 1, r.last().push(s.last()))
        }
    }
}

/// A line piece without the carriage return that preceded its line feed.
pub open spec fn strip_cr(l: Seq<char>) -> Seq<char> {
    if l.len() > 0 && l.last() == '\r' {
        l.drop_last()
    } else {
        l
    }
}

/// The lines of `s` as `str::lines` yields them: split at `\n`, a `\r` just
/// before a `\n` removed, and no empty line after a final line feed.
pub open spec fn lines(s: Seq<char>) -> Seq<Seq<char>> {
    let parts = split_on(s, '\n');
    parts.drop_last().map_values(|l: Seq<char>| strip_cr(l)) + (if parts.last().len() > 0 {
        seq![parts.last()]
    } else {
        Seq::<Seq<char>>::empty()
    })
}

pub proof fn lemma_split_on_nonempty(s: Seq<char>, c: char)
    ensures
        split_on(s, c).len() >= 1,
    decreases s.len(),
{
    if s.len() > 0 {
        lemma_split_on_nonempty(s.drop_last(), c);
    }
}

/// The characters of a line piece without a final carriage return.
fn strip_cr_vec(l: Vec<char>) -> (r: Vec<char>)
    ensures
        r@ == strip_cr(l@),
{
    let mut l = l;
    if l.len() > 0 && l[l.len() - 1] == '\r' {
        l.pop();
    }
    l
}

/// The lines of a text (see `lines`).
pub fn lines_vec(v: &Vec<char>) -> (r: Vec<Vec<char>>)
    ensures
        vviews(r@) == lines(v@),
{
    let mut done: Vec<Vec<char>> = Vec::new();
    let mut cur: Vec<char> = Vec::new();
    let ghost mut raw: Seq<Seq<char>> = Seq::empty();
    let mut i: usize = 0;
    assert(v@.take(0) =~= Seq::<char>::empty());
    assert(vviews(done@) =~= raw.map_values(|l: Seq<char>| strip_cr(l)));
    while i < v.len()
        invariant
            i <= v.len(),
            split_on(v@.take(i as int), '\n') == raw.push(cur@),
            vviews(done@) == raw.map_values(|l: Seq<char>| strip_cr(l)),
        decreases v.len() - i,
    {
        let c = v[i];
        assert(v@.take(i + 1).drop_last() =~= v@.take(i as int));
        assert(v@.take(i + 1).last() == c);
        if c == '\n' {
            let ghost old_raw = raw;
            let stripped = strip_cr_vec(cur);
            proof {
                raw = raw.push(cur@);
            }
            let ghost d0 = done@;
            done.push(stripped);
            assert(vviews(done@) =~= vviews(d0).push(strip_cr(raw.last())));
            cur = Vec::new();
            assert(vviews(done@) =~= raw.map_values(|l: Seq<char>| strip_cr(l)));
            assert(raw.push(cur@) =~= old_raw.push(raw.last()).push(Seq::<char>::empty()));
        } else {
            cur.push(c);
            assert(split_on(v@.take(i + 1), '\n') =~= raw.push(cur@));
        }
        i += 1;
    }
    assert(v@.take(v.len() as int) =~= v@);
    let ghost parts = split_on(v@, '\n');
    assert(parts.drop_last() =~= raw);
    assert(parts.last() == cur@);
    let ghost d0 = done@;
    let ghost last = cur@;
    if cur.len() > 0 {
        done.push(cur);
        assert(vviews(done@) =~= vviews(d0).push(last));
    }
    assert(vviews(done@) =~= lines(v@));
    done
}

/// The pieces of `s` separated by whitespace characters.
pub open spec fn split_ws(s: Seq<char>) -> Seq<Seq<char>>
    decreases s.len(),
{
    if s.len() == 0 {
        seq![Seq::<char>::empty()]
    } else {
        let r = split_ws(s.drop_last());
        if is_ws(s.last()) {
            r.push(Seq::<char>::empty())
        } else {
            r.update(r.len() - 1, r.last().push(s.last()))
        }
    }
}

/// The whitespace-separated words of `s` (`str::split_whitespace`).
pub open spec fn words(s: Seq<char>) -> Seq<Seq<char>> {
    split_ws(s).filter(|w: Seq<char>| w.len() > 0)
}

/// The whitespace-separated words of a text.
pub fn words_vec(v: &Vec<char>) -> (r: Vec<Vec<char>>)
    ensures
        vviews(r@) == words(v@),
{
    let mut done: Vec<Vec<char>> = Vec::new();
    let mut cur: Vec<char> = Vec::new();
    let ghost mut raw: Seq<Seq<char>> = Seq::empty();
    let mut i: usize = 0;
    assert(v@.take(0) =~= Seq::<char>::empty());
    assert(vviews(done@) =~= raw.filter(|w: Seq<char>| w.len() > 0));
    while i < v.len()
        invariant
            i <= v.len(),
            split_ws(v@.take(i as int)) == raw.push(cur@),
            vviews(done@) == raw.filter(|w: Seq<char>| w.len() > 0),
        decreases v.len() - i,
    {
        let c = v[i];
        assert(v@.take(i + 1).drop_last() =~= v@.take(i as int));
        assert(v@.take(i + 1).last() == c);
        if is_ws_char(c) {
            let ghost old_raw = raw;
            proof {
                raw = raw.push(cur@);
                reveal_with_fuel(Seq::filter, 1);
                assert(raw.drop_last() =~= old_raw);
            }
            let ghost d0 = done@;
            let ghost last = cur@;
            if cur.len() > 0 {
                done.push(cur);
                assert(vviews(done@) =~= vviews(d0).push(last));
            }
            cur = Vec::new();
            assert(vviews(done@) =~= raw.filter(|w: Seq<char>| w.len() > 0));
            assert(raw.push(cur@) =~= old_raw.push(raw.last()).push(Seq::<char>::empty()));
        } else {
            cur.push(c);
            assert(split_ws(v@.take(i + 1)) =~= raw.push(cur@));
        }
        i += 1;
    }
    assert(v@.take(v.len() as int) =~= v@);
    proof {
        reveal_with_fuel(Seq::filter, 1);
        assert(raw.push(cur@).drop_last() =~= raw);
    }
    let ghost d0 = done@;
    let ghost last = cur@;
    if cur.len() > 0 {
        done.push(cur);
        assert(vviews(done@) =~= vviews(d0).push(last));
    }
    assert(vviews(done@) =~= words(v@));
    done
}


// ---------------------------------------------------------------------------
// Number formatting
// ---------------------------------------------------------------------------

/// The digit character for `d` (`0`-`9`, then upper-case `A`-`F`).
pub open spec fn digit_char(d: nat) -> char {
    if d < 10 {
        (48 + d) as char
    } else {
        (55 + d) as char
    }
}

/// Decimal representation of `n` (`format!("{}", n)`).
pub open spec fn dec(n: nat) -> Seq<char>
    decreases n,
{
    if n < 10 {
        seq![digit_char(n)]
    } else {
        dec(n / 10).push(digit_char(n % 10))
    }
}

/// The decimal representation of `n` is one or more digits `0`-`9`, and
/// reading it back gives `n`.
pub proof fn lemma_dec_value(n: nat)
    ensures
        dec(n).len() >= 1,
        forall|i: int| 0 <= i < dec(n).len() ==> '0' <= #[trigger] dec(n)[i] <= '9',
        digits_value(dec(n), 10) == Some(n),
    decreases n,
{
    if n >= 10 {
        lemma_dec_value(n / 10);
        let d = dec(n / 10);
        assert(dec(n).drop_last() =~= d);
        let r = n % 10;
        assert(digit_char(r) as int == 48 + r);
        assert(digit_value(digit_char(r), 10) == Some(r));
        assert((n / 10) * 10 + r == n);
        assert(dec(n).last() == digit_char(r));
        assert(digits_value(dec(n), 10) == Some((n / 10) * 10 + r));
        assert forall|i: int| 0 <= i < dec(n).len() implies '0' <= #[trigger] dec(n)[i] <= '9' by {
            if i < d.len() {
                assert(dec(n)[i] == d[i]);
            }
        }
    } else {
        assert(dec(n).drop_last() =~= Seq::<char>::empty());
        assert(digit_char(n) as int == 48 + n);
        assert(digit_value(digit_char(n), 10) == Some(n));
        assert(digits_value(Seq::<char>::empty(), 10) == Some(0nat));
        assert(dec(n).last() == digit_char(n));
        assert(digits_value(dec(n), 10) == Some(0 * 10 + n));
    }
}

/// Different numbers have different decimal representations.
pub proof fn lemma_dec_injective(a: nat, b: nat)
    requires
        a != b,
    ensures
        dec(a) != dec(b),
{
    lemma_dec_value(a);
    lemma_dec_value(b);
}

/// Each character of a hexadecimal representation is a digit `0`-`9` or
/// a letter `A`-`F`.
pub proof fn lemma_hex_chars(n: nat, w: nat)
    ensures
        forall|i: int|
            0 <= i < hex(n, w).len() ==> ('0' <= #[trigger] hex(n, w)[i] <= '9' || 'A' <= hex(
                n,
                w,
            )[i] <= 'F'),
    decreases w,
{
    if w > 0 {
        lemma_hex_chars(n / 16, (w - 1) as nat);
        let h = hex(n / 16, (w - 1) as nat);
        assert forall|i: int| 0 <= i < hex(n, w).len() implies ('0' <= #[trigger] hex(n, w)[i]
            <= '9' || 'A' <= hex(n, w)[i] <= 'F') by {
            if i < h.len() {
                assert(hex(n, w)[i] == h[i]);
            }
        }
    }
}

/// Decimal representation of a signed integer.
pub open spec fn dec_int(n: int) -> Seq<char> {
    if n < 0 {
        seq!['-'] + dec((-n) as nat)
    } else {
        dec(n as nat)
    }
}

/// The last `w` upper-case hexadecimal digits of `n`; this is
/// `format!("{:0w$X}", n)` whenever `n < 16^w`.
pub open spec fn hex(n: nat, w: nat) -> Seq<char>
    decreases w,
{
    if w == 0 {
        Seq::<char>::empty()
    } else {
        hex(n / 16, (w - 1) as nat).push(digit_char(n % 16))
    }
}

/// `0x` followed by four hexadecimal digits (`format!("0x{:04X}", a)`).
pub open spec fn hex_addr(a: u16) -> Seq<char> {
    seq!['0', 'x'] + hex(a as nat, 4)
}

fn digit_of(d: u64) -> (c: char)
    requires
        d < 16,
    ensures
        c == digit_char(d as nat),
{
    if d < 10 {
        ((48 + d) as u8) as char
    } else {
        ((55 + d) as u8) as char
    }
}

/// Appends the decimal representation of `n`.
pub fn push_dec(out: &mut String, n: u64)
    ensures
        final(out)@ == old(out)@ + dec(n as nat),
    decreases n,
{
    if n >= 10 {
        push_dec(out, n / 10);
    }
    push_char(out, digit_of(n % 10));
    assert(final(out)@ =~= old(out)@ + dec(n as nat));
}

/// Appends the decimal representation of a signed integer.
pub fn push_dec_i64(out: &mut String, n: i64)
    ensures
        final(out)@ == old(out)@ + dec_int(n as int),
{
    if n < 0 {
        push_char(out, '-');
        let m: u64 = if n == i64::MIN {
            0x8000_0000_0000_0000u64
        } else {
            (-n) as u64
        };
        push_dec(out, m);
        assert(final(out)@ =~= old(out)@ + dec_int(n as int));
    } else {
        push_dec(out, n as u64);
    }
}

/// Appends `w` hexadecimal digits of `n` (see `hex`).
pub fn push_hex(out: &mut String, n: u64, w: usize)
    ensures
        final(out)@ == old(out)@ + hex(n as nat, w as nat),
    decreases w,
{
    if w > 0 {
        push_hex(out, n / 16, w - 1);
        push_char(out, digit_of(n % 16));
    }
    assert(final(out)@ =~= old(out)@ + hex(n as nat, w as nat));
}

/// `0x` and four hexadecimal digits of an address.
pub fn hex_addr_string(a: u16) -> (s: String)
    ensures
        s@ == hex_addr(a),
{
    let mut s = String::new();
    push_char(&mut s, '0');
    push_char(&mut s, 'x');
    push_hex(&mut s, a as u64, 4);
    assert(s@ =~= hex_addr(a));
    s
}

/// Decimal representation of a number, as a string.
pub fn dec_string(n: u64) -> (s: String)
    ensures
        s@ == dec(n as nat),
{
    let mut s = String::new();
    push_dec(&mut s, n);
    assert(s@ =~= dec(n as nat));
    s
}

// ---------------------------------------------------------------------------
// Number parsing
// ---------------------------------------------------------------------------

/// The value of digit `c` in the given radix, if it is one.
pub open spec fn digit_value(c: char, radix: nat) -> Option<nat> {
    let v: int = if '0' <= c && c <= '9' {
        c as int - 48
    } else if 'a' <= c && c <= 'z' {
        c as int - 87
    } else if 'A' <= c && c <= 'Z' {
        c as int - 55
    } else {
        99
    };
    if v < radix {
        Some(v as nat)
    } else {
        None
    }
}

/// The value of a string of digits, if every character is a digit.
pub open spec fn digits_value(s: Seq<char>, radix: nat) -> Option<nat>
    decreases s.len(),
{
    if s.len() == 0 {
        Some(0)
    } else {
        match (digits_value(s.drop_last(), radix), digit_value(s.last(), radix)) {
            (Some(a), Some(d)) => Some(a * radix + d),
            _ => None,
        }
    }
}

/// What `from_str_radix` gives for an unsigned type whose maximum is `max`:
/// an optional `+`, then at least one digit, and a value no larger than `max`.
pub open spec fn parse_uint(s: Seq<char>, radix: nat, max: nat) -> Option<nat> {
    let body = if s.len() > 0 && s[0] == '+' {
        s.drop_first()
    } else {
        s
    };
    if body.len() == 0 {
        None
    } else {
        match digits_value(body, radix) {
            Some(v) => if v <= max {
                Some(v)
            } else {
                None
            },
            None => None,
        }
    }
}

fn digit_value_exec(c: char, radix: u64) -> (r: Option<u64>)
    requires
        2 <= radix <= 36,
    ensures
        r matches Some(d) ==> digit_value(c, radix as nat) == Some(d as nat),
        r is None ==> digit_value(c, radix as nat) is None,
{
    let v: u64 = if '0' <= c && c <= '9' {
        (c as u32 - 48) as u64
    } else if 'a' <= c && c <= 'z' {
        (c as u32 - 87) as u64
    } else if 'A' <= c && c <= 'Z' {
        (c as u32 - 55) as u64
    } else {
        99
    };
    if v < radix {
        Some(v)
    } else {
        None
    }
}

/// Parses an unsigned number in the given radix, bounded by `max` (see `parse_uint`).
pub fn parse_uint_vec(v: &Vec<char>, radix: u64, max: u64) -> (r: Option<u64>)
    requires
        2 <= radix <= 36,
        max < 0x1_0000_0000,
    ensures
        r matches Some(n) ==> parse_uint(v@, radix as nat, max as nat) == Some(n as nat),
        r is None ==> parse_uint(v@, radix as nat, max as nat) is None,
{
    let start: usize = if v.len() > 0 && v[0] == '+' {
        1
    } else {
        0
    };
    let ghost body = if v@.len() > 0 && v@[0] == '+' {
        v@.drop_first()
    } else {
        v@
    };
    assert(body =~= v@.subrange(start as int, v.len() as int));
    if start == v.len() {
        return None;
    }
    let mut acc: u64 = 0;
    let mut over = false;
    let mut i = start;
    assert(v@.subrange(start as int, start as int) =~= Seq::<char>::empty());
    assert(body.len() > 0);
    while i < v.len()
        invariant
            start <= i <= v.len(),
            start < v.len(),
            body == v@.subrange(start as int, v.len() as int),
            body.len() > 0,
            parse_uint(v@, radix as nat, max as nat) == (match digits_value(body, radix as nat) {
                Some(val) => if val <= max { Some(val) } else { None },
                None => None,
            }),
            max < 0x1_0000_0000,
            2 <= radix <= 36,
            acc <= max,
            digits_value(v@.subrange(start as int, i as int), radix as nat) matches Some(val)
                && (if over {
                val > max
            } else {
                val == acc
            }),
        decreases v.len() - i,
    {
        let ghost prev = v@.subrange(start as int, i as int);
        assert(v@.subrange(start as int, i + 1).drop_last() =~= prev);
        match digit_value_exec(v[i], radix) {
            None => {
                assert(v@.subrange(start as int, i + 1).last() == v@[i as int]);
                assert(digits_value(v@.subrange(start as int, i + 1), radix as nat) is None);
                proof {
                    lemma_digits_none_extends(v@, start as int, (i + 1) as int, v.len() as int, radix as nat);
                }
                assert(v@.subrange(start as int, v.len() as int) =~= body);
                return None;
            },
            Some(d) => {
                let ghost val = digits_value(prev, radix as nat)->0;
                if !over {
                    assert(acc * radix + d < 0x1_0000_0000 * 37) by (nonlinear_arith)
                        requires
                            acc < 0x1_0000_0000,
                            radix <= 36,
                            d < 36,
                    ;
                    let next = acc * radix + d;
                    if next > max {
                        over = true;
                    } else {
                        acc = next;
                    }
                } else {
                    assert(val * radix + d > max) by (nonlinear_arith)
                        requires
                            val > max,
                            radix >= 2,
                    ;
                }
            },
        }
        i += 1;
    }
    assert(v@.subrange(start as int, v.len() as int) =~= body);
    if over {
        None
    } else {
        Some(acc)
    }
}

proof fn lemma_digits_none_extends(s: Seq<char>, a: int, b: int, c: int, radix: nat)
    requires
        0 <= a <= b <= c <= s.len(),
        digits_value(s.subrange(a, b), radix) is None,
    ensures
        digits_value(s.subrange(a, c), radix) is None,
    decreases c - b,
{
    if c > b {
        lemma_digits_none_extends(s, a, b, c - 1, radix);
        assert(s.subrange(a, c).drop_last() =~= s.subrange(a, c - 1));
    }
}

// ---------------------------------------------------------------------------
// Letter case
// ---------------------------------------------------------------------------

/// ASCII upper-case of a character (`char::to_ascii_uppercase`).
pub open spec fn ascii_upper(c: char) -> char {
    if 'a' <= c && c <= 'z' {
        ((c as u32) - 32) as char
    } else {
        c
    }
}

/// ASCII lower-case of a character (`char::to_ascii_lowercase`).
pub open spec fn ascii_lower(c: char) -> char {
    if 'A' <= c && c <= 'Z' {
        ((c as u32) + 32) as char
    } else {
        c
    }
}

/// Whether every character of the text is ASCII.
pub open spec fn all_ascii(s: Seq<char>) -> bool {
    forall|i: int| 0 <= i < s.len() ==> (#[trigger] s[i] as u32) < 128
}

/// ASCII upper-case of a text (`str::to_ascii_uppercase`).
pub open spec fn ascii_upper_seq(s: Seq<char>) -> Seq<char> {
    s.map_values(|c: char| ascii_upper(c))
}

/// ASCII lower-case of a text (`str::to_ascii_lowercase`).
pub open spec fn ascii_lower_seq(s: Seq<char>) -> Seq<char> {
    s.map_values(|c: char| ascii_lower(c))
}

pub fn ascii_upper_char(c: char) -> (r: char)
    ensures
        r == ascii_upper(c),
{
    if 'a' <= c && c <= 'z' {
        ((c as u32 - 32) as u8) as char
    } else {
        c
    }
}

pub fn ascii_lower_char(c: char) -> (r: char)
    ensures
        r == ascii_lower(c),
{
    if 'A' <= c && c <= 'Z' {
        ((c as u32 + 32) as u8) as char
    } else {
        c
    }
}

/// ASCII upper-case of a character vector.
pub fn ascii_upper_vec(v: &Vec<char>) -> (r: Vec<char>)
    ensures
        r@ == ascii_upper_seq(v@),
{
    let mut r: Vec<char> = Vec::new();
    let mut i: usize = 0;
    while i < v.len()
        invariant
            i <= v.len(),
            r@ == ascii_upper_seq(v@.take(i as int)),
        decreases v.len() - i,
    {
        r.push(ascii_upper_char(v[i]));
        i += 1;
        assert(r@ =~= ascii_upper_seq(v@.take(i as int)));
    }
    assert(v@.take(v.len() as int) =~= v@);
    r
}

/// ASCII lower-case of a character vector.
pub fn ascii_lower_vec(v: &Vec<char>) -> (r: Vec<char>)
    ensures
        r@ == ascii_lower_seq(v@),
{
    let mut r: Vec<char> = Vec::new();
    let mut i: usize = 0;
    while i < v.len()
        invariant
            i <= v.len(),
            r@ == ascii_lower_seq(v@.take(i as int)),
        decreases v.len() - i,
    {
        r.push(ascii_lower_char(v[i]));
        i += 1;
        assert(r@ =~= ascii_lower_seq(v@.take(i as int)));
    }
    assert(v@.take(v.len() as int) =~= v@);
    r
}

/// What `str::to_uppercase` gives (full Unicode case mapping).
pub uninterp spec fn unicode_upper(s: Seq<char>) -> Seq<char>;

/// What `str::to_lowercase` gives (full Unicode case mapping).
pub uninterp spec fn unicode_lower(s: Seq<char>) -> Seq<char>;

/// `str::to_uppercase`: the result is the Unicode upper-case mapping of the
/// argument, which depends on the argument alone; the mapping itself is not
/// written out here beyond ASCII, where Unicode upper-cases exactly the
/// letters `a` to `z`, as `to_ascii_uppercase` does.
#[verifier::external_body]
pub fn to_upper(s: &str) -> (r: String)
    ensures
        r@ == unicode_upper(s@),
        all_ascii(s@) ==> r@ == ascii_upper_seq(s@),
{
    s.to_uppercase()
}

/// `str::to_lowercase`: the result is the Unicode lower-case mapping of the
/// argument, which depends on the argument alone; the mapping itself is not
/// written out here beyond ASCII, where Unicode lower-cases exactly the
/// letters `A` to `Z`, as `to_ascii_lowercase` does.
#[verifier::external_body]
pub fn to_lower(s: &str) -> (r: String)
    ensures
        r@ == unicode_lower(s@),
        all_ascii(s@) ==> r@ == ascii_lower_seq(s@),
{
    s.to_lowercase()
}

/// `s` with every occurrence of character `a` replaced by `b`.
pub open spec fn replace_char(s: Seq<char>, a: char, b: char) -> Seq<char> {
    s.map_values(|c: char| if c == a { b } else { c })
}

/// Replaces every occurrence of one character by another.
pub fn replace_char_vec(v: &Vec<char>, a: char, b: char) -> (r: Vec<char>)
    ensures
        r@ == replace_char(v@, a, b),
{
    let mut r: Vec<char> = Vec::new();
    let mut i: usize = 0;
    while i < v.len()
        invariant
            i <= v.len(),
            r@ == replace_char(v@.take(i as int), a, b),
        decreases v.len() - i,
    {
        let c = v[i];
        r.push(if c == a { b } else { c });
        i += 1;
        assert(r@ =~= replace_char(v@.take(i as int), a, b));
    }
    assert(v@.take(v.len() as int) =~= v@);
    r
}

/// `s` with every non-overlapping occurrence of `p`, scanned from the left,
/// replaced by `r` (`str::replace` for a non-empty pattern).
pub open spec fn replace_all(s: Seq<char>, p: Seq<char>, r: Seq<char>) -> Seq<char>
    decreases s.len(),
{
    if s.len() == 0 {
        s
    } else if p.len() > 0 && starts_with(s, p) {
        r + replace_all(s.skip(p.len() as int), p, r)
    } else {
        seq![s[0]] + replace_all(s.drop_first(), p, r)
    }
}

/// Replaces every occurrence of the non-empty pattern `p` by `r`.
pub fn replace_all_vec(v: &Vec<char>, p: &str, r: &str) -> (out: Vec<char>)
    requires
        p@.len() > 0,
    ensures
        out@ == replace_all(v@, p@, r@),
{
    let pv = chars_of(p);
    let rv = chars_of(r);
    let mut out: Vec<char> = Vec::new();
    let mut i: usize = 0;
    assert(v@.skip(0) =~= v@);
    while i < v.len()
        invariant
            i <= v.len(),
            pv@ == p@,
            rv@ == r@,
            pv@.len() > 0,
            replace_all(v@, p@, r@) == out@ + replace_all(v@.skip(i as int), p@, r@),
        decreases v.len() - i,
    {
        let ghost rest = v@.skip(i as int);
        if occurs_at_vec(v, &pv, i) {
            assert(rest.subrange(0, pv@.len() as int) =~= v@.subrange(i as int, i + pv@.len()));
            assert(rest.skip(pv@.len() as int) =~= v@.skip(i + pv@.len()));
            extend_vec(&mut out, &rv);
            i += pv.len();
            assert(replace_all(v@, p@, r@) =~= out@ + replace_all(v@.skip(i as int), p@, r@));
        } else {
            proof {
                if pv@.len() <= rest.len() {
                    assert(rest.subrange(0, pv@.len() as int) =~= v@.subrange(i as int, i + pv@.len()));
                }
            }
            assert(rest.drop_first() =~= v@.skip(i + 1));
            out.push(v[i]);
            i += 1;
            assert(replace_all(v@, p@, r@) =~= out@ + replace_all(v@.skip(i as int), p@, r@));
        }
    }
    assert(v@.skip(i as int) =~= Seq::<char>::empty());
    assert(out@ + Seq::<char>::empty() =~= out@);
    out
}

/// Whether the characters of `v` are those of `t`.
pub fn vec_is(v: &Vec<char>, t: &str) -> (r: bool)
    ensures
        r == (v@ == t@),
{
    let tv = chars_of(t);
    vec_eq(v, &tv)
}

/// The text before the first occurrence of `c` (all of it when `c` does not
/// occur): the first piece of `split(c)`.
pub open spec fn before_char(s: Seq<char>, c: char) -> Seq<char> {
    split_on(s, c)[0]
}

/// The pieces of a text separated by `c` (`str::split` with a character).
pub fn split_char_vec(v: &Vec<char>, c: char) -> (r: Vec<Vec<char>>)
    ensures
        vviews(r@) == split_on(v@, c),
{
    let mut done: Vec<Vec<char>> = Vec::new();
    let mut cur: Vec<char> = Vec::new();
    let mut i: usize = 0;
    assert(v@.take(0) =~= Seq::<char>::empty());
    assert(vviews(done@).push(cur@) =~= seq![Seq::<char>::empty()]);
    while i < v.len()
        invariant
            i <= v.len(),
            split_on(v@.take(i as int), c) == vviews(done@).push(cur@),
        decreases v.len() - i,
    {
        let x = v[i];
        assert(v@.take(i + 1).drop_last() =~= v@.take(i as int));
        assert(v@.take(i + 1).last() == x);
        if x == c {
            let ghost d0 = vviews(done@);
            let ghost c0 = cur@;
            done.push(cur);
            cur = Vec::new();
            assert(vviews(done@) =~= d0.push(c0));
            assert(split_on(v@.take(i + 1), c) =~= vviews(done@).push(cur@));
        } else {
            cur.push(x);
            assert(split_on(v@.take(i + 1), c) =~= vviews(done@).push(cur@));
        }
        i += 1;
    }
    assert(v@.take(v.len() as int) =~= v@);
    let ghost d0 = vviews(done@);
    let ghost c0 = cur@;
    done.push(cur);
    assert(vviews(done@) =~= d0.push(c0));
    done
}

/// `s` with every leading copy of the non-empty `p` removed
/// (`str::trim_start_matches`).
pub open spec fn strip_all(s: Seq<char>, p: Seq<char>) -> Seq<char>
    decreases s.len(),
{
    if p.len() > 0 && starts_with(s, p) {
        strip_all(s.skip(p.len() as int), p)
    } else {
        s
    }
}

/// Removes every leading copy of `p` (which may be empty: then nothing is removed).
pub fn strip_all_vec(v: &Vec<char>, p: &str) -> (r: Vec<char>)
    ensures
        r@ == strip_all(v@, p@),
{
    let pv = chars_of(p);
    let mut i: usize = 0;
    assert(v@.skip(0) =~= v@);
    while pv.len() > 0 && occurs_at_vec(v, &pv, i)
        invariant
            i <= v.len(),
            pv@ == p@,
            strip_all(v@, p@) == strip_all(v@.skip(i as int), p@),
        decreases v.len() - i,
    {
        assert(v@.skip(i as int).subrange(0, pv@.len() as int) =~= v@.subrange(i as int, i + pv@.len()));
        assert(v@.skip(i as int).skip(pv@.len() as int) =~= v@.skip(i + pv@.len()));
        i += pv.len();
    }
    proof {
        if pv@.len() > 0 && pv@.len() <= v@.skip(i as int).len() {
            assert(v@.skip(i as int).subrange(0, pv@.len() as int) =~= v@.subrange(i as int, i + pv@.len()));
        }
    }
    slice_of(v, i, v.len())
}

// ---------------------------------------------------------------------------
// More searching, byte lengths and machine-sized numbers
// ---------------------------------------------------------------------------

/// The number of bytes of a text in UTF-8, as `String::len` gives it.
pub open spec fn utf8_len(s: Seq<char>) -> usize {
    vstd::utf8::encode_utf8(s).len() as usize
}

/// The number of UTF-8 bytes of the characters of a vector.
pub fn utf8_len_vec(v: &Vec<char>) -> (r: usize)
    ensures
        r == utf8_len(v@),
{
    let s = string_of(v);
    s.as_str().len()
}

/// The last position of `c` in `s` (`str::rfind` with a character).
pub open spec fn rfind_char(s: Seq<char>, c: char) -> Option<int>
    decreases s.len(),
{
    if s.len() == 0 {
        None
    } else if s.last() == c {
        Some(s.len() - 1)
    } else {
        rfind_char(s.drop_last(), c)
    }
}

/// The last position of `c` in `v`.
pub fn rfind_char_vec(v: &Vec<char>, c: char) -> (r: Option<usize>)
    ensures
        r matches Some(k) ==> rfind_char(v@, c) == Some(k as int) && k < v.len(),
        r is None ==> rfind_char(v@, c) is None,
{
    let mut i = v.len();
    assert(v@.take(i as int) =~= v@);
    while i > 0
        invariant
            i <= v.len(),
            rfind_char(v@, c) == rfind_char(v@.take(i as int), c),
        decreases i,
    {
        assert(v@.take(i as int).drop_last() =~= v@.take(i - 1));
        if v[i - 1] == c {
            return Some(i - 1);
        }
        i -= 1;
    }
    None
}

/// `s` with every trailing `c` removed (`str::trim_end_matches` with a character).
pub open spec fn strip_end_all(s: Seq<char>, c: char) -> Seq<char>
    decreases s.len(),
{
    if s.len() > 0 && s.last() == c {
        strip_end_all(s.drop_last(), c)
    } else {
        s
    }
}

/// Removes every trailing `c`.
pub fn strip_end_all_vec(v: &Vec<char>, c: char) -> (r: Vec<char>)
    ensures
        r@ == strip_end_all(v@, c),
{
    let mut i = v.len();
    assert(v@.take(i as int) =~= v@);
    while i > 0 && v[i - 1] == c
        invariant
            i <= v.len(),
            strip_end_all(v@, c) == strip_end_all(v@.take(i as int), c),
        decreases i,
    {
        assert(v@.take(i as int).drop_last() =~= v@.take(i - 1));
        i -= 1;
    }
    slice_of(v, 0, i)
}

/// Parses a decimal number that fits in a `usize` (`str::parse::<usize>`).
pub fn parse_usize_vec(v: &Vec<char>) -> (r: Option<usize>)
    ensures
        r matches Some(n) ==> parse_uint(v@, 10, usize::MAX as nat) == Some(n as nat),
        r is None ==> parse_uint(v@, 10, usize::MAX as nat) is None,
{
    let start: usize = if v.len() > 0 && v[0] == '+' {
        1
    } else {
        0
    };
    let ghost body = if v@.len() > 0 && v@[0] == '+' {
        v@.drop_first()
    } else {
        v@
    };
    assert(body =~= v@.subrange(start as int, v.len() as int));
    if start == v.len() {
        return None;
    }
    let mut acc: usize = 0;
    let mut over = false;
    let mut i = start;
    assert(v@.subrange(start as int, start as int) =~= Seq::<char>::empty());
    while i < v.len()
        invariant
            start <= i <= v.len(),
            start < v.len(),
            body == v@.subrange(start as int, v.len() as int),
            body.len() > 0,
            parse_uint(v@, 10, usize::MAX as nat) == (match digits_value(body, 10) {
                Some(val) => if val <= usize::MAX { Some(val) } else { None },
                None => None,
            }),
            digits_value(v@.subrange(start as int, i as int), 10) matches Some(val)
                && (if over {
                val > usize::MAX
            } else {
                val == acc
            }),
        decreases v.len() - i,
    {
        let ghost prev = v@.subrange(start as int, i as int);
        assert(v@.subrange(start as int, i + 1).drop_last() =~= prev);
        match digit_value_exec(v[i], 10) {
            None => {
                assert(v@.subrange(start as int, i + 1).last() == v@[i as int]);
                proof {
                    lemma_digits_none_extends(v@, start as int, (i + 1) as int, v.len() as int, 10);
                }
                assert(v@.subrange(start as int, v.len() as int) =~= body);
                return None;
            },
            Some(d) => {
                let ghost val = digits_value(prev, 10)->0;
                if !over {
                    match acc.checked_mul(10) {
                        Some(m) => match m.checked_add(d as usize) {
                            Some(n) => {
                                acc = n;
                            },
                            None => {
                                over = true;
                            },
                        },
                        None => {
                            over = true;
                        },
                    }
                } else {
                    assert(val * 10 + d > usize::MAX) by (nonlinear_arith)
                        requires
                            val > usize::MAX,
                    ;
                }
            },
        }
        i += 1;
    }
    assert(v@.subrange(start as int, v.len() as int) =~= body);
    if over {
        None
    } else {
        Some(acc)
    }
}

/// Appends `t` to the output, which holds `base` followed by `acc`; the
/// result is what follows `base` afterwards.
pub fn push_more(out: &mut String, t: &str, base: Ghost<Seq<char>>, acc: Ghost<Seq<char>>) -> (r: Ghost<Seq<char>>)
    requires
        old(out)@ == base@ + acc@,
    ensures
        r@ == acc@ + t@,
        final(out)@ == base@ + r@,
{
    push_str(out, t);
    proof {
        lemma_concat_associative(base@, acc@, t@);
    }
    Ghost(acc@ + t@)
}

/// Text appended after `base + acc` regrouped as `base + (acc + t)`.
pub proof fn grow(base: Seq<char>, acc: Seq<char>, t: Seq<char>) -> (r: Seq<char>)
    ensures
        r == acc + t,
        (base + acc) + t == base + r,
{
    lemma_concat_associative(base, acc, t);
    acc + t
}


} // verus!
