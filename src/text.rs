//! Decimal numbers and small sequence utilities over bytes and characters.

use vstd::prelude::*;

verus! {

/// The ASCII digit for a value below ten.
pub open spec fn digit_byte(d: nat) -> u8 {
    (d + 48) as u8
}

/// The shortest decimal notation of `n`, as ASCII bytes.
pub open spec fn decimal_bytes(n: nat) -> Seq<u8>
    decreases n,
{
    if n < 10 {
        seq![digit_byte(n)]
    } else {
        decimal_bytes(n / 10).push(digit_byte(n % 10))
    }
}

/// The ASCII digit character for a value below ten.
pub open spec fn digit_char(d: nat) -> char {
    ((d + 48) as u8) as char
}

/// The shortest decimal notation of `n`, as characters.
pub open spec fn decimal_chars(n: nat) -> Seq<char>
    decreases n,
{
    if n < 10 {
        seq![digit_char(n)]
    } else {
        decimal_chars(n / 10).push(digit_char(n % 10))
    }
}

/// Appends the decimal notation of `n` to `out`, as characters.
pub fn push_decimal_chars(out: &mut Vec<char>, n: u64)
    ensures
        final(out)@ == old(out)@ + decimal_chars(n as nat),
    decreases n,
{
    if n >= 10 {
        push_decimal_chars(out, n / 10);
    }
    out.push(((n % 10) as u8 + 48) as char);
    proof {
        assert(old(out)@ + decimal_chars(n as nat) =~= out@);
    }
}

/// Appends the decimal notation of `n` to `out`.
pub fn push_decimal(out: &mut Vec<u8>, n: u64)
    ensures
        final(out)@ == old(out)@ + decimal_bytes(n as nat),
    decreases n,
{
    if n >= 10 {
        push_decimal(out, n / 10);
    }
    out.push((n % 10) as u8 + 48);
    proof {
        assert(old(out)@ + decimal_bytes(n as nat) =~= out@);
    }
}

/// An ASCII decimal digit.
pub open spec fn is_digit_byte(b: u8) -> bool {
    48 <= b && b <= 57
}

/// Every byte of `s` is an ASCII decimal digit.
pub open spec fn all_digits(s: Seq<u8>) -> bool {
    forall|i: int| 0 <= i < s.len() ==> is_digit_byte(#[trigger] s[i])
}

/// The number that the digits `s` denote, most significant first.
pub open spec fn digits_value(s: Seq<u8>) -> nat
    decreases s.len(),
{
    if s.len() == 0 {
        0
    } else {
        digits_value(s.drop_last()) * 10 + (s.last() - 48) as nat
    }
}

/// A decimal `u64` as text: an optional `+`, then one or more digits whose
/// value fits in 64 bits.
pub open spec fn parse_u64_spec(s: Seq<u8>) -> Option<u64> {
    let d = if s.len() > 0 && s[0] == 43u8 {
        s.skip(1)
    } else {
        s
    };
    if d.len() > 0 && all_digits(d) && digits_value(d) <= u64::MAX {
        Some(digits_value(d) as u64)
    } else {
        None
    }
}

/// The position of the first `x` in `s`, or `s.len()` where there is none.
pub open spec fn index_of<T>(s: Seq<T>, x: T) -> nat
    decreases s.len(),
{
    if s.len() == 0 {
        0
    } else if s[0] == x {
        0
    } else {
        1 + index_of(s.skip(1), x)
    }
}

pub proof fn lemma_index_of_found<T>(s: Seq<T>, x: T, i: int)
    requires
        0 <= i < s.len(),
        s[i] == x,
        forall|j: int| 0 <= j < i ==> s[j] != x,
    ensures
        index_of(s, x) == i,
    decreases i,
{
    if i > 0 {
        lemma_index_of_found(s.skip(1), x, i - 1);
    }
}

pub proof fn lemma_index_of_absent<T>(s: Seq<T>, x: T)
    requires
        forall|j: int| 0 <= j < s.len() ==> s[j] != x,
    ensures
        index_of(s, x) == s.len(),
    decreases s.len(),
{
    if s.len() > 0 {
        lemma_index_of_absent(s.skip(1), x);
    }
}

pub proof fn lemma_index_of_bound<T>(s: Seq<T>, x: T)
    ensures
        index_of(s, x) <= s.len(),
        index_of(s, x) < s.len() ==> s[index_of(s, x) as int] == x,
        forall|j: int| 0 <= j < index_of(s, x) ==> s[j] != x,
    decreases s.len(),
{
    if s.len() > 0 && s[0] != x {
        lemma_index_of_bound(s.skip(1), x);
        assert forall|j: int| 0 <= j < index_of(s, x) implies s[j] != x by {
            if j > 0 {
                assert(s[j] == s.skip(1)[j - 1]);
            }
        }
    }
}

/// The first `b` in `s[lo..hi]`, as an offset into `s`; `hi` where there is
/// none.
pub fn find_byte(s: &[u8], lo: usize, hi: usize, b: u8) -> (r: usize)
    requires
        lo <= hi <= s@.len(),
    ensures
        r == lo + index_of(s@.subrange(lo as int, hi as int), b),
        lo <= r <= hi,
        r < hi ==> s@[r as int] == b,
        forall|j: int| lo <= j < r ==> s@[j] != b,
{
    proof {
        lemma_index_of_bound(s@.subrange(lo as int, hi as int), b);
    }
    let mut i = lo;
    while i < hi
        invariant
            lo <= i <= hi <= s@.len(),
            forall|j: int| lo <= j < i ==> s@[j] != b,
        decreases hi - i,
    {
        if s[i] == b {
            proof {
                lemma_index_of_found(s@.subrange(lo as int, hi as int), b, i - lo);
            }
            return i;
        }
        i = i + 1;
    }
    proof {
        lemma_index_of_absent(s@.subrange(lo as int, hi as int), b);
    }
    hi
}

proof fn lemma_digits_value_prefix(s: Seq<u8>, k: int)
    requires
        all_digits(s),
        0 <= k <= s.len(),
    ensures
        digits_value(s.take(k)) <= digits_value(s),
    decreases s.len(),
{
    if k < s.len() {
        let p = s.drop_last();
        assert(p.take(k) =~= s.take(k));
        assert(all_digits(p)) by {
            assert forall|i: int| 0 <= i < p.len() implies is_digit_byte(#[trigger] p[i]) by {
                assert(p[i] == s[i]);
            }
        }
        lemma_digits_value_prefix(p, k);
    } else {
        assert(s.take(k) =~= s);
    }
}

/// Reads `s[lo..hi]` as a decimal `u64`.
pub fn parse_u64(s: &[u8], lo: usize, hi: usize) -> (r: Option<u64>)
    requires
        lo <= hi <= s@.len(),
    ensures
        r == parse_u64_spec(s@.subrange(lo as int, hi as int)),
{
    let ghost t = s@.subrange(lo as int, hi as int);
    let mut i = lo;
    if i < hi && s[i] == 43u8 {
        i = i + 1;
    }
    let ghost d = s@.subrange(i as int, hi as int);
    assert(d =~= (if t.len() > 0 && t[0] == 43u8 {
        t.skip(1)
    } else {
        t
    }));
    assert(parse_u64_spec(t) == (if d.len() > 0 && all_digits(d) && digits_value(d)
        <= u64::MAX {
        Some(digits_value(d) as u64)
    } else {
        None
    }));
    if i == hi {
        return None;
    }
    let first = i;
    let mut acc: u64 = 0;
    while i < hi
        invariant
            lo <= first <= i <= hi <= s@.len(),
            d == s@.subrange(first as int, hi as int),
            t == s@.subrange(lo as int, hi as int),
            parse_u64_spec(t) == (if d.len() > 0 && all_digits(d) && digits_value(d)
                <= u64::MAX {
                Some(digits_value(d) as u64)
            } else {
                None
            }),
            first < hi,
            all_digits(s@.subrange(first as int, i as int)),
            acc == digits_value(s@.subrange(first as int, i as int)),
        decreases hi - i,
    {
        let c = s[i];
        assert(s@.subrange(first as int, i + 1) =~= d.take(i + 1 - first));
        if c < 48 || c > 57 {
            assert(!is_digit_byte(d[i - first]));
            return None;
        }
        let v = (c - 48) as u64;
        assert(s@.subrange(first as int, i + 1).drop_last() =~= s@.subrange(first as int, i as int));
        if acc > (u64::MAX - v) / 10 {
            proof {
                assert(acc * 10 + v > u64::MAX) by (nonlinear_arith)
                    requires
                        acc > (u64::MAX - v) / 10,
                        v <= 9,
                ;
                if all_digits(d) {
                    lemma_digits_value_prefix(d, i + 1 - first);
                }
            }
            return None;
        }
        acc = acc * 10 + v;
        i = i + 1;
        proof {
            assert forall|j: int| 0 <= j < s@.subrange(first as int, i as int).len() implies
                is_digit_byte(#[trigger] s@.subrange(first as int, i as int)[j]) by {
                if j < i - 1 - first {
                    assert(s@.subrange(first as int, i as int)[j]
                        == s@.subrange(first as int, i - 1)[j]);
                }
            }
        }
    }
    assert(s@.subrange(first as int, i as int) =~= d);
    Some(acc)
}

pub proof fn lemma_decimal_bytes_digits(n: nat)
    ensures
        decimal_bytes(n).len() >= 1,
        all_digits(decimal_bytes(n)),
        digits_value(decimal_bytes(n)) == n,
    decreases n,
{
    assert(digit_byte(n % 10) as int == n % 10 + 48);
    let d = decimal_bytes(n);
    if n < 10 {
        assert(d.drop_last() =~= Seq::<u8>::empty());
        assert(d.last() == digit_byte(n));
        assert(digits_value(d) == digits_value(d.drop_last()) * 10 + (d.last() - 48) as nat);
    } else {
        lemma_decimal_bytes_digits(n / 10);
        assert(d.drop_last() =~= decimal_bytes(n / 10));
        assert(d.last() == digit_byte(n % 10));
        assert(digits_value(d) == digits_value(d.drop_last()) * 10 + (d.last() - 48) as nat);
        assert((n / 10) * 10 + n % 10 == n);
        assert forall|i: int| 0 <= i < d.len() implies is_digit_byte(#[trigger] d[i]) by {
            if i < d.len() - 1 {
                assert(d[i] == decimal_bytes(n / 10)[i]);
            }
        }
    }
}

/// Reading back the decimal notation of a `u64` gives the number.
pub proof fn lemma_parse_decimal(n: u64)
    ensures
        parse_u64_spec(decimal_bytes(n as nat)) == Some(n),
{
    lemma_decimal_bytes_digits(n as nat);
    let d = decimal_bytes(n as nat);
    assert(is_digit_byte(d[0]));
}

/// The characters of `s`, in order.
pub fn chars_of(s: &str) -> (r: Vec<char>)
    ensures
        r@ == s@,
{
    let mut out: Vec<char> = Vec::new();
    for c in it: s.chars()
        invariant
            out@ == it.seq().take(it.index() as int),
    {
        out.push(c);
        proof {
            assert(out@ =~= it.seq().take(it.index() + 1));
        }
    }
    assert(out@ =~= s@);
    out
}

/// Relies on `String::push`: the character is appended at the end.
#[verifier::external_body]
fn push_char(s: &mut String, c: char)
    ensures
        final(s)@ == old(s)@.push(c),
{
    s.push(c);
}

/// A string of the characters `v`, in order.
pub fn string_of(v: &[char]) -> (r: String)
    ensures
        r@ == v@,
{
    let mut out = String::new();
    let mut i: usize = 0;
    while i < v.len()
        invariant
            i <= v@.len(),
            out@ == v@.take(i as int),
        decreases v@.len() - i,
    {
        push_char(&mut out, v[i]);
        i = i + 1;
        proof {
            assert(out@ =~= v@.take(i as int));
        }
    }
    assert(out@ =~= v@);
    out
}

/// A character with the Unicode `White_Space` property.
pub open spec fn is_whitespace(c: char) -> bool {
    let u = c as u32;
    (9 <= u && u <= 13) || u == 32 || u == 0x85 || u == 0xA0 || u == 0x1680 || (0x2000 <= u
        && u <= 0x200A) || u == 0x2028 || u == 0x2029 || u == 0x202F || u == 0x205F || u == 0x3000
}

pub fn whitespace(c: char) -> (r: bool)
    ensures
        r == is_whitespace(c),
{
    let u = c as u32;
    (9 <= u && u <= 13) || u == 32 || u == 0x85 || u == 0xA0 || u == 0x1680 || (0x2000 <= u
        && u <= 0x200A) || u == 0x2028 || u == 0x2029 || u == 0x202F || u == 0x205F || u == 0x3000
}

/// `s` without its leading whitespace.
pub open spec fn trim_start(s: Seq<char>) -> Seq<char>
    decreases s.len(),
{
    if s.len() > 0 && is_whitespace(s[0]) {
        trim_start(s.skip(1))
    } else {
        s
    }
}

/// `s` without its trailing whitespace.
pub open spec fn trim_end(s: Seq<char>) -> Seq<char>
    decreases s.len(),
{
    if s.len() > 0 && is_whitespace(s.last()) {
        trim_end(s.drop_last())
    } else {
        s
    }
}

/// `s` without whitespace at either end.
pub open spec fn trim(s: Seq<char>) -> Seq<char> {
    trim_end(trim_start(s))
}

/// `s` trimmed of whitespace at both ends.
pub fn trimmed(s: &[char]) -> (r: Vec<char>)
    ensures
        r@ == trim(s@),
{
    let n = s.len();
    let mut a: usize = 0;
    assert(s@.skip(0) =~= s@);
    while a < n && whitespace(s[a])
        invariant
            a <= n == s@.len(),
            trim_start(s@) == trim_start(s@.skip(a as int)),
        decreases n - a,
    {
        assert(s@.skip(a as int).skip(1) =~= s@.skip(a + 1));
        a = a + 1;
    }
    assert(trim_start(s@) == s@.skip(a as int));
    let mut b: usize = n;
    assert(s@.skip(a as int) =~= s@.subrange(a as int, n as int));
    while b > a && whitespace(s[b - 1])
        invariant
            a <= b <= n == s@.len(),
            trim(s@) == trim_end(s@.subrange(a as int, b as int)),
        decreases b - a,
    {
        assert(s@.subrange(a as int, b as int).drop_last() =~= s@.subrange(a as int, b - 1));
        b = b - 1;
    }
    let r = vstd::slice::slice_to_vec(&s[a..b]);
    assert(r@ == s@.subrange(a as int, b as int));
    r
}

/// The first position at which `pat` occurs in `s`, or `s.len()` where it
/// does not occur.
pub open spec fn find_sub(s: Seq<char>, pat: Seq<char>) -> nat
    decreases s.len(),
{
    if s.len() < pat.len() {
        s.len()
    } else if s.len() == 0 || s.take(pat.len() as int) == pat {
        0
    } else {
        1 + find_sub(s.skip(1), pat)
    }
}

pub proof fn lemma_find_sub_found(s: Seq<char>, pat: Seq<char>)
    requires
        find_sub(s, pat) < s.len(),
    ensures
        find_sub(s, pat) + pat.len() <= s.len(),
        s.skip(find_sub(s, pat) as int).take(pat.len() as int) == pat,
    decreases s.len(),
{
    if s.len() >= pat.len() && s.len() != 0 && s.take(pat.len() as int) != pat {
        lemma_find_sub_found(s.skip(1), pat);
        assert(s.skip(1).skip(find_sub(s.skip(1), pat) as int) =~= s.skip(find_sub(s, pat) as int));
    } else {
        assert(s.skip(0) =~= s);
    }
}

fn matches_at(s: &[char], i: usize, pat: &[char]) -> (r: bool)
    requires
        i + pat@.len() <= s@.len(),
    ensures
        r == (s@.skip(i as int).take(pat@.len() as int) == pat@),
{
    let m = pat.len();
    let n = s.len();
    let mut j: usize = 0;
    while j < m
        invariant
            j <= m == pat@.len(),
            n == s@.len(),
            i + m <= s@.len(),
            forall|k: int| 0 <= k < j ==> s@[i + k] == pat@[k],
        decreases m - j,
    {
        if s[i + j] != pat[j] {
            assert(s@.skip(i as int).take(m as int)[j as int] != pat@[j as int]);
            return false;
        }
        j = j + 1;
    }
    assert(s@.skip(i as int).take(m as int) =~= pat@);
    true
}

/// The first position of `pat` in `s`, as `find_sub` states it.
pub fn find_chars(s: &[char], pat: &[char]) -> (r: usize)
    ensures
        r == find_sub(s@, pat@),
        r <= s@.len(),
{
    let n = s.len();
    let m = pat.len();
    let mut i: usize = 0;
    assert(s@.skip(0) =~= s@);
    while i < n && m <= n - i
        invariant
            i <= n == s@.len(),
            m == pat@.len(),
            find_sub(s@, pat@) == i + find_sub(s@.skip(i as int), pat@),
        decreases n - i,
    {
        if matches_at(s, i, pat) {
            return i;
        }
        assert(s@.skip(i as int).skip(1) =~= s@.skip(i + 1));
        i = i + 1;
    }
    assert(s@.skip(i as int).len() == n - i);
    n
}

/// The first `c` in `s`, as `index_of` states it.
pub fn find_char(s: &[char], c: char) -> (r: usize)
    ensures
        r == index_of(s@, c),
        r <= s@.len(),
{
    let mut i: usize = 0;
    while i < s.len()
        invariant
            i <= s@.len(),
            forall|j: int| 0 <= j < i ==> s@[j] != c,
        decreases s@.len() - i,
    {
        if s[i] == c {
            proof {
                lemma_index_of_found(s@, c, i as int);
            }
            return i;
        }
        i = i + 1;
    }
    proof {
        lemma_index_of_absent(s@, c);
    }
    i
}

/// `s` without the run of `c` that ends it.
pub open spec fn trim_trailing(s: Seq<char>, c: char) -> Seq<char>
    decreases s.len(),
{
    if s.len() > 0 && s.last() == c {
        trim_trailing(s.drop_last(), c)
    } else {
        s
    }
}

/// The length of `s` without the run of `c` that ends it.
pub fn trailing_trimmed_len(s: &[char], c: char) -> (r: usize)
    ensures
        r <= s@.len(),
        s@.take(r as int) == trim_trailing(s@, c),
{
    let mut b: usize = s.len();
    assert(s@.take(b as int) =~= s@);
    while b > 0 && s[b - 1] == c
        invariant
            b <= s@.len(),
            trim_trailing(s@, c) == trim_trailing(s@.take(b as int), c),
        decreases b,
    {
        assert(s@.take(b as int).drop_last() =~= s@.take(b - 1));
        b = b - 1;
    }
    b
}

/// What follows the last `c` in `s`; all of `s` where there is no `c`.
pub open spec fn after_last(s: Seq<char>, c: char) -> Seq<char>
    decreases s.len(),
{
    if s.len() == 0 {
        s
    } else if s.last() == c {
        Seq::empty()
    } else {
        after_last(s.drop_last(), c).push(s.last())
    }
}

/// The part of `s` after its last `c`.
pub fn suffix_after_last(s: &[char], c: char) -> (r: Vec<char>)
    ensures
        r@ == after_last(s@, c),
{
    let n = s.len();
    let mut j: usize = n;
    assert(s@.take(n as int) =~= s@);
    assert(s@.subrange(n as int, n as int) =~= Seq::<char>::empty());
    while j > 0 && s[j - 1] != c
        invariant
            j <= n == s@.len(),
            after_last(s@, c) == after_last(s@.take(j as int), c) + s@.subrange(j as int, n as int),
        decreases j,
    {
        assert(s@.take(j as int).drop_last() =~= s@.take(j - 1));
        assert(after_last(s@.take(j - 1), c) + s@.subrange(j - 1, n as int) =~= after_last(
            s@.take(j - 1),
            c,
        ).push(s@[j - 1]) + s@.subrange(j as int, n as int));
        j = j - 1;
    }
    assert(after_last(s@.take(j as int), c) =~= Seq::<char>::empty());
    let r = vstd::slice::slice_to_vec(&s[j..n]);
    assert(r@ =~= after_last(s@, c));
    r
}

} // verus!
