//! The name under which a download is saved: from a `content-disposition`
//! header, else from the last segment of the URL's path, else a fixed name.

use vstd::prelude::*;
use crate::percent::{parsed_url_path, percent_decode_utf8, percent_decode_utf8_spec, url_path};
use crate::text::{
    after_last, chars_of, find_char, find_chars, find_sub, index_of, lemma_find_sub_found,
    string_of, suffix_after_last, trailing_trimmed_len, trim, trim_trailing, trimmed,
};

verus! {

pub open spec fn filename_star_key() -> Seq<char> {
    seq!['f', 'i', 'l', 'e', 'n', 'a', 'm', 'e', '*', '=']
}

pub open spec fn filename_key() -> Seq<char> {
    seq!['f', 'i', 'l', 'e', 'n', 'a', 'm', 'e', '=']
}

/// The name used when neither the header nor the URL gives one.
pub open spec fn default_filename() -> Seq<char> {
    seq!['d', 'o', 'w', 'n', 'l', 'o', 'a', 'd']
}

/// The number of backslashes that end `s`.
pub open spec fn trailing_backslashes(s: Seq<char>) -> nat
    decreases s.len(),
{
    if s.len() > 0 && s.last() == '\\' {
        1 + trailing_backslashes(s.drop_last())
    } else {
        0
    }
}

/// `w[j]` is a double quote that no backslash escapes: an even number of
/// backslashes stands right before it.
pub open spec fn is_closing_quote(w: Seq<char>, j: int) -> bool {
    0 <= j < w.len() && w[j] == '"' && trailing_backslashes(w.take(j)) % 2 == 0
}

/// The first closing quote of `w` at or after `j`; `w.len()` where none is.
pub open spec fn closing_quote_from(w: Seq<char>, j: nat) -> nat
    decreases w.len() - j,
{
    if j >= w.len() {
        w.len()
    } else if is_closing_quote(w, j as int) {
        j
    } else {
        closing_quote_from(w, j + 1)
    }
}

/// `s` with `\"` and `\\` read as the escaped character; a backslash before
/// any other character, or at the end, stays.
pub open spec fn unescape(s: Seq<char>) -> Seq<char>
    decreases s.len(),
{
    if s.len() == 0 {
        Seq::empty()
    } else if s[0] == '\\' && s.len() >= 2 {
        if s[1] == '"' || s[1] == '\\' {
            seq![s[1]] + unescape(s.skip(2))
        } else {
            seq![s[0], s[1]] + unescape(s.skip(2))
        }
    } else {
        seq![s[0]] + unescape(s.skip(1))
    }
}

/// The name in an extended `filename*=charset'language'value` parameter: the
/// value between the first `;` after the key and the key, trimmed, then what
/// follows its second `'`, percent-decoded.
pub open spec fn extended_filename_spec(cd: Seq<char>) -> Option<Seq<char>> {
    let p = find_sub(cd, filename_star_key());
    let rest = cd.skip(p + 10int);
    let value = trim(rest.take(index_of(rest, ';') as int));
    let q1 = index_of(value, '\'');
    let after = value.skip(q1 + 1int);
    let q2 = index_of(after, '\'');
    if p < cd.len() && q1 < value.len() && q2 < after.len() {
        percent_decode_utf8_spec(after.skip(q2 + 1int))
    } else {
        None
    }
}

/// The name in a plain `filename=` parameter: a quoted value up to its
/// closing quote, unescaped, or an unquoted value up to `;`, trimmed and
/// percent-decoded where that decodes.
pub open spec fn regular_filename_spec(cd: Seq<char>) -> Option<Seq<char>> {
    let p = find_sub(cd, filename_key());
    let v = cd.skip(p + 9int);
    if p >= cd.len() {
        None
    } else if v.len() > 0 && v[0] == '"' {
        let w = v.skip(1);
        let j = closing_quote_from(w, 0);
        if j < w.len() {
            Some(unescape(w.take(j as int)))
        } else {
            None
        }
    } else {
        let f = trim(v.take(index_of(v, ';') as int));
        match percent_decode_utf8_spec(f) {
            Some(d) => Some(d),
            None => Some(f),
        }
    }
}

/// The name that a `content-disposition` value gives: the extended form
/// first, else the plain one.
pub open spec fn content_disposition_spec(cd: Seq<char>) -> Option<Seq<char>> {
    match extended_filename_spec(cd) {
        Some(f) => Some(f),
        None => regular_filename_spec(cd),
    }
}

/// The last non-empty segment of the URL's path, percent-decoded: empty
/// segments at the end of the path are passed over.
pub open spec fn url_filename_spec(url: Seq<char>) -> Option<Seq<char>> {
    match url_path(url) {
        Some(path) => {
            let last = after_last(trim_trailing(path.skip(1), '/'), '/');
            if path.len() > 0 && path[0] == '/' && last.len() > 0 {
                percent_decode_utf8_spec(last)
            } else {
                None
            }
        },
        None => None,
    }
}

/// The name to save under: a non-empty name from the header, else a
/// non-empty name from the URL, else the default name.
pub open spec fn resolve_filename_spec(cd: Option<Seq<char>>, url: Seq<char>) -> Seq<char> {
    let from_header = match cd {
        Some(h) => content_disposition_spec(h),
        None => None,
    };
    if from_header is Some && from_header->0.len() > 0 {
        from_header->0
    } else {
        let from_url = url_filename_spec(url);
        if from_url is Some && from_url->0.len() > 0 {
            from_url->0
        } else {
            default_filename()
        }
    }
}

/// Undoes the backslash escapes of a quoted header value.
fn unescape_chars(s: &[char]) -> (r: Vec<char>)
    ensures
        r@ == unescape(s@),
{
    let n = s.len();
    let mut out: Vec<char> = Vec::new();
    let mut i: usize = 0;
    assert(s@.skip(0) =~= s@);
    while i < n
        invariant
            i <= n == s@.len(),
            unescape(s@) == out@ + unescape(s@.skip(i as int)),
        decreases n - i,
    {
        let ghost t = s@.skip(i as int);
        if s[i] == '\\' && i + 1 < n {
            let next = s[i + 1];
            if next == '"' || next == '\\' {
                out.push(next);
            } else {
                out.push('\\');
                out.push(next);
            }
            assert(t.skip(2) =~= s@.skip(i + 2));
            i = i + 2;
        } else {
            out.push(s[i]);
            assert(t.skip(1) =~= s@.skip(i + 1));
            i = i + 1;
        }
    }
    assert(s@.skip(i as int) =~= Seq::<char>::empty());
    assert(out@ + Seq::<char>::empty() =~= out@);
    out
}

/// Undoes the backslash escapes of a quoted header value: `\"` and `\\`
/// stand for the character after the backslash.
pub fn unescape_quoted_string(s: &str) -> (r: String)
    ensures
        r@ == unescape(s@),
{
    let v = chars_of(s);
    let u = unescape_chars(v.as_slice());
    string_of(u.as_slice())
}

/// The position of the quote that closes a quoted value whose opening quote
/// came just before `w`.
fn closing_quote(w: &[char]) -> (r: usize)
    ensures
        r == closing_quote_from(w@, 0),
{
    let n = w.len();
    let mut escaped = false;
    let mut i: usize = 0;
    assert(w@.take(0) =~= Seq::<char>::empty());
    while i < n
        invariant
            i <= n == w@.len(),
            escaped == (trailing_backslashes(w@.take(i as int)) % 2 == 1),
            closing_quote_from(w@, 0) == closing_quote_from(w@, i as nat),
        decreases n - i,
    {
        let c = w[i];
        assert(w@.take(i + 1).drop_last() =~= w@.take(i as int));
        if c == '\\' {
            escaped = !escaped;
        } else if c == '"' && !escaped {
            return i;
        } else {
            escaped = false;
        }
        i = i + 1;
    }
    i
}

/// The name in an extended `filename*=` parameter.
pub fn parse_extended_filename(cd: &[char]) -> (r: Option<Vec<char>>)
    ensures
        r.deep_view() == extended_filename_spec(cd@),
{
    let key = vec!['f', 'i', 'l', 'e', 'n', 'a', 'm', 'e', '*', '='];
    assert(key@ =~= filename_star_key());
    let p = find_chars(cd, key.as_slice());
    if p == cd.len() {
        return None;
    }
    proof {
        lemma_find_sub_found(cd@, key@);
    }
    let rest = &cd[p + 10..cd.len()];
    assert(rest@ =~= cd@.skip(p + 10));
    let semi = find_char(rest, ';');
    let value = trimmed(&rest[0..semi]);
    assert(rest@.subrange(0, semi as int) =~= rest@.take(semi as int));
    let q1 = find_char(value.as_slice(), '\'');
    if q1 == value.len() {
        return None;
    }
    let after = &value.as_slice()[q1 + 1..value.len()];
    assert(after@ =~= value@.skip(q1 + 1));
    let q2 = find_char(after, '\'');
    if q2 == after.len() {
        return None;
    }
    let encoded = &after[q2 + 1..after.len()];
    assert(encoded@ =~= after@.skip(q2 + 1));
    percent_decode_utf8(encoded)
}

/// The name in a plain `filename=` parameter.
pub fn parse_regular_filename(cd: &[char]) -> (r: Option<Vec<char>>)
    ensures
        r.deep_view() == regular_filename_spec(cd@),
{
    let key = vec!['f', 'i', 'l', 'e', 'n', 'a', 'm', 'e', '='];
    assert(key@ =~= filename_key());
    let p = find_chars(cd, key.as_slice());
    if p == cd.len() {
        return None;
    }
    proof {
        lemma_find_sub_found(cd@, key@);
    }
    let value = &cd[p + 9..cd.len()];
    assert(value@ =~= cd@.skip(p + 9));
    if value.len() > 0 && value[0] == '"' {
        let w = &value[1..value.len()];
        assert(w@ =~= value@.skip(1));
        let j = closing_quote(w);
        if j < w.len() {
            let inner = &w[0..j];
            assert(inner@ =~= w@.take(j as int));
            Some(unescape_chars(inner))
        } else {
            None
        }
    } else {
        let end = find_char(value, ';');
        let f = trimmed(&value[0..end]);
        assert(value@.subrange(0, end as int) =~= value@.take(end as int));
        match percent_decode_utf8(f.as_slice()) {
            Some(d) => Some(d),
            None => Some(f),
        }
    }
}

fn content_disposition_chars(cd: &[char]) -> (r: Option<Vec<char>>)
    ensures
        r.deep_view() == content_disposition_spec(cd@),
{
    match parse_extended_filename(cd) {
        Some(f) => Some(f),
        None => parse_regular_filename(cd),
    }
}

/// The file name that a `content-disposition` header value gives, if any.
pub fn parse_content_disposition(cd: &str) -> (r: Option<String>)
    ensures
        r.deep_view() == content_disposition_spec(cd@),
{
    let v = chars_of(cd);
    match content_disposition_chars(v.as_slice()) {
        Some(f) => Some(string_of(f.as_slice())),
        None => None,
    }
}

fn url_filename_chars(url: &str) -> (r: Option<Vec<char>>)
    ensures
        r.deep_view() == url_filename_spec(url@),
{
    match parsed_url_path(url) {
        Some(path) => {
            assert(path.deep_view() =~= path@);
            if path.len() > 0 && path[0] == '/' {
                let rest = &path.as_slice()[1..path.len()];
                assert(rest@ =~= path@.skip(1));
                let end = trailing_trimmed_len(rest, '/');
                let kept = &rest[0..end];
                assert(kept@ =~= rest@.take(end as int));
                let last = suffix_after_last(kept, '/');
                if last.len() > 0 {
                    percent_decode_utf8(last.as_slice())
                } else {
                    None
                }
            } else {
                None
            }
        },
        None => None,
    }
}

/// The last non-empty segment of the URL's path, percent-decoded, if any.
pub fn extract_filename_from_url(url: &str) -> (r: Option<String>)
    ensures
        r.deep_view() == url_filename_spec(url@),
{
    match url_filename_chars(url) {
        Some(f) => Some(string_of(f.as_slice())),
        None => None,
    }
}

/// The name to save a download under, from the response's
/// `content-disposition` value (if it had one) and the final URL. Never
/// empty.
pub fn resolve_filename(content_disposition: Option<&str>, url: &str) -> (r: String)
    ensures
        r@ == resolve_filename_spec(
            match content_disposition {
                Some(h) => Some(h@),
                None => None,
            },
            url@,
        ),
        r@.len() > 0,
{
    let from_header = match content_disposition {
        Some(h) => content_disposition_chars(chars_of(h).as_slice()),
        None => None,
    };
    match from_header {
        Some(f) => {
            if f.len() > 0 {
                return string_of(f.as_slice());
            }
        },
        None => {},
    }
    match url_filename_chars(url) {
        Some(f) => {
            if f.len() > 0 {
                return string_of(f.as_slice());
            }
        },
        None => {},
    }
    let d = vec!['d', 'o', 'w', 'n', 'l', 'o', 'a', 'd'];
    assert(d@ =~= default_filename());
    string_of(d.as_slice())
}

} // verus!
