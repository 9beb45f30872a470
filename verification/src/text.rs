use vstd::prelude::*;

verus! {

/// Characters the compiler treats as whitespace: the Unicode
/// white-space set, written out.
pub open spec fn is_ws_char(c: char) -> bool {
    c == ' ' || c == '\t' || c == '\n' || c == '\r' || c == '\u{b}' || c == '\u{c}'
        || c == '\u{85}' || c == '\u{a0}' || c == '\u{1680}' || ('\u{2000}' as u32 <= c as u32
        && c as u32 <= '\u{200a}' as u32) || c == '\u{2028}' || c == '\u{2029}' || c == '\u{202f}'
        || c == '\u{205f}' || c == '\u{3000}'
}

/// Executable test for [`is_ws_char`].
pub fn is_ws(c: char) -> (r: bool)
    ensures
        r == is_ws_char(c),
{
    c == ' ' || c == '\t' || c == '\n' || c == '\r' || c == '\u{b}' || c == '\u{c}'
        || c == '\u{85}' || c == '\u{a0}' || c == '\u{1680}' || ('\u{2000}' <= c
        && c <= '\u{200a}') || c == '\u{2028}' || c == '\u{2029}' || c == '\u{202f}'
        || c == '\u{205f}' || c == '\u{3000}'
}

/// Characters that may appear in an identifier: letters, digits,
/// underscore and hyphen.
pub open spec fn is_ident_char(c: char) -> bool {
    ('A' as u32 <= c as u32 && c as u32 <= 'Z' as u32)
        || ('a' as u32 <= c as u32 && c as u32 <= 'z' as u32)
        || ('0' as u32 <= c as u32 && c as u32 <= '9' as u32)
        || c == '_'
        || c == '-'
}

/// Executable test for [`is_ident_char`]; keyword boundaries and variable
/// names are both delimited by it.
pub fn is_ident(c: char) -> (r: bool)
    ensures
        r == is_ident_char(c),
{
    ('A' <= c && c <= 'Z') || ('a' <= c && c <= 'z') || ('0' <= c && c <= '9') || c == '_'
        || c == '-'
}

/// Relies on `str::chars`: yields exactly the characters of the string,
/// in order; collecting them is a plain conversion.
#[verifier::external_body]
pub fn to_chars(s: &str) -> (r: Vec<char>)
    ensures
        r@ == s@,
{
    s.chars().collect()
}

/// Relies on `String::push`: appends the given character to the end of
/// the string.
pub assume_specification[ String::push ](s: &mut String, c: char)
    ensures
        final(s)@ == old(s)@.push(c),
;

/// Builds a `String` holding exactly the given characters.
pub fn from_chars(v: &Vec<char>) -> (r: String)
    ensures
        r@ == v@,
{
    let mut out = String::new();
    let mut i: usize = 0;
    while i < v.len()
        invariant
            i <= v.len(),
            out@ == v@.take(i as int),
        decreases v.len() - i,
    {
        proof {
            assert(v@.take(i as int).push(v@[i as int]) =~= v@.take(i + 1 as int));
        }
        out.push(v[i]);
        i = i + 1;
    }
    proof {
        assert(v@.take(v.len() as int) =~= v@);
    }
    out
}

/// First index in `[i, b]` whose character is not whitespace, or `b`.
pub open spec fn skip_ws_fwd(s: Seq<char>, i: int, b: int) -> int
    decreases b - i,
{
    if i < b && 0 <= i && b <= s.len() && is_ws_char(s[i]) {
        skip_ws_fwd(s, i + 1, b)
    } else {
        i
    }
}

/// Last bound in `[lo, j]` with no whitespace just before it, or `lo`.
pub open spec fn skip_ws_back(s: Seq<char>, j: int, lo: int) -> int
    decreases j - lo,
{
    if lo < j && 0 <= lo && j <= s.len() && is_ws_char(s[j - 1]) {
        skip_ws_back(s, j - 1, lo)
    } else {
        j
    }
}

/// The slice `[a, b)` of `s` with leading and trailing whitespace removed.
pub open spec fn trim_of(s: Seq<char>, a: int, b: int) -> Seq<char> {
    s.subrange(skip_ws_fwd(s, a, b), skip_ws_back(s, b, skip_ws_fwd(s, a, b)))
}

/// Copies the characters of `s` in `[a, b)`.
pub fn copy_range(s: &Vec<char>, a: usize, b: usize) -> (r: Vec<char>)
    requires
        a <= b && b <= s@.len(),
    ensures
        r@ == s@.subrange(a as int, b as int),
{
    let mut out: Vec<char> = Vec::new();
    let mut i: usize = a;
    while i < b
        invariant
            a <= i && i <= b && b <= s@.len(),
            out@ == s@.subrange(a as int, i as int),
        decreases b - i,
    {
        proof {
            assert(s@.subrange(a as int, i as int).push(s@[i as int]) =~= s@.subrange(
                a as int,
                i + 1 as int,
            ));
        }
        out.push(s[i]);
        i = i + 1;
    }
    out
}

/// Copies the slice `[a, b)` of `s` without its leading and trailing
/// whitespace.
pub fn trim_range(s: &Vec<char>, a: usize, b: usize) -> (r: Vec<char>)
    requires
        a <= b && b <= s@.len(),
    ensures
        r@ == trim_of(s@, a as int, b as int),
{
    let mut lo: usize = a;
    while lo < b
        invariant
            a <= lo && lo <= b && b <= s@.len(),
            skip_ws_fwd(s@, a as int, b as int) == skip_ws_fwd(s@, lo as int, b as int),
        ensures
            lo == b || !is_ws_char(s@[lo as int]),
        decreases b - lo,
    {
        if !is_ws(s[lo]) {
            break ;
        }
        lo = lo + 1;
    }
    proof {
        assert(skip_ws_fwd(s@, lo as int, b as int) == lo as int);
    }
    let mut hi: usize = b;
    while hi > lo
        invariant
            lo <= hi && hi <= b && b <= s@.len(),
            skip_ws_back(s@, b as int, lo as int) == skip_ws_back(s@, hi as int, lo as int),
        ensures
            hi == lo || !is_ws_char(s@[hi - 1]),
        decreases hi - lo,
    {
        if !is_ws(s[hi - 1]) {
            break ;
        }
        hi = hi - 1;
    }
    proof {
        assert(skip_ws_back(s@, hi as int, lo as int) == hi as int);
    }
    copy_range(s, lo, hi)
}

/// Copies a list of strings.
pub fn clone_strings(v: &Vec<String>) -> (r: Vec<String>)
    ensures
        r.deep_view() == v.deep_view(),
        r@.len() == v@.len(),
{
    let mut out: Vec<String> = Vec::new();
    let mut j: usize = 0;
    while j < v.len()
        invariant
            j <= v@.len(),
            out@.len() == j,
            out.deep_view() == v.deep_view().take(j as int),
        decreases v@.len() - j,
    {
        let s = v[j].clone();
        let ghost pre = out@;
        let ghost predv = out.deep_view();
        out.push(s);
        proof {
            assert forall|t: int| 0 <= t && t < out@.len() implies out.deep_view()[t]
                == v.deep_view().take(j + 1 as int)[t] by {
                assert(out.deep_view()[t] == out@[t].deep_view());
                if t < pre.len() {
                    assert(out@[t] == pre[t]);
                    assert(predv[t] == v.deep_view().take(j as int)[t]);
                }
            }
            assert(out.deep_view() =~= v.deep_view().take(j + 1 as int));
        }
        j = j + 1;
    }
    proof {
        assert(v.deep_view().take(v@.len() as int) =~= v.deep_view());
    }
    out
}

/// Appends every character of `src` to `dst`, in order.
pub fn push_all(dst: &mut Vec<char>, src: &Vec<char>)
    ensures
        final(dst)@ == old(dst)@ + src@,
{
    let mut i: usize = 0;
    while i < src.len()
        invariant
            i <= src.len(),
            dst@ == old(dst)@ + src@.take(i as int),
        decreases src.len() - i,
    {
        proof {
            assert((old(dst)@ + src@.take(i as int)).push(src@[i as int]) =~= old(dst)@
                + src@.take(i + 1 as int));
        }
        dst.push(src[i]);
        i = i + 1;
    }
    proof {
        assert(old(dst)@ + src@.take(src.len() as int) =~= old(dst)@ + src@);
    }
}

} // verus!
