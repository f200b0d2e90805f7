use vstd::prelude::*;
use crate::text::white_space;
use crate::text::{
    back_white, back_white_from, copy_range, find_char, find_char_from, lemma_find_char,
    skip_white, skip_white_from,
};

verus! {

/// Whether three backticks start at `i`.
pub open spec fn tick3(s: Seq<char>, i: int) -> bool {
    0 <= i && i + 3 <= s.len() && s[i] == '`' && s[i + 1] == '`' && s[i + 2] == '`'
}

/// The first position at or after `i` where three backticks start, or the
/// length of `s`.
pub open spec fn find_tick3(s: Seq<char>, i: int) -> int
    decreases s.len() - i,
{
    if i < 0 || i + 3 > s.len() {
        s.len() as int
    } else if tick3(s, i) {
        i
    } else {
        find_tick3(s, i + 1)
    }
}

/// A character of a fence's language tag: ASCII letters (and the two
/// non-ASCII characters that fold to one of them), digits, `_`, `+` and `-`.
pub open spec fn lang_char(c: char) -> bool {
    ('a' <= c && c <= 'z') || ('A' <= c && c <= 'Z') || ('0' <= c && c <= '9') || c == '_'
        || c == '+' || c == '-' || c == '\u{17F}' || c == '\u{212A}'
}

/// The end of the language tag that may start at `i`.
pub open spec fn skip_lang(s: Seq<char>, i: int) -> int
    decreases s.len() - i,
{
    if 0 <= i < s.len() && lang_char(s[i]) {
        skip_lang(s, i + 1)
    } else {
        i
    }
}

/// The content of the first fenced block: it opens at the first three
/// backticks that a later three close, skips an optional language tag and
/// the white space after it, and ends before the white space that precedes
/// the first closing backticks.
pub open spec fn fence_body(s: Seq<char>) -> Option<Seq<char>> {
    let open = find_tick3(s, 0);
    if open + 3 > s.len() || find_tick3(s, open + 3) + 3 > s.len() {
        None
    } else {
        let p = skip_white(s, skip_lang(s, open + 3));
        let close = find_tick3(s, p);
        Some(s.subrange(p, back_white(s, p, close)))
    }
}

/// `s` from `i` on with each pair of backticks around an inline span taken
/// out; a backtick without a partner stays.
pub open spec fn inline_from(s: Seq<char>, i: int) -> Seq<char>
    decreases s.len() - i,
    via inline_from_decreases
{
    if i < 0 || i >= s.len() {
        seq![]
    } else {
        let a = find_char(s, '`', i);
        let b = find_char(s, '`', a + 1);
        if b >= s.len() {
            s.subrange(i, s.len() as int)
        } else {
            s.subrange(i, a) + s.subrange(a + 1, b) + inline_from(s, b + 1)
        }
    }
}

#[via_fn]
proof fn inline_from_decreases(s: Seq<char>, i: int) {
    if 0 <= i < s.len() {
        lemma_find_char(s, '`', i);
        let a = find_char(s, '`', i);
        if a < s.len() {
            lemma_find_char(s, '`', a + 1);
        }
    }
}

/// The text once Markdown code fences are taken off: the content of the
/// first fenced block if there is one, else the text with inline code spans
/// unwrapped.
pub open spec fn strip_fences(s: Seq<char>) -> Seq<char> {
    match fence_body(s) {
        Some(b) => b,
        None => inline_from(s, 0),
    }
}

fn is_tick3(s: &Vec<char>, i: usize) -> (r: bool)
    ensures
        r == tick3(s@, i as int),
{
    i <= s.len() && s.len() - i >= 3 && s[i] == '`' && s[i + 1] == '`' && s[i + 2] == '`'
}

fn find_tick3_from(s: &Vec<char>, i: usize) -> (r: usize)
    requires
        i <= s.len(),
    ensures
        r as int == find_tick3(s@, i as int),
        i <= r <= s.len(),
        r < s.len() ==> r + 3 <= s.len(),
{
    let mut k: usize = i;
    while k < s.len() && s.len() - k >= 3 && !is_tick3(s, k)
        invariant
            i <= k <= s.len(),
            find_tick3(s@, k as int) == find_tick3(s@, i as int),
        decreases s.len() - k,
    {
        k = k + 1;
    }
    if k < s.len() && s.len() - k >= 3 {
        k
    } else {
        s.len()
    }
}

fn skip_lang_from(s: &Vec<char>, i: usize) -> (r: usize)
    requires
        i <= s.len(),
    ensures
        r as int == skip_lang(s@, i as int),
        i <= r <= s.len(),
{
    let mut k: usize = i;
    while k < s.len() && is_lang_char(s[k])
        invariant
            i <= k <= s.len(),
            skip_lang(s@, k as int) == skip_lang(s@, i as int),
        decreases s.len() - k,
    {
        k = k + 1;
    }
    k
}

fn is_lang_char(c: char) -> (r: bool)
    ensures
        r == lang_char(c),
{
    ('a' <= c && c <= 'z') || ('A' <= c && c <= 'Z') || ('0' <= c && c <= '9') || c == '_'
        || c == '+' || c == '-' || c == '\u{17F}' || c == '\u{212A}'
}

fn push_range(out: &mut Vec<char>, s: &Vec<char>, a: usize, b: usize)
    requires
        a <= b <= s.len(),
    ensures
        final(out)@ == old(out)@ + s@.subrange(a as int, b as int),
{
    let mut k: usize = a;
    while k < b
        invariant
            a <= k <= b <= s.len(),
            out@ == old(out)@ + s@.subrange(a as int, k as int),
        decreases b - k,
    {
        out.push(s[k]);
        k = k + 1;
        assert(out@ =~= old(out)@ + s@.subrange(a as int, k as int));
    }
}

fn unwrap_inline(s: &Vec<char>) -> (r: Vec<char>)
    ensures
        r@ == inline_from(s@, 0),
{
    let n = s.len();
    let mut out: Vec<char> = Vec::new();
    let mut i: usize = 0;
    while i < n
        invariant
            n == s.len(),
            i <= n,
            out@ + inline_from(s@, i as int) == inline_from(s@, 0),
        decreases n - i,
    {
        let ghost before = out@;
        let a = find_char_from(s, '`', i);
        let b = if a < n {
            find_char_from(s, '`', a + 1)
        } else {
            n
        };
        if b == n {
            push_range(&mut out, s, i, n);
            assert(inline_from(s@, n as int) =~= seq![]);
            assert(out@ + inline_from(s@, n as int) =~= before + inline_from(s@, i as int));
            i = n;
        } else {
            push_range(&mut out, s, i, a);
            push_range(&mut out, s, a + 1, b);
            assert(out@ + inline_from(s@, b + 1) =~= before + inline_from(s@, i as int));
            i = b + 1;
        }
    }
    assert(inline_from(s@, i as int) =~= seq![]);
    assert(out@ =~= out@ + inline_from(s@, i as int));
    out
}

/// Takes Markdown code fences off a text.
pub fn strip_markdown_fences(s: &Vec<char>) -> (r: Vec<char>)
    ensures
        r@ == strip_fences(s@),
{
    let open = find_tick3_from(s, 0);
    if open == s.len() || find_tick3_from(s, open + 3) == s.len() {
        return unwrap_inline(s);
    }
    let p = skip_white_from(s, skip_lang_from(s, open + 3));
    let close = find_tick3_from(s, p);
    let end = back_white_from(s, p, close);
    copy_range(s, p, end)
}

} // verus!
