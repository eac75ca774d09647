//! The tip pointer: the single line that names the head commit.
use vstd::prelude::*;
use crate::objects::strs_view;
use crate::oid::{is_hex_char, oid_wf};

verus! {

/// The characters with the Unicode White_Space property, which `str::trim`
/// removes.
pub open spec fn is_white_space(c: char) -> bool {
    ('\u{9}' <= c && c <= '\u{d}') || c == ' ' || c == '\u{85}' || c == '\u{a0}' || c == '\u{1680}'
        || ('\u{2000}' <= c && c <= '\u{200a}') || c == '\u{2028}' || c == '\u{2029}' || c
        == '\u{202f}' || c == '\u{205f}' || c == '\u{3000}'
}

pub open spec fn trim_start_ws(s: Seq<char>) -> Seq<char>
    decreases s.len(),
{
    if s.len() > 0 && is_white_space(s[0]) {
        trim_start_ws(s.drop_first())
    } else {
        s
    }
}

pub open spec fn trim_end_ws(s: Seq<char>) -> Seq<char>
    decreases s.len(),
{
    if s.len() > 0 && is_white_space(s.last()) {
        trim_end_ws(s.drop_last())
    } else {
        s
    }
}

/// `s` without leading and trailing white space, as `str::trim` gives it.
pub open spec fn trim_ws(s: Seq<char>) -> Seq<char> {
    trim_end_ws(trim_start_ws(s))
}

fn white_space(c: char) -> (r: bool)
    ensures
        r == is_white_space(c),
{
    ('\u{9}' <= c && c <= '\u{d}') || c == ' ' || c == '\u{85}' || c == '\u{a0}' || c == '\u{1680}'
        || ('\u{2000}' <= c && c <= '\u{200a}') || c == '\u{2028}' || c == '\u{2029}' || c
        == '\u{202f}' || c == '\u{205f}' || c == '\u{3000}'
}

/// `s` without leading and trailing white space.
pub fn trim(s: &str) -> (r: &str)
    ensures
        r@ == trim_ws(s@),
{
    let n = s.unicode_len();
    let mut a: usize = 0;
    assert(s@.subrange(0, n as int) =~= s@);
    while a < n && white_space(s.get_char(a))
        invariant
            n == s@.len(),
            a <= n,
            trim_start_ws(s@.subrange(a as int, n as int)) == trim_start_ws(s@),
        decreases n - a,
    {
        assert(s@.subrange(a as int, n as int).drop_first() =~= s@.subrange(a + 1, n as int));
        a = a + 1;
    }
    if a == n {
        assert(s@.subrange(a as int, n as int) =~= Seq::<char>::empty());
    }
    assert(trim_start_ws(s@) == s@.subrange(a as int, n as int));
    let mut b: usize = n;
    while b > a && white_space(s.get_char(b - 1))
        invariant
            n == s@.len(),
            a <= b <= n,
            trim_end_ws(s@.subrange(a as int, b as int)) == trim_ws(s@),
        decreases b,
    {
        assert(s@.subrange(a as int, b as int).drop_last() =~= s@.subrange(a as int, b - 1));
        b = b - 1;
    }
    if b == a {
        assert(s@.subrange(a as int, b as int) =~= Seq::<char>::empty());
    }
    s.substring_char(a, b)
}

/// An identifier written to the tip file reads back as itself, with or
/// without a line break after it.
pub proof fn lemma_tip_reads_back(oid: Seq<char>)
    requires
        oid_wf(oid),
    ensures
        trim_ws(oid) == oid,
        trim_ws(oid.push('\n')) == oid,
{
    assert(is_hex_char(oid[0]));
    assert(is_hex_char(oid.last()));
    let t = oid.push('\n');
    assert(t[0] == oid[0]);
    assert(t.drop_last() =~= oid);
}

/// The tips named by the trimmed content of the tip file: none when it is
/// empty, else that one commit.
pub fn tips_from_trimmed(trimmed: &str) -> (r: Vec<String>)
    ensures
        trimmed@.len() == 0 ==> r@.len() == 0,
        trimmed@.len() > 0 ==> strs_view(r@) == seq![trimmed@],
{
    let mut r: Vec<String> = Vec::new();
    if trimmed.unicode_len() > 0 {
        r.push(String::from_str(trimmed));
        assert(strs_view(r@) =~= seq![trimmed@]);
    }
    r
}

/// The local tips, from the content of the tip file (`None` when there is no
/// such file).
pub fn local_tips(content: Option<&str>) -> (r: Vec<String>)
    ensures
        content is None ==> r@.len() == 0,
        content matches Some(c) ==> (trim_ws(c@).len() == 0 ==> r@.len() == 0),
        content matches Some(c) ==> (trim_ws(c@).len() > 0 ==> strs_view(r@) == seq![trim_ws(c@)]),
{
    match content {
        None => Vec::new(),
        Some(c) => tips_from_trimmed(trim(c)),
    }
}

} // verus!
