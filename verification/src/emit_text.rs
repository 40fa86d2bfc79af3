//! The building blocks of emitted source text: templates with one hole,
//! escaping for string literals, and the identifiers that emitted items get.

use crate::model::{humanize, humanize_exec, is_alphanumeric};
use crate::text::{chars_of, occurs_at, string_from_chars};
use vstd::prelude::*;
use vstd::string::StringExecFns;

verus! {

/// The first `k` parts of a template, with `v` in each hole between them.
pub open spec fn fill_upto(parts: Seq<Seq<char>>, v: Seq<char>, k: int) -> Seq<char>
    decreases k,
{
    if k <= 0 || k > parts.len() {
        Seq::empty()
    } else if k == 1 {
        fill_upto(parts, v, 0) + parts[0]
    } else {
        fill_upto(parts, v, k - 1) + v + parts[k - 1]
    }
}

/// A template filled in: its parts, with `v` in every hole between two of
/// them.
pub open spec fn fill(parts: Seq<Seq<char>>, v: Seq<char>) -> Seq<char> {
    fill_upto(parts, v, parts.len() as int)
}

/// The template filled in with each of the first `k` items, one after the
/// other.
pub open spec fn fill_each_upto(parts: Seq<Seq<char>>, items: Seq<Seq<char>>, k: int) -> Seq<char>
    decreases k,
{
    if k <= 0 || k > items.len() {
        Seq::empty()
    } else {
        fill_each_upto(parts, items, k - 1) + fill(parts, items[k - 1])
    }
}

/// The template filled in with each item, one after the other.
pub open spec fn fill_each(parts: Seq<Seq<char>>, items: Seq<Seq<char>>) -> Seq<char> {
    fill_each_upto(parts, items, items.len() as int)
}

/// How a character stands inside a string literal of the emitted source.
pub open spec fn escape_char(c: char) -> Seq<char> {
    if c == '"' {
        seq!['\\', '"']
    } else if c == '\\' {
        seq!['\\', '\\']
    } else if c == '\n' {
        seq!['\\', 'n']
    } else if c == '\r' {
        seq!['\\', 'r']
    } else if c == '\t' {
        seq!['\\', 't']
    } else {
        seq![c]
    }
}

/// The first `k` characters of `s`, escaped.
pub open spec fn escape_upto(s: Seq<char>, k: int) -> Seq<char>
    decreases k,
{
    if k <= 0 || k > s.len() {
        Seq::empty()
    } else {
        escape_upto(s, k - 1) + escape_char(s[k - 1])
    }
}

/// `s` as it stands inside a string literal of the emitted source.
pub open spec fn escape(s: Seq<char>) -> Seq<char> {
    escape_upto(s, s.len() as int)
}

/// The index after the last `/` among the first `k` characters (0 if none).
pub open spec fn after_last_slash(s: Seq<char>, k: int) -> int
    decreases k,
{
    if k <= 0 || k > s.len() {
        0
    } else if s[k - 1] == '/' {
        k
    } else {
        after_last_slash(s, k - 1)
    }
}

/// What follows the last `/` of `s`; all of `s` if it has none.
pub open spec fn last_segment(s: Seq<char>) -> Seq<char> {
    s.subrange(after_last_slash(s, s.len() as int), s.len() as int)
}

/// The identifier of a resource type: the humanized last segment of its name
/// (`library.example.com/Shelf` gives `Shelf`).
pub open spec fn type_ident(resource_type: Seq<char>) -> Seq<char> {
    humanize(last_segment(resource_type))
}

/// An upper-case ASCII letter.
pub open spec fn is_upper(c: char) -> bool {
    'A' <= c && c <= 'Z'
}

/// The lower case of an upper-case ASCII letter; any other character as it is.
pub open spec fn to_lower(c: char) -> char {
    if is_upper(c) {
        ((c as u8 + 32) as u8) as char
    } else {
        c
    }
}

/// The first `k` characters of `s` in snake case.
pub open spec fn snake_upto(s: Seq<char>, k: int) -> Seq<char>
    decreases k,
{
    if k <= 0 || k > s.len() {
        Seq::empty()
    } else {
        let before = snake_upto(s, k - 1);
        let c = s[k - 1];
        if !is_alphanumeric(c) {
            before.push('_')
        } else if is_upper(c) && k >= 2 && is_alphanumeric(s[k - 2]) && !is_upper(s[k - 2]) {
            before.push('_').push(to_lower(c))
        } else {
            before.push(to_lower(c))
        }
    }
}

/// `s` in snake case: letters in lower case, an underscore before an upper
/// case letter that follows a lower case letter or a digit, and an underscore
/// for every other character (`BookReview` gives `book_review`).
pub open spec fn snake(s: Seq<char>) -> Seq<char> {
    snake_upto(s, s.len() as int)
}

/// `t` stands somewhere in `s`.
pub open spec fn occurs_in(s: Seq<char>, t: Seq<char>) -> bool {
    exists|i: int| #[trigger] occurs_at(s, i, t)
}

/// A text stands in what is written around it.
pub proof fn lemma_occurs_between(a: Seq<char>, t: Seq<char>, b: Seq<char>)
    ensures
        occurs_in(a + t + b, t),
{
    let s = a + t + b;
    assert(s.subrange(a.len() as int, (a.len() + t.len()) as int) =~= t);
    assert(occurs_at(s, a.len() as int, t));
}

/// What stands in a text stands in what is written around the text.
pub proof fn lemma_occurs_in_wider(a: Seq<char>, s: Seq<char>, b: Seq<char>, t: Seq<char>)
    requires
        occurs_in(s, t),
    ensures
        occurs_in(a + s + b, t),
{
    let i = choose|i: int| #[trigger] occurs_at(s, i, t);
    let w = a + s + b;
    assert(w.subrange(a.len() + i, a.len() + i + t.len()) =~= s.subrange(i, i + t.len()));
    assert(occurs_at(w, a.len() + i, t));
}

/// A template of two parts, filled in, is the value between the parts.
pub proof fn lemma_fill_two(a: Seq<char>, b: Seq<char>, v: Seq<char>)
    ensures
        fill(seq![a, b], v) == a + v + b,
{
    let parts = seq![a, b];
    assert(fill_upto(parts, v, 0) =~= Seq::<char>::empty());
    assert(fill_upto(parts, v, 1) =~= a);
    assert(fill_upto(parts, v, 2) =~= a + v + b);
}

/// What a template gives for one item stands in what it gives for all items.
pub proof fn lemma_fill_each_holds(parts: Seq<Seq<char>>, items: Seq<Seq<char>>, k: int, n: int)
    requires
        0 <= k < n <= items.len(),
    ensures
        occurs_in(fill_each_upto(parts, items, n), fill(parts, items[k])),
    decreases n,
{
    let before = fill_each_upto(parts, items, n - 1);
    let last = fill(parts, items[n - 1]);
    if k == n - 1 {
        lemma_occurs_between(before, last, Seq::empty());
        assert(before + last + Seq::<char>::empty() =~= before + last);
    } else {
        lemma_fill_each_holds(parts, items, k, n - 1);
        lemma_occurs_in_wider(Seq::empty(), before, last, fill(parts, items[k]));
        assert(Seq::<char>::empty() + before + last =~= before + last);
    }
}

/// A template filled in.
pub fn fill_exec(parts: &Vec<&str>, v: &str) -> (out: String)
    ensures
        out@ == fill(parts.deep_view(), v@),
{
    let mut out = String::new();
    let mut k: usize = 0;
    while k < parts.len()
        invariant
            k <= parts@.len(),
            out@ == fill_upto(parts.deep_view(), v@, k as int),
        decreases parts@.len() - k,
    {
        proof {
            assert(parts.deep_view()[k as int] == parts@[k as int]@);
        }
        if k > 0 {
            out.append(v);
        }
        out.append(parts[k]);
        k += 1;
    }
    out
}

/// A template of two parts.
pub fn parts2<'a>(a: &'a str, b: &'a str) -> (out: Vec<&'a str>)
    ensures
        out.deep_view() == seq![a@, b@],
{
    let mut out: Vec<&'a str> = Vec::new();
    out.push(a);
    out.push(b);
    proof {
        assert(out.deep_view() =~= seq![a@, b@]);
    }
    out
}

/// A template of three parts.
pub fn parts3<'a>(a: &'a str, b: &'a str, c: &'a str) -> (out: Vec<&'a str>)
    ensures
        out.deep_view() == seq![a@, b@, c@],
{
    let mut out: Vec<&'a str> = Vec::new();
    out.push(a);
    out.push(b);
    out.push(c);
    proof {
        assert(out.deep_view() =~= seq![a@, b@, c@]);
    }
    out
}

/// A template of six parts.
pub fn parts6<'a>(a: &'a str, b: &'a str, c: &'a str, d: &'a str, e: &'a str, f: &'a str) -> (out:
    Vec<&'a str>)
    ensures
        out.deep_view() == seq![a@, b@, c@, d@, e@, f@],
{
    let mut out: Vec<&'a str> = Vec::new();
    out.push(a);
    out.push(b);
    out.push(c);
    out.push(d);
    out.push(e);
    out.push(f);
    proof {
        assert(out.deep_view() =~= seq![a@, b@, c@, d@, e@, f@]);
    }
    out
}

/// The template filled in with each item, one after the other.
pub fn fill_each_exec(parts: &Vec<&str>, items: &Vec<&str>) -> (out: String)
    ensures
        out@ == fill_each(parts.deep_view(), items.deep_view()),
{
    let mut out = String::new();
    let mut k: usize = 0;
    while k < items.len()
        invariant
            k <= items@.len(),
            out@ == fill_each_upto(parts.deep_view(), items.deep_view(), k as int),
        decreases items@.len() - k,
    {
        proof {
            assert(items.deep_view()[k as int] == items@[k as int]@);
        }
        out.append(fill_exec(parts, items[k]).as_str());
        k += 1;
    }
    out
}

/// `s` as it stands inside a string literal of the emitted source.
pub fn escape_exec(s: &str) -> (out: String)
    ensures
        out@ == escape(s@),
{
    let text = chars_of(s);
    let mut out: Vec<char> = Vec::new();
    let mut k: usize = 0;
    while k < text.len()
        invariant
            k <= text@.len(),
            out@ == escape_upto(text@, k as int),
        decreases text@.len() - k,
    {
        let c = text[k];
        let ghost before = out@;
        if c == '"' {
            out.push('\\');
            out.push('"');
        } else if c == '\\' {
            out.push('\\');
            out.push('\\');
        } else if c == '\n' {
            out.push('\\');
            out.push('n');
        } else if c == '\r' {
            out.push('\\');
            out.push('r');
        } else if c == '\t' {
            out.push('\\');
            out.push('t');
        } else {
            out.push(c);
        }
        proof {
            assert(out@ =~= before + escape_char(c));
        }
        k += 1;
    }
    string_from_chars(out.as_slice())
}

/// The identifier of a resource type.
pub fn type_ident_exec(resource_type: &str) -> (out: String)
    ensures
        out@ == type_ident(resource_type@),
{
    let text = chars_of(resource_type);
    let mut start: usize = 0;
    let mut k: usize = 0;
    while k < text.len()
        invariant
            k <= text@.len(),
            start <= k,
            start == after_last_slash(text@, k as int),
        decreases text@.len() - k,
    {
        if text[k] == '/' {
            start = k + 1;
        }
        k += 1;
    }
    let mut segment: Vec<char> = Vec::new();
    let mut i: usize = start;
    while i < text.len()
        invariant
            start <= i <= text@.len(),
            segment@ == text@.subrange(start as int, i as int),
        decreases text@.len() - i,
    {
        segment.push(text[i]);
        proof {
            assert(text@.subrange(start as int, i as int).push(text@[i as int]) =~= text@.subrange(
                start as int,
                i + 1,
            ));
        }
        i += 1;
    }
    string_from_chars(humanize_exec(segment.as_slice()).as_slice())
}

/// `s` in snake case.
pub fn snake_exec(s: &str) -> (out: String)
    ensures
        out@ == snake(s@),
{
    let text = chars_of(s);
    let mut out: Vec<char> = Vec::new();
    let mut k: usize = 0;
    while k < text.len()
        invariant
            k <= text@.len(),
            out@ == snake_upto(text@, k as int),
        decreases text@.len() - k,
    {
        let c = text[k];
        let alnum = ('a' <= c && c <= 'z') || ('A' <= c && c <= 'Z') || ('0' <= c && c <= '9');
        let upper = 'A' <= c && c <= 'Z';
        let lower = if upper {
            ((c as u8) + 32) as char
        } else {
            c
        };
        if !alnum {
            out.push('_');
        } else {
            let after_lower = if k == 0 {
                false
            } else {
                let p = text[k - 1];
                ('a' <= p && p <= 'z') || ('0' <= p && p <= '9')
            };
            if upper && after_lower {
                out.push('_');
            }
            out.push(lower);
        }
        k += 1;
    }
    string_from_chars(out.as_slice())
}

} // verus!
