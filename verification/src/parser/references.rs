//! Finding template references (`{{:name}}`, `{{?name}}`, `{{!name}}`,
//! `{{@name}}`) and expression references (`{( ... )}`) in text.
use crate::span::{copy_span, Span, Spanned};
use crate::text::{chars_of, string_from_chars};
use crate::types::{refs_view, spanned_strings_view, ReferenceType, ReferenceTypeView};
use vstd::prelude::*;
use vstd::string::*;

verus! {

/// A character that marks the kind of a reference: `:` variable, `?` prompt,
/// `!` secret, `@` provider.
pub open spec fn is_ref_prefix(c: char) -> bool {
    c == ':' || c == '?' || c == '!' || c == '@'
}

pub open spec fn is_ascii_alpha(c: char) -> bool {
    ('a' <= c <= 'z') || ('A' <= c <= 'Z')
}

/// A character that may follow the first letter of a reference name.
pub open spec fn is_name_char(c: char) -> bool {
    c == '_' || c == '.' || is_ascii_alpha(c) || ('0' <= c <= '9')
}

/// Where the name characters starting at `j` end.
pub open spec fn name_end(s: Seq<char>, j: int) -> int
    decreases s.len() - j,
{
    if 0 <= j < s.len() && is_name_char(s[j]) {
        name_end(s, j + 1)
    } else {
        j
    }
}

pub proof fn lemma_name_end(s: Seq<char>, j: int)
    requires
        0 <= j,
    ensures
        j <= name_end(s, j),
        j <= s.len() ==> name_end(s, j) <= s.len(),
        forall|k: int| j <= k < name_end(s, j) ==> is_name_char(#[trigger] s[k]),
        name_end(s, j) < s.len() ==> !is_name_char(s[name_end(s, j)]),
    decreases s.len() - j,
{
    if 0 <= j < s.len() && is_name_char(s[j]) {
        lemma_name_end(s, j + 1);
    }
}

/// The references found by scanning `s` from `pos`: at each position, a prefix
/// character followed by an ASCII letter starts a reference whose name runs
/// over the name characters that follow; scanning resumes after the name.
/// (The matches of the pattern `([:?!@]{1})([a-zA-Z][_a-zA-Z0-9.]*)`.)
pub open spec fn inner_refs(s: Seq<char>, pos: int) -> Seq<(char, Seq<char>)>
    decreases s.len() - pos,
{
    if pos < 0 || pos >= s.len() {
        Seq::empty()
    } else if pos + 1 < s.len() && is_ref_prefix(s[pos]) && is_ascii_alpha(s[pos + 1]) {
        let e = name_end(s, pos + 2);
        proof {
            lemma_name_end(s, pos + 2);
        }
        seq![(s[pos], s.subrange(pos + 1, e))] + inner_refs(s, e)
    } else {
        inner_refs(s, pos + 1)
    }
}

/// Where the line holding position `j` ends: the next line break at or after
/// `j`, or the end of `s`.
pub open spec fn line_end(s: Seq<char>, j: int) -> int
    decreases s.len() - j,
{
    if 0 <= j < s.len() && s[j] != '\n' {
        line_end(s, j + 1)
    } else {
        j
    }
}

pub proof fn lemma_line_end(s: Seq<char>, j: int)
    requires
        0 <= j,
    ensures
        j <= line_end(s, j),
        j <= s.len() ==> line_end(s, j) <= s.len(),
        forall|k: int| j <= k < line_end(s, j) ==> #[trigger] s[k] != '\n',
        line_end(s, j) < s.len() ==> s[line_end(s, j)] == '\n',
    decreases s.len() - j,
{
    if 0 <= j < s.len() && s[j] != '\n' {
        lemma_line_end(s, j + 1);
    }
}

/// The last position in `lo..=hi` where `a` is followed by `b`, or -1.
pub open spec fn last_pair(s: Seq<char>, lo: int, hi: int, a: char, b: char) -> int
    decreases hi - lo + 1,
{
    if hi < lo || hi < 0 || hi + 1 >= s.len() {
        if hi < lo || hi < 0 {
            -1
        } else {
            last_pair(s, lo, hi - 1, a, b)
        }
    } else if s[hi] == a && s[hi + 1] == b {
        hi
    } else {
        last_pair(s, lo, hi - 1, a, b)
    }
}

pub proof fn lemma_last_pair(s: Seq<char>, lo: int, hi: int, a: char, b: char)
    requires
        0 <= lo,
    ensures
        last_pair(s, lo, hi, a, b) == -1 || (lo <= last_pair(s, lo, hi, a, b) <= hi
            && last_pair(s, lo, hi, a, b) + 1 < s.len()),
    decreases hi - lo + 1,
{
    if !(hi < lo || hi < 0) {
        lemma_last_pair(s, lo, hi - 1, a, b);
    }
}

/// The end of a `{{` ... `}}` match starting at `i`, if one does: the match
/// takes the last `}}` on the line that leaves at least one character between
/// the braces (the pattern `\{\{(.+)\}\}`, whose `.` does not match a line
/// break, with greedy repetition).
pub open spec fn ref_close(s: Seq<char>, i: int) -> int {
    if 0 <= i && i + 1 < s.len() && s[i] == '{' && s[i + 1] == '{' {
        last_pair(s, i + 3, line_end(s, i + 2) - 2, '}', '}')
    } else {
        -1
    }
}

/// The text between the braces of each `{{` ... `}}` match, scanning from `pos`.
pub open spec fn ref_groups(s: Seq<char>, pos: int) -> Seq<Seq<char>>
    decreases s.len() - pos,
{
    if pos < 0 || pos >= s.len() {
        Seq::empty()
    } else if ref_close(s, pos) >= 0 {
        let j = ref_close(s, pos);
        proof {
            lemma_line_end(s, pos + 2);
            lemma_last_pair(s, pos + 3, line_end(s, pos + 2) - 2, '}', '}');
        }
        seq![s.subrange(pos + 2, j)] + ref_groups(s, j + 2)
    } else {
        ref_groups(s, pos + 1)
    }
}

/// The end of a `{(` ... `)}` match starting at `i`, if one does (the
/// pattern `\{\(.*\)\}`, greedy, within a line).
pub open spec fn expr_close(s: Seq<char>, i: int) -> int {
    if 0 <= i && i + 1 < s.len() && s[i] == '{' && s[i + 1] == '(' {
        last_pair(s, i + 2, line_end(s, i + 2) - 2, ')', '}')
    } else {
        -1
    }
}

/// The `{(` ... `)}` expression references found scanning from `pos`.
pub open spec fn expr_matches(s: Seq<char>, pos: int) -> Seq<Seq<char>>
    decreases s.len() - pos,
{
    if pos < 0 || pos >= s.len() {
        Seq::empty()
    } else if expr_close(s, pos) >= 0 {
        let j = expr_close(s, pos);
        proof {
            lemma_line_end(s, pos + 2);
            lemma_last_pair(s, pos + 2, line_end(s, pos + 2) - 2, ')', '}');
        }
        seq![s.subrange(pos, j + 2)] + expr_matches(s, j + 2)
    } else {
        expr_matches(s, pos + 1)
    }
}

/// The reference that a prefix character and a name make.
pub open spec fn reference_of(prefix: char, name: Seq<char>) -> ReferenceTypeView {
    if prefix == ':' {
        ReferenceTypeView::Variable(name)
    } else if prefix == '?' {
        ReferenceTypeView::Prompt(name)
    } else if prefix == '!' {
        ReferenceTypeView::Secret(name)
    } else if prefix == '@' {
        ReferenceTypeView::Provider(name)
    } else {
        ReferenceTypeView::Unknown(name)
    }
}

/// Prefixed names as references, all with the same span.
pub open spec fn spanned_refs(found: Seq<(char, Seq<char>)>, span: Span) -> Seq<(ReferenceTypeView, Span)> {
    found.map_values(|f: (char, Seq<char>)| (reference_of(f.0, f.1), span))
}

/// The prefixed names found in each group, in order.
pub open spec fn refs_in_groups(groups: Seq<Seq<char>>) -> Seq<(char, Seq<char>)>
    decreases groups.len(),
{
    if groups.len() == 0 {
        Seq::empty()
    } else {
        refs_in_groups(groups.drop_last()) + inner_refs(groups.last(), 0)
    }
}

fn line_end_exec(cs: &Vec<char>, j: usize) -> (res: usize)
    requires
        j <= cs@.len(),
    ensures
        res == line_end(cs@, j as int),
{
    proof {
        lemma_line_end(cs@, j as int);
    }
    let mut k = j;
    while k < cs.len() && cs[k] != '\n'
        invariant
            j <= k <= cs@.len(),
            line_end(cs@, k as int) == line_end(cs@, j as int),
        decreases cs@.len() - k,
    {
        k += 1;
    }
    k
}

fn last_pair_exec(cs: &Vec<char>, lo: usize, hi: usize, a: char, b: char) -> (res: Option<usize>)
    requires
        hi + 1 < cs@.len(),
    ensures
        match res {
            Some(j) => last_pair(cs@, lo as int, hi as int, a, b) == j,
            None => last_pair(cs@, lo as int, hi as int, a, b) == -1,
        },
{
    let n = cs.len();
    let mut k = hi;
    loop
        invariant
            k <= hi,
            hi + 1 < cs@.len(),
            n == cs@.len(),
            last_pair(cs@, lo as int, k as int, a, b) == last_pair(cs@, lo as int, hi as int, a, b),
        decreases k,
    {
        if k < lo {
            return None;
        }
        if cs[k] == a && cs[k + 1] == b {
            return Some(k);
        }
        if k == 0 {
            proof {
                assert(last_pair(cs@, lo as int, -1, a, b) == -1);
            }
            return None;
        }
        k -= 1;
    }
}

/// `ref_close` computed.
fn ref_close_exec(cs: &Vec<char>, i: usize) -> (res: Option<usize>)
    requires
        i < cs@.len(),
    ensures
        match res {
            Some(j) => ref_close(cs@, i as int) == j,
            None => ref_close(cs@, i as int) < 0,
        },
{
    let n = cs.len();
    if i + 1 < n && cs[i] == '{' && cs[i + 1] == '{' {
        let le = line_end_exec(cs, i + 2);
        proof {
            lemma_line_end(cs@, i + 2);
        }
        if le - i < 5 {
            proof {
                assert(last_pair(cs@, i + 3, le - 2, '}', '}') == -1);
            }
            None
        } else {
            last_pair_exec(cs, i + 3, le - 2, '}', '}')
        }
    } else {
        None
    }
}

/// `expr_close` computed.
fn expr_close_exec(cs: &Vec<char>, i: usize) -> (res: Option<usize>)
    requires
        i < cs@.len(),
    ensures
        match res {
            Some(j) => expr_close(cs@, i as int) == j,
            None => expr_close(cs@, i as int) < 0,
        },
{
    let n = cs.len();
    if i + 1 < n && cs[i] == '{' && cs[i + 1] == '(' {
        let le = line_end_exec(cs, i + 2);
        proof {
            lemma_line_end(cs@, i + 2);
        }
        if le - i < 4 {
            proof {
                assert(last_pair(cs@, i + 2, le - 2, ')', '}') == -1);
            }
            None
        } else {
            last_pair_exec(cs, i + 2, le - 2, ')', '}')
        }
    } else {
        None
    }
}

fn is_ref_prefix_exec(c: char) -> (res: bool)
    ensures
        res == is_ref_prefix(c),
{
    c == ':' || c == '?' || c == '!' || c == '@'
}

fn is_ascii_alpha_exec(c: char) -> (res: bool)
    ensures
        res == is_ascii_alpha(c),
{
    ('a' <= c && c <= 'z') || ('A' <= c && c <= 'Z')
}

fn is_name_char_exec(c: char) -> (res: bool)
    ensures
        res == is_name_char(c),
{
    c == '_' || c == '.' || is_ascii_alpha_exec(c) || ('0' <= c && c <= '9')
}

fn sub_chars(cs: &Vec<char>, lo: usize, hi: usize) -> (res: Vec<char>)
    requires
        lo <= hi <= cs@.len(),
    ensures
        res@ == cs@.subrange(lo as int, hi as int),
{
    let mut out: Vec<char> = Vec::new();
    let mut k = lo;
    while k < hi
        invariant
            lo <= k <= hi <= cs@.len(),
            out@ == cs@.subrange(lo as int, k as int),
        decreases hi - k,
    {
        out.push(cs[k]);
        assert(out@ =~= cs@.subrange(lo as int, k + 1));
        k += 1;
    }
    out
}

/// The prefixed names in `cs`, as [inner_refs] finds them.
fn inner_refs_exec(cs: &Vec<char>) -> (res: Vec<(char, Vec<char>)>)
    ensures
        res@.map_values(|f: (char, Vec<char>)| (f.0, f.1@)) == inner_refs(cs@, 0),
{
    let mut out: Vec<(char, Vec<char>)> = Vec::new();
    let mut pos: usize = 0;
    let n = cs.len();
    proof {
        assert(out@.map_values(|f: (char, Vec<char>)| (f.0, f.1@)) + inner_refs(cs@, 0) =~= inner_refs(cs@, 0));
    }
    while pos < n
        invariant
            n == cs@.len(),
            pos <= n,
            out@.map_values(|f: (char, Vec<char>)| (f.0, f.1@)) + inner_refs(cs@, pos as int) == inner_refs(cs@, 0),
        decreases n - pos,
    {
        let ghost before = out@.map_values(|f: (char, Vec<char>)| (f.0, f.1@));
        if pos + 1 < n && is_ref_prefix_exec(cs[pos]) && is_ascii_alpha_exec(cs[pos + 1]) {
            proof {
                lemma_name_end(cs@, pos + 2);
            }
            let mut e = pos + 2;
            while e < n && is_name_char_exec(cs[e])
                invariant
                    pos + 2 <= e <= n,
                    n == cs@.len(),
                    name_end(cs@, e as int) == name_end(cs@, pos + 2),
                decreases n - e,
            {
                e += 1;
            }
            let name = sub_chars(cs, pos + 1, e);
            out.push((cs[pos], name));
            proof {
                let item = (cs@[pos as int], cs@.subrange(pos + 1, e as int));
                assert(out@.map_values(|f: (char, Vec<char>)| (f.0, f.1@)) =~= before.push(item));
                assert(inner_refs(cs@, pos as int) == seq![item] + inner_refs(cs@, e as int));
                assert(before.push(item) + inner_refs(cs@, e as int) =~= before + (seq![item] + inner_refs(cs@, e as int)));
            }
            pos = e;
        } else {
            pos += 1;
        }
    }
    proof {
        assert(inner_refs(cs@, n as int) =~= Seq::<(char, Seq<char>)>::empty());
        assert(out@.map_values(|f: (char, Vec<char>)| (f.0, f.1@)) + Seq::<(char, Seq<char>)>::empty()
            =~= out@.map_values(|f: (char, Vec<char>)| (f.0, f.1@)));
    }
    out
}

/// The reference for a prefix character and a name.
fn make_reference(prefix: char, name: &Vec<char>) -> (res: ReferenceType)
    ensures
        res@ == reference_of(prefix, name@),
{
    let name = string_from_chars(name);
    if prefix == ':' {
        ReferenceType::Variable(name)
    } else if prefix == '?' {
        ReferenceType::Prompt(name)
    } else if prefix == '!' {
        ReferenceType::Secret(name)
    } else if prefix == '@' {
        ReferenceType::Provider(name)
    } else {
        ReferenceType::Unknown(name)
    }
}

fn push_refs(out: &mut Vec<Spanned<ReferenceType>>, found: &Vec<(char, Vec<char>)>, span: &Span)
    ensures
        refs_view(final(out)@) == refs_view(old(out)@) + spanned_refs(
            found@.map_values(|f: (char, Vec<char>)| (f.0, f.1@)),
            *span,
        ),
{
    let ghost start = refs_view(out@);
    let ghost fv = found@.map_values(|f: (char, Vec<char>)| (f.0, f.1@));
    let n = found.len();
    let mut i: usize = 0;
    while i < n
        invariant
            n == found@.len(),
            i <= n,
            fv == found@.map_values(|f: (char, Vec<char>)| (f.0, f.1@)),
            refs_view(out@) == start + spanned_refs(fv.take(i as int), *span),
        decreases n - i,
    {
        let r = make_reference(found[i].0, &found[i].1);
        let ghost before = refs_view(out@);
        out.push((r, copy_span(span)));
        proof {
            assert(refs_view(out@) =~= before.push((reference_of(fv[i as int].0, fv[i as int].1), *span)));
            assert(spanned_refs(fv.take(i + 1), *span) =~= spanned_refs(fv.take(i as int), *span).push(
                (reference_of(fv[i as int].0, fv[i as int].1), *span)));
        }
        i += 1;
    }
    proof {
        assert(fv.take(n as int) =~= fv);
    }
}

/// The template references in `input` (see [parse_references]).
pub open spec fn references_spec(input: Seq<char>, span: Span) -> Seq<(ReferenceTypeView, Span)> {
    spanned_refs(refs_in_groups(ref_groups(input, 0)), span)
}

/// Extract template references from a string
///
/// Each `{{` ... `}}` on a line is searched for prefixed names; every
/// reference gets the span of the whole input.
pub fn parse_references(input: &Spanned<String>) -> (res: Vec<Spanned<ReferenceType>>)
    ensures
        refs_view(res@) == references_spec(input.0@, input.1),
{
    let (text, span) = input;
    let cs = chars_of(text.as_str());
    let mut out: Vec<Spanned<ReferenceType>> = Vec::new();
    let ghost mut groups: Seq<Seq<char>> = Seq::empty();
    let n = cs.len();
    let mut pos: usize = 0;
    proof {
        assert(groups + ref_groups(cs@, 0) =~= ref_groups(cs@, 0));
        assert(refs_view(out@) =~= spanned_refs(refs_in_groups(groups), *span));
    }
    while pos < n
        invariant
            n == cs@.len(),
            pos <= n,
            groups + ref_groups(cs@, pos as int) == ref_groups(cs@, 0),
            refs_view(out@) == spanned_refs(refs_in_groups(groups), *span),
        decreases n - pos,
    {
        match ref_close_exec(&cs, pos) {
            Some(j) => {
                proof {
                    lemma_line_end(cs@, pos + 2);
                    lemma_last_pair(cs@, pos + 3, line_end(cs@, pos + 2) - 2, '}', '}');
                }
                let group = sub_chars(&cs, pos + 2, j);
                let found = inner_refs_exec(&group);
                push_refs(&mut out, &found, span);
                proof {
                    let g = cs@.subrange(pos + 2, j as int);
                    assert(ref_groups(cs@, pos as int) == seq![g] + ref_groups(cs@, j + 2));
                    assert(groups.push(g) + ref_groups(cs@, j + 2) =~= groups + (seq![g] + ref_groups(cs@, j + 2)));
                    assert(groups.push(g).drop_last() =~= groups);
                    assert(refs_in_groups(groups.push(g)) == refs_in_groups(groups) + inner_refs(g, 0));
                    assert(spanned_refs(refs_in_groups(groups) + inner_refs(g, 0), *span) =~= spanned_refs(
                        refs_in_groups(groups), *span) + spanned_refs(inner_refs(g, 0), *span));
                    groups = groups.push(g);
                }
                pos = j + 2;
            },
            None => {
                pos += 1;
            },
        }
    }
    proof {
        assert(ref_groups(cs@, n as int) =~= Seq::<Seq<char>>::empty());
        assert(groups + Seq::<Seq<char>>::empty() =~= groups);
    }
    out
}

/// The template references directly in `input` (see [parse_inner_references]).
pub open spec fn inner_references_spec(input: Seq<char>, span: Span) -> Seq<(ReferenceTypeView, Span)> {
    spanned_refs(inner_refs(input, 0), span)
}

/// Extract the prefixed names of `input` as template references, without
/// looking for the surrounding braces
pub fn parse_inner_references(input: &Spanned<String>) -> (res: Vec<Spanned<ReferenceType>>)
    ensures
        refs_view(res@) == inner_references_spec(input.0@, input.1),
{
    let (text, span) = input;
    let cs = chars_of(text.as_str());
    let found = inner_refs_exec(&cs);
    let mut out: Vec<Spanned<ReferenceType>> = Vec::new();
    push_refs(&mut out, &found, span);
    proof {
        assert(refs_view(out@) =~= inner_references_spec(text@, *span));
    }
    out
}

/// The expression references in `input` (see [parse_expressions]).
pub open spec fn expressions_spec(input: Seq<char>) -> Seq<(Seq<char>, Span)> {
    expr_matches(input, 0).map_values(|e: Seq<char>| (e, 0..0usize))
}

/// Extract expression references (`{(` ... `)}`, within a line) from a string
///
/// Every expression gets the span `0..0`.
pub fn parse_expressions(input: &Spanned<String>) -> (res: Vec<Spanned<String>>)
    ensures
        spanned_strings_view(res@) == expressions_spec(input.0@),
{
    let (text, _span) = input;
    let cs = chars_of(text.as_str());
    let mut out: Vec<Spanned<String>> = Vec::new();
    let ghost mut found: Seq<Seq<char>> = Seq::empty();
    let n = cs.len();
    let mut pos: usize = 0;
    proof {
        assert(found + expr_matches(cs@, 0) =~= expr_matches(cs@, 0));
        assert(spanned_strings_view(out@) =~= found.map_values(|e: Seq<char>| (e, 0..0usize)));
    }
    while pos < n
        invariant
            n == cs@.len(),
            pos <= n,
            found + expr_matches(cs@, pos as int) == expr_matches(cs@, 0),
            spanned_strings_view(out@) == found.map_values(|e: Seq<char>| (e, 0..0usize)),
        decreases n - pos,
    {
        match expr_close_exec(&cs, pos) {
            Some(j) => {
                proof {
                    lemma_line_end(cs@, pos + 2);
                    lemma_last_pair(cs@, pos + 2, line_end(cs@, pos + 2) - 2, ')', '}');
                }
                let e = sub_chars(&cs, pos, j + 2);
                let ghost before = spanned_strings_view(out@);
                out.push((string_from_chars(&e), 0..0));
                proof {
                    let m = cs@.subrange(pos as int, j + 2);
                    assert(expr_matches(cs@, pos as int) == seq![m] + expr_matches(cs@, j + 2));
                    assert(found.push(m) + expr_matches(cs@, j + 2) =~= found + (seq![m] + expr_matches(cs@, j + 2)));
                    assert(spanned_strings_view(out@) =~= before.push((m, 0..0usize)));
                    assert(found.push(m).map_values(|e: Seq<char>| (e, 0..0usize)) =~= found.map_values(
                        |e: Seq<char>| (e, 0..0usize)).push((m, 0..0usize)));
                    found = found.push(m);
                }
                pos = j + 2;
            },
            None => {
                pos += 1;
            },
        }
    }
    proof {
        assert(expr_matches(cs@, n as int) =~= Seq::<Seq<char>>::empty());
        assert(found + Seq::<Seq<char>>::empty() =~= found);
    }
    out
}

/// Every name found by [inner_refs] is made of name characters: a letter,
/// then letters, digits, `_` and `.`.
pub proof fn lemma_inner_ref_names(s: Seq<char>, pos: int)
    ensures
        forall|i: int, k: int|
            0 <= i < inner_refs(s, pos).len() && 0 <= k < inner_refs(s, pos)[i].1.len() ==> is_name_char(
                #[trigger] inner_refs(s, pos)[i].1[k],
            ),
    decreases s.len() - pos,
{
    if pos < 0 || pos >= s.len() {
    } else if pos + 1 < s.len() && is_ref_prefix(s[pos]) && is_ascii_alpha(s[pos + 1]) {
        let e = name_end(s, pos + 2);
        lemma_name_end(s, pos + 2);
        lemma_inner_ref_names(s, e);
        let first = (s[pos], s.subrange(pos + 1, e));
        let rest = inner_refs(s, e);
        assert(inner_refs(s, pos) == seq![first] + rest);
        assert forall|i: int, k: int|
            0 <= i < inner_refs(s, pos).len() && 0 <= k < inner_refs(s, pos)[i].1.len() implies is_name_char(
                #[trigger] inner_refs(s, pos)[i].1[k],
            ) by {
            if i == 0 {
                assert(inner_refs(s, pos)[i] == first);
                if k > 0 {
                    assert(first.1[k] == s[pos + 1 + k]);
                } else {
                    assert(first.1[k] == s[pos + 1]);
                }
            } else {
                assert(inner_refs(s, pos)[i] == rest[i - 1]);
            }
        }
    } else {
        lemma_inner_ref_names(s, pos + 1);
        assert(inner_refs(s, pos) == inner_refs(s, pos + 1));
    }
}

/// The names found in groups are made of name characters.
pub proof fn lemma_group_ref_names(groups: Seq<Seq<char>>)
    ensures
        forall|i: int, k: int|
            0 <= i < refs_in_groups(groups).len() && 0 <= k < refs_in_groups(groups)[i].1.len() ==> is_name_char(
                #[trigger] refs_in_groups(groups)[i].1[k],
            ),
    decreases groups.len(),
{
    if groups.len() > 0 {
        let a = refs_in_groups(groups.drop_last());
        let b = inner_refs(groups.last(), 0);
        lemma_group_ref_names(groups.drop_last());
        lemma_inner_ref_names(groups.last(), 0);
        assert forall|i: int, k: int|
            0 <= i < refs_in_groups(groups).len() && 0 <= k < refs_in_groups(groups)[i].1.len() implies is_name_char(
                #[trigger] refs_in_groups(groups)[i].1[k],
            ) by {
            if i < a.len() {
                assert(refs_in_groups(groups)[i] == a[i]);
            } else {
                assert(refs_in_groups(groups)[i] == b[i - a.len()]);
            }
        }
    }
}

/// Every expression reference found starts with `{(`.
pub proof fn lemma_expr_matches_open(s: Seq<char>, pos: int)
    ensures
        forall|i: int| 0 <= i < expr_matches(s, pos).len() ==> (#[trigger] expr_matches(s, pos)[i]).len() >= 2
            && expr_matches(s, pos)[i][0] == '{' && expr_matches(s, pos)[i][1] == '(',
    decreases s.len() - pos,
{
    if pos < 0 || pos >= s.len() {
    } else if expr_close(s, pos) >= 0 {
        let j = expr_close(s, pos);
        lemma_line_end(s, pos + 2);
        lemma_last_pair(s, pos + 2, line_end(s, pos + 2) - 2, ')', '}');
        lemma_expr_matches_open(s, j + 2);
        let m = s.subrange(pos, j + 2);
        let rest = expr_matches(s, j + 2);
        assert(expr_matches(s, pos) == seq![m] + rest);
        assert forall|i: int| 0 <= i < expr_matches(s, pos).len() implies (#[trigger] expr_matches(s, pos)[i]).len() >= 2
            && expr_matches(s, pos)[i][0] == '{' && expr_matches(s, pos)[i][1] == '(' by {
            if i == 0 {
                assert(expr_matches(s, pos)[i] == m);
            } else {
                assert(expr_matches(s, pos)[i] == rest[i - 1]);
            }
        }
    } else {
        lemma_expr_matches_open(s, pos + 1);
        assert(expr_matches(s, pos) == expr_matches(s, pos + 1));
    }
}

/// A reference name: an ASCII letter, then ASCII letters, digits, `_` and
/// `.` (the name group `[a-zA-Z][_a-zA-Z0-9.]*` of a reference).
pub open spec fn is_reference_name(n: Seq<char>) -> bool {
    &&& n.len() >= 1
    &&& ('a' <= n[0] <= 'z' || 'A' <= n[0] <= 'Z')
    &&& forall|k: int|
        1 <= k < n.len() ==> ('a' <= #[trigger] n[k] <= 'z' || 'A' <= n[k] <= 'Z' || '0' <= n[k] <= '9' || n[k] == '_'
            || n[k] == '.')
}

proof fn lemma_name_end_all(s: Seq<char>, j: int)
    requires
        0 <= j <= s.len(),
        forall|k: int| j <= k < s.len() ==> is_name_char(#[trigger] s[k]),
    ensures
        name_end(s, j) == s.len(),
    decreases s.len() - j,
{
    if j < s.len() {
        lemma_name_end_all(s, j + 1);
    }
}

/// A template reference is found with its whole name: the references of
/// `{{` + prefix + name + `}}`, for a reference name, are that one reference
/// (a variable for `:`, a prompt for `?`, a secret for `!`, a provider value
/// for `@`) with that name.
pub proof fn lemma_reference_name_found(p: char, n: Seq<char>, span: Span)
    requires
        p == ':' || p == '?' || p == '!' || p == '@',
        is_reference_name(n),
    ensures
        references_spec("{{"@ + seq![p] + n + "}}"@, span) == seq![(reference_of(p, n), span)],
        p == ':' ==> references_spec("{{"@ + seq![p] + n + "}}"@, span) == seq![(ReferenceTypeView::Variable(n), span)],
        p == '?' ==> references_spec("{{"@ + seq![p] + n + "}}"@, span) == seq![(ReferenceTypeView::Prompt(n), span)],
        p == '!' ==> references_spec("{{"@ + seq![p] + n + "}}"@, span) == seq![(ReferenceTypeView::Secret(n), span)],
        p == '@' ==> references_spec("{{"@ + seq![p] + n + "}}"@, span) == seq![(ReferenceTypeView::Provider(n), span)],
{
    reveal_strlit("{{");
    reveal_strlit("}}");
    let s = "{{"@ + seq![p] + n + "}}"@;
    let len = s.len() as int;
    assert(len == n.len() + 5);
    assert(s[0] == '{' && s[1] == '{' && s[2] == p);
    assert(s[len - 2] == '}' && s[len - 1] == '}');
    assert forall|k: int| 0 <= k < n.len() implies s[k + 3] == n[k] by {}
    assert forall|k: int| 0 <= k < len implies #[trigger] s[k] != '\n' by {
        if 3 <= k < len - 2 {
            assert(s[k] == n[k - 3]);
        }
    }
    lemma_line_end(s, 2);
    assert(line_end(s, 2) == len);
    assert(ref_close(s, 0) == len - 2);
    let g = s.subrange(2, len - 2);
    assert(g =~= seq![p] + n);
    assert(ref_groups(s, len) == Seq::<Seq<char>>::empty());
    assert(ref_groups(s, 0) == seq![g] + ref_groups(s, len));
    assert(ref_groups(s, 0) =~= seq![g]);
    assert(seq![g].drop_last() =~= Seq::<Seq<char>>::empty());
    assert(refs_in_groups(seq![g]) == refs_in_groups(Seq::<Seq<char>>::empty()) + inner_refs(g, 0));
    assert forall|k: int| 2 <= k < g.len() implies is_name_char(#[trigger] g[k]) by {
        assert(g[k] == n[k - 1]);
    }
    lemma_name_end_all(g, 2);
    assert(g[1] == n[0]);
    assert(is_ascii_alpha(g[1]));
    assert(is_ref_prefix(g[0]));
    assert(g.subrange(1, g.len() as int) =~= n);
    assert(inner_refs(g, g.len() as int) == Seq::<(char, Seq<char>)>::empty());
    assert(inner_refs(g, 0) == seq![(g[0], g.subrange(1, g.len() as int))] + inner_refs(g, g.len() as int));
    assert(inner_refs(g, 0) =~= seq![(p, n)]);
    assert(refs_in_groups(seq![g]) =~= seq![(p, n)]);
    assert(spanned_refs(seq![(p, n)], span) =~= seq![(reference_of(p, n), span)]);
}

} // verus!
