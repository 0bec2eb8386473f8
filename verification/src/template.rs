//! The client template: `${...}` interpolations, the static strings between
//! them, SSR slot markers, and the `<template ...>` wrapper.
use vstd::prelude::*;

use crate::chars;

verus! {

// ---------------------------------------------------------------------------
// Specifications
// ---------------------------------------------------------------------------

/// An interpolation `${` starts at index `i` of `s`.
pub open spec fn expr_starts(s: Seq<char>, i: int) -> bool {
    0 <= i && i + 1 < s.len() && s[i] == '$' && s[i + 1] == '{'
}

/// Scanning `s` from index `i` with `depth` unclosed `{`, the index just past
/// the `}` that closes them all, or `s.len()` when they never close.
pub open spec fn expr_end(s: Seq<char>, i: int, depth: nat) -> int
    decreases s.len() - i,
{
    if depth == 0 || i >= s.len() {
        i
    } else if s[i] == '{' {
        expr_end(s, i + 1, depth + 1)
    } else if s[i] == '}' {
        expr_end(s, i + 1, (depth - 1) as nat)
    } else {
        expr_end(s, i + 1, depth)
    }
}

/// `pre` put in front of the first element of `ps`.
pub open spec fn prefix_first(pre: Seq<char>, ps: Seq<Seq<char>>) -> Seq<Seq<char>> {
    ps.update(0, pre + ps[0])
}

/// The static strings of `s` from index `i` on: the text between the
/// interpolations, the first element being the text before the first one.
pub open spec fn template_parts(s: Seq<char>, i: int) -> Seq<Seq<char>>
    decreases s.len() - i,
{
    if i >= s.len() {
        seq![Seq::<char>::empty()]
    } else if expr_starts(s, i) {
        proof {
            lemma_expr_end_bounds(s, i + 2, 1);
        }
        seq![Seq::<char>::empty()] + template_parts(s, expr_end(s, i + 2, 1))
    } else {
        prefix_first(seq![s[i]], template_parts(s, i + 1))
    }
}

/// The number of interpolations in `s` from index `i` on.
pub open spec fn count_exprs(s: Seq<char>, i: int) -> nat
    decreases s.len() - i,
{
    if i >= s.len() {
        0
    } else if expr_starts(s, i) {
        proof {
            lemma_expr_end_bounds(s, i + 2, 1);
        }
        1 + count_exprs(s, expr_end(s, i + 2, 1))
    } else {
        count_exprs(s, i + 1)
    }
}

/// The empty SSR slot that stands where an interpolation stood.
pub open spec fn slot_marker() -> Seq<char> {
    "<!--lit-part--><!--/lit-part-->"@
}

/// `s` from index `i` on, each interpolation replaced by the slot marker.
pub open spec fn with_slots(s: Seq<char>, i: int) -> Seq<char>
    decreases s.len() - i,
{
    if i >= s.len() {
        Seq::empty()
    } else if expr_starts(s, i) {
        proof {
            lemma_expr_end_bounds(s, i + 2, 1);
        }
        slot_marker() + with_slots(s, expr_end(s, i + 2, 1))
    } else {
        seq![s[i]] + with_slots(s, i + 1)
    }
}

/// The elements of `ps` joined by `sep`.
pub open spec fn join(ps: Seq<Seq<char>>, sep: Seq<char>) -> Seq<char>
    decreases ps.len(),
{
    if ps.len() == 0 {
        Seq::empty()
    } else if ps.len() == 1 {
        ps[0]
    } else {
        ps[0] + sep + join(ps.drop_first(), sep)
    }
}

/// The `<template ...>` wrapper is there: `t` opens and closes with it.
pub open spec fn is_wrapped(t: Seq<char>) -> bool {
    chars::starts_with(t, "<template"@) && chars::ends_with(t, "</template>"@)
}

/// The wrapper can be cut away: where `s` is wrapped, the first `>` stands
/// before the closing `</template>`.
pub open spec fn wrapper_in_order(s: Seq<char>) -> bool {
    let t = chars::trim(s);
    is_wrapped(t) ==> (chars::first_index_of(t, '>') matches Some(k) && k + 1 <= t.len()
        - "</template>"@.len())
}

/// `s` without its `<template ...>` ... `</template>` wrapper; `s` itself when
/// it has none.
pub open spec fn strip_wrapper(s: Seq<char>) -> Seq<char> {
    let t = chars::trim(s);
    if is_wrapped(t) {
        match chars::first_index_of(t, '>') {
            Some(k) => t.subrange(k + 1, t.len() - "</template>"@.len()),
            None => s,
        }
    } else {
        s
    }
}

/// The opening `<template ...>` tag of `s`, if it starts with one.
pub open spec fn open_tag(s: Seq<char>) -> Option<Seq<char>> {
    let t = chars::trim(s);
    if chars::starts_with(t, "<template"@) {
        match chars::first_index_of(t, '>') {
            Some(k) => Some(t.take(k + 1)),
            None => None,
        }
    } else {
        None
    }
}

/// The template content the client renders: `s` unwrapped and trimmed.
pub open spec fn client_content(s: Seq<char>) -> Seq<char> {
    chars::trim(strip_wrapper(s))
}

// ---------------------------------------------------------------------------
// Lemmas
// ---------------------------------------------------------------------------

pub proof fn lemma_expr_end_bounds(s: Seq<char>, i: int, depth: nat)
    ensures
        i <= expr_end(s, i, depth),
        i <= s.len() ==> expr_end(s, i, depth) <= s.len(),
    decreases s.len() - i,
{
    if depth == 0 || i >= s.len() {
    } else if s[i] == '{' {
        lemma_expr_end_bounds(s, i + 1, depth + 1);
    } else if s[i] == '}' {
        lemma_expr_end_bounds(s, i + 1, (depth - 1) as nat);
    } else {
        lemma_expr_end_bounds(s, i + 1, depth);
    }
}

pub proof fn lemma_template_parts_len(s: Seq<char>, i: int)
    ensures
        template_parts(s, i).len() == count_exprs(s, i) + 1,
    decreases s.len() - i,
{
    if i >= s.len() {
    } else if expr_starts(s, i) {
        lemma_expr_end_bounds(s, i + 2, 1);
        lemma_template_parts_len(s, expr_end(s, i + 2, 1));
    } else {
        lemma_template_parts_len(s, i + 1);
    }
}

/// Replacing each interpolation by the slot marker gives the static strings
/// joined by the slot marker.
pub proof fn lemma_with_slots_join(s: Seq<char>, i: int)
    ensures
        with_slots(s, i) == join(template_parts(s, i), slot_marker()),
    decreases s.len() - i,
{
    if i >= s.len() {
    } else if expr_starts(s, i) {
        let j = expr_end(s, i + 2, 1);
        lemma_expr_end_bounds(s, i + 2, 1);
        lemma_with_slots_join(s, j);
        lemma_template_parts_len(s, j);
        let ps = seq![Seq::<char>::empty()] + template_parts(s, j);
        assert(ps.drop_first() =~= template_parts(s, j));
        assert(Seq::<char>::empty() + slot_marker() + join(template_parts(s, j), slot_marker())
            =~= slot_marker() + join(template_parts(s, j), slot_marker()));
    } else {
        let p = template_parts(s, i + 1);
        lemma_with_slots_join(s, i + 1);
        lemma_template_parts_len(s, i + 1);
        let q = prefix_first(seq![s[i]], p);
        if p.len() == 1 {
        } else {
            assert(q.drop_first() =~= p.drop_first());
            assert(q[0] + slot_marker() + join(q.drop_first(), slot_marker()) =~= seq![s[i]] + (
            p[0] + slot_marker() + join(p.drop_first(), slot_marker())));
        }
    }
}

// ---------------------------------------------------------------------------
// Executable code
// ---------------------------------------------------------------------------

/// Index just past the `}` that closes an interpolation whose body starts at
/// `start`.
pub fn skip_expr(v: &Vec<char>, start: usize) -> (res: usize)
    requires
        1 <= start <= v.len(),
    ensures
        res == expr_end(v@, start as int, 1),
        start <= res <= v.len(),
{
    let len = v.len();
    let mut i = start;
    let mut depth: usize = 1;
    while i < len && depth > 0
        invariant
            1 <= start <= i <= len == v.len(),
            depth + start <= i + 1,
            expr_end(v@, start as int, 1) == expr_end(v@, i as int, depth as nat),
        decreases len - i,
    {
        if v[i] == '{' {
            depth = depth + 1;
        } else if v[i] == '}' {
            depth = depth - 1;
        }
        i = i + 1;
    }
    i
}

/// `v[i..]` starts an interpolation.
pub fn expr_starts_exec(v: &Vec<char>, i: usize) -> (res: bool)
    ensures
        res == expr_starts(v@, i as int),
{
    i < v.len() && v[i] == '$' && i + 1 < v.len() && v[i + 1] == '{'
}

/// The static strings between the interpolations of `v`.
pub fn split_parts(v: &Vec<char>) -> (res: Vec<Vec<char>>)
    ensures
        res.deep_view() == template_parts(v@, 0),
{
    let mut strings: Vec<Vec<char>> = Vec::new();
    let mut current: Vec<char> = Vec::new();
    let len = v.len();
    let mut i: usize = 0;
    proof {
        lemma_template_parts_len(v@, 0);
        assert(prefix_first(current@, template_parts(v@, 0)) =~= template_parts(v@, 0));
    }
    while i < len
        invariant
            i <= len == v.len(),
            template_parts(v@, 0) == strings.deep_view() + prefix_first(
                current@,
                template_parts(v@, i as int),
            ),
        decreases len - i,
    {
        proof {
            lemma_template_parts_len(v@, i as int);
        }
        if expr_starts_exec(v, i) {
            let j = skip_expr(v, i + 2);
            proof {
                let p = template_parts(v@, j as int);
                lemma_template_parts_len(v@, j as int);
                assert(prefix_first(current@, seq![Seq::<char>::empty()] + p) =~= seq![current@]
                    + p);
                assert(prefix_first(Seq::<char>::empty(), p) =~= p);
            }
            let ghost old_dv = strings.deep_view();
            assert(current.deep_view() =~= current@);
            strings.push(current);
            assert(strings.deep_view() =~= old_dv.push(current@));
            current = Vec::new();
            proof {
                assert(old_dv + (seq![strings@.last()@] + template_parts(v@, j as int)) =~= strings.deep_view()
                    + prefix_first(current@, template_parts(v@, j as int)));
            }
            i = j;
        } else {
            proof {
                let p = template_parts(v@, i + 1);
                lemma_template_parts_len(v@, i + 1);
                assert(current@ + (seq![v@[i as int]] + p[0]) =~= current@.push(v@[i as int]) + p[0]);
                assert(prefix_first(current@, prefix_first(seq![v@[i as int]], p)) =~= prefix_first(
                    current@.push(v@[i as int]),
                    p,
                ));
            }
            current.push(v[i]);
            i = i + 1;
        }
    }
    let ghost old_dv = strings.deep_view();
    assert(current.deep_view() =~= current@);
    strings.push(current);
    assert(strings.deep_view() =~= old_dv.push(current@));
    assert(prefix_first(current@, seq![Seq::<char>::empty()]) =~= seq![current@]);
    strings
}

/// `v` with each interpolation replaced by the empty SSR slot.
pub fn replace_with_slots(v: &Vec<char>) -> (res: Vec<char>)
    ensures
        res@ == with_slots(v@, 0),
{
    let mut out: Vec<char> = Vec::new();
    let len = v.len();
    let mut i: usize = 0;
    while i < len
        invariant
            i <= len == v.len(),
            with_slots(v@, 0) == out@ + with_slots(v@, i as int),
        decreases len - i,
    {
        if expr_starts_exec(v, i) {
            let j = skip_expr(v, i + 2);
            let ghost old_out = out@;
            chars::extend_str(&mut out, "<!--lit-part--><!--/lit-part-->");
            assert(old_out + (slot_marker() + with_slots(v@, j as int)) =~= out@ + with_slots(
                v@,
                j as int,
            ));
            i = j;
        } else {
            let ghost old_out = out@;
            out.push(v[i]);
            assert(old_out + (seq![v@[i as int]] + with_slots(v@, i + 1)) =~= out@ + with_slots(
                v@,
                i + 1,
            ));
            i = i + 1;
        }
    }
    assert(out@ + Seq::<char>::empty() =~= out@);
    out
}

/// The wrapper of `v` can be cut away (see `wrapper_in_order`).
pub fn wrapper_in_order_exec(v: &Vec<char>) -> (res: bool)
    ensures
        res == wrapper_in_order(v@),
{
    let t = chars::trimmed(v);
    let open = chars::chars_of("<template");
    let close = chars::chars_of("</template>");
    if chars::starts_with_exec(&t, &open) && chars::ends_with_exec(&t, &close) {
        match chars::find_char(&t, '>') {
            Some(k) => k < t.len() - close.len(),
            None => false,
        }
    } else {
        true
    }
}

/// `v` without its `<template ...>` wrapper.
pub fn strip_template_wrapper(v: &Vec<char>) -> (res: Vec<char>)
    requires
        wrapper_in_order(v@),
    ensures
        res@ == strip_wrapper(v@),
{
    let t = chars::trimmed(v);
    let open = chars::chars_of("<template");
    let close = chars::chars_of("</template>");
    if chars::starts_with_exec(&t, &open) && chars::ends_with_exec(&t, &close) {
        if let Some(open_end) = chars::find_char(&t, '>') {
            let close_start = t.len() - close.len();
            return chars::subrange(&t, open_end + 1, close_start);
        }
    }
    v.clone()
}

/// The opening `<template ...>` tag of `v`, if it starts with one.
pub fn extract_template_open_tag(v: &Vec<char>) -> (res: Option<Vec<char>>)
    ensures
        res matches Some(r) ==> open_tag(v@) == Some(r@),
        res is None ==> open_tag(v@) is None,
{
    let t = chars::trimmed(v);
    let open = chars::chars_of("<template");
    if chars::starts_with_exec(&t, &open) {
        if let Some(end) = chars::find_char(&t, '>') {
            proof {
                chars::lemma_first_index_of_bounds(t@, '>');
                assert(end < t@.len());
            }
            return Some(chars::subrange(&t, 0, end + 1));
        }
    }
    None
}

/// The trimmed, unwrapped client template content of `v`.
pub fn client_content_of(v: &Vec<char>) -> (res: Vec<char>)
    requires
        wrapper_in_order(v@),
    ensures
        res@ == client_content(v@),
{
    let stripped = strip_template_wrapper(v);
    chars::trimmed(&stripped)
}

} // verus!
