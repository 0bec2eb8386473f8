//! Liquid `{{ ... }}` blocks: pipe splitting, filter parsing, the translation
//! of a filter chain to JavaScript, and the extraction of `csr` bindings.
use vstd::prelude::*;

use crate::chars;
use crate::template;
use crate::Binding;

verus! {

/// A filter as the library sees it: its name and its arguments.
pub type FilterModel = (Seq<char>, Seq<Seq<char>>);

/// A binding as the library sees it: the variable and the filters before `csr`.
pub type BindingModel = (Seq<char>, Seq<FilterModel>);

/// What the processing of a piece of template text gives: the JavaScript that
/// replaces it, the bindings it holds, and the names of the unknown filters that
/// translation dropped; `None` where a filter that needs an argument has none.
pub type Processed = Option<(Seq<char>, Seq<BindingModel>, Seq<Seq<char>>)>;

// ---------------------------------------------------------------------------
// Specifications: splitting and filters
// ---------------------------------------------------------------------------

/// The raw pieces of `s` from index `i` on, split at each `|` outside double
/// quotes (inside quotes a backslash keeps the next character); the first piece
/// is the one in progress at `i`.
pub open spec fn pipe_pieces(s: Seq<char>, i: int, in_quotes: bool) -> Seq<Seq<char>>
    decreases s.len() - i,
{
    if i >= s.len() {
        seq![Seq::<char>::empty()]
    } else if s[i] == '"' {
        template::prefix_first(seq!['"'], pipe_pieces(s, i + 1, !in_quotes))
    } else if s[i] == '\\' && in_quotes {
        if i + 1 < s.len() {
            template::prefix_first(seq!['\\', s[i + 1]], pipe_pieces(s, i + 2, in_quotes))
        } else {
            template::prefix_first(seq!['\\'], pipe_pieces(s, i + 1, in_quotes))
        }
    } else if s[i] == '|' && !in_quotes {
        seq![Seq::<char>::empty()] + pipe_pieces(s, i + 1, in_quotes)
    } else {
        template::prefix_first(seq![s[i]], pipe_pieces(s, i + 1, in_quotes))
    }
}

/// The segments of a Liquid expression: its pipe pieces, trimmed, the last one
/// left out when it is empty after trimming.
pub open spec fn split_pipe(s: Seq<char>) -> Seq<Seq<char>> {
    let raw = pipe_pieces(s, 0, false);
    let done = raw.drop_last().map_values(|p: Seq<char>| chars::trim(p));
    let tail = chars::trim(raw.last());
    if tail.len() > 0 {
        done.push(tail)
    } else {
        done
    }
}

/// A filter segment such as `plus: 1`: the name before the first `:` and the
/// text after it as the one argument, both trimmed; no argument without `:`.
pub open spec fn parse_filter(seg: Seq<char>) -> FilterModel {
    match chars::first_index_of(seg, ':') {
        Some(pos) => (chars::trim(seg.take(pos)), seq![chars::trim(seg.skip(pos + 1))]),
        None => (chars::trim(seg), Seq::empty()),
    }
}

/// The `k`-th argument, or `d` when there are not that many.
pub open spec fn arg_or(args: Seq<Seq<char>>, k: int, d: Seq<char>) -> Seq<char> {
    if k < args.len() {
        args[k]
    } else {
        d
    }
}

/// The JavaScript for the Liquid filter `name` with arguments `args` applied to
/// the JavaScript expression `e`. An unknown filter leaves `e` as it is; a
/// filter that needs an argument and has none gives `None`.
pub open spec fn filter_js(e: Seq<char>, name: Seq<char>, args: Seq<Seq<char>>) -> Option<
    Seq<char>,
> {
    let has_arg = args.len() > 0;
    let a = arg_or(args, 0, Seq::empty());
    if name == "capitalize"@ {
        Some("("@ + e + ".charAt(0).toUpperCase()+"@ + e + ".slice(1).toLowerCase())"@)
    } else if name == "upcase"@ {
        Some(e + ".toUpperCase()"@)
    } else if name == "downcase"@ {
        Some(e + ".toLowerCase()"@)
    } else if name == "strip"@ {
        Some(e + ".trim()"@)
    } else if name == "plus"@ {
        if has_arg {
            Some("("@ + e + "+"@ + a + ")"@)
        } else {
            None
        }
    } else if name == "minus"@ {
        if has_arg {
            Some("("@ + e + "-"@ + a + ")"@)
        } else {
            None
        }
    } else if name == "times"@ {
        if has_arg {
            Some("("@ + e + "*"@ + a + ")"@)
        } else {
            None
        }
    } else if name == "divided_by"@ {
        if has_arg {
            Some("("@ + e + "/"@ + a + ")"@)
        } else {
            None
        }
    } else if name == "modulo"@ {
        if has_arg {
            Some("("@ + e + "%"@ + a + ")"@)
        } else {
            None
        }
    } else if name == "floor"@ {
        Some("Math.floor("@ + e + ")"@)
    } else if name == "ceil"@ {
        Some("Math.ceil("@ + e + ")"@)
    } else if name == "round"@ {
        Some("Math.round("@ + e + ")"@)
    } else if name == "abs"@ {
        Some("Math.abs("@ + e + ")"@)
    } else if name == "append"@ {
        if has_arg {
            Some("("@ + e + "+"@ + a + ")"@)
        } else {
            None
        }
    } else if name == "prepend"@ {
        if has_arg {
            Some("("@ + a + "+"@ + e + ")"@)
        } else {
            None
        }
    } else if name == "default"@ {
        if has_arg {
            Some("("@ + e + "??"@ + a + ")"@)
        } else {
            None
        }
    } else if name == "size"@ {
        Some(e + ".length"@)
    } else if name == "at_least"@ {
        if has_arg {
            Some("Math.max("@ + e + ","@ + a + ")"@)
        } else {
            None
        }
    } else if name == "at_most"@ {
        if has_arg {
            Some("Math.min("@ + e + ","@ + a + ")"@)
        } else {
            None
        }
    } else if name == "truncate"@ {
        let n = arg_or(args, 0, "50"@);
        Some("("@ + e + ".length>"@ + n + "?"@ + e + ".slice(0,"@ + n + ")+'...':String("@ + e
            + "))"@)
    } else if name == "replace"@ {
        Some(e + ".replaceAll("@ + arg_or(args, 0, "\"\""@) + ","@ + arg_or(args, 1, "\"\""@)
            + ")"@)
    } else if name == "remove"@ {
        Some(e + ".replaceAll("@ + arg_or(args, 0, "\"\""@) + ",\"\")"@)
    } else if name == "join"@ {
        Some(e + ".join("@ + arg_or(args, 0, "\", \""@) + ")"@)
    } else if name == "first"@ {
        Some(e + "[0]"@)
    } else if name == "last"@ {
        Some(e + "["@ + e + ".length-1]"@)
    } else if name == "reverse"@ {
        Some("[..."@ + e + "].reverse()"@)
    } else if name == "url_encode"@ {
        Some("encodeURIComponent("@ + e + ")"@)
    } else if name == "url_decode"@ {
        Some("decodeURIComponent("@ + e + ")"@)
    } else {
        Some(e)
    }
}

/// The JavaScript for `ctx.<var>` with `filters` applied in order.
pub open spec fn translate_chain(var: Seq<char>, filters: Seq<FilterModel>) -> Option<Seq<char>>
    decreases filters.len(),
{
    if filters.len() == 0 {
        Some("ctx."@ + var)
    } else {
        match translate_chain(var, filters.drop_last()) {
            Some(e) => filter_js(e, filters.last().0, filters.last().1),
            None => None,
        }
    }
}

// ---------------------------------------------------------------------------
// Specifications: blocks and content
// ---------------------------------------------------------------------------

/// Scanning `s` from `j`, the index of the closing `"` of a quoted string
/// (a backslash skips the next character), or `s.len()`.
pub open spec fn quoted_end(s: Seq<char>, j: int) -> int
    decreases s.len() - j,
{
    if j >= s.len() || s[j] == '"' {
        j
    } else if s[j] == '\\' && j + 1 < s.len() {
        quoted_end(s, j + 2)
    } else {
        quoted_end(s, j + 1)
    }
}

/// The JavaScript for a `csr` segment `t` of a block whose variable is `var`
/// and whose filters before `t` are `filters`: with `csr: "..."` the quoted
/// text with `this.` made `ctx.`; with `csr:` and no quote nothing; with bare
/// `csr` the filter chain translated and put in `${...}`.
pub open spec fn csr_expression(t: Seq<char>, var: Seq<char>, filters: Seq<FilterModel>) -> Option<
    Seq<char>,
> {
    let rest = chars::trim(t.skip("csr"@.len() as int));
    if rest.len() > 0 && rest[0] == ':' {
        let after = chars::trim(rest.skip(1));
        if after.len() > 0 && after[0] == '"' {
            let inner = after.skip(1);
            Some(chars::replace_all(inner.take(quoted_end(inner, 0)), "this."@, "ctx."@))
        } else {
            Some(Seq::empty())
        }
    } else {
        match translate_chain(var, filters) {
            Some(e) => Some("${"@ + e + "}"@),
            None => None,
        }
    }
}

/// The filters that filter translation knows.
pub open spec fn known_filter(name: Seq<char>) -> bool {
    ||| name == "capitalize"@
    ||| name == "upcase"@
    ||| name == "downcase"@
    ||| name == "strip"@
    ||| name == "plus"@
    ||| name == "minus"@
    ||| name == "times"@
    ||| name == "divided_by"@
    ||| name == "modulo"@
    ||| name == "floor"@
    ||| name == "ceil"@
    ||| name == "round"@
    ||| name == "abs"@
    ||| name == "append"@
    ||| name == "prepend"@
    ||| name == "default"@
    ||| name == "size"@
    ||| name == "at_least"@
    ||| name == "at_most"@
    ||| name == "truncate"@
    ||| name == "replace"@
    ||| name == "remove"@
    ||| name == "join"@
    ||| name == "first"@
    ||| name == "last"@
    ||| name == "reverse"@
    ||| name == "url_encode"@
    ||| name == "url_decode"@
}

/// The names of the unknown filters among `filters`, in order.
pub open spec fn unknown_names(filters: Seq<FilterModel>) -> Seq<Seq<char>>
    decreases filters.len(),
{
    if filters.len() == 0 {
        Seq::empty()
    } else {
        let rest = unknown_names(filters.drop_last());
        if known_filter(filters.last().0) {
            rest
        } else {
            rest.push(filters.last().0)
        }
    }
}

/// The `csr` segment `t` has no explicit argument, so its filter chain is
/// translated.
pub open spec fn csr_translates(t: Seq<char>) -> bool {
    let rest = chars::trim(t.skip("csr"@.len() as int));
    !(rest.len() > 0 && rest[0] == ':')
}

/// The filter names that translating the `csr` segment `t` drops.
pub open spec fn csr_warnings(t: Seq<char>, filters: Seq<FilterModel>) -> Seq<Seq<char>> {
    if csr_translates(t) {
        unknown_names(filters)
    } else {
        Seq::empty()
    }
}

/// The marker of a client value, `clientTemplateValue(expr)`.
pub open spec fn client_value_marker() -> Seq<char> {
    "clientTemplateValue("@
}

/// Scanning `s` from `i` with `depth` unclosed `(`, the index of the `)` that
/// closes them all, or `s.len()`.
pub open spec fn paren_close(s: Seq<char>, i: int, depth: nat) -> int
    decreases s.len() - i,
{
    if i >= s.len() {
        s.len() as int
    } else if s[i] == '(' {
        paren_close(s, i + 1, depth + 1)
    } else if s[i] == ')' {
        if depth <= 1 {
            i
        } else {
            paren_close(s, i + 1, (depth - 1) as nat)
        }
    } else {
        paren_close(s, i + 1, depth)
    }
}

/// The client expression of a segment `clientTemplateValue(expr)`: the text
/// inside the parentheses, trimmed.
pub open spec fn client_value(t: Seq<char>) -> Seq<char> {
    let inner = t.skip(client_value_marker().len() as int);
    chars::trim(inner.take(paren_close(inner, 0, 1)))
}

/// The filters of the segments `segs[1..i]`.
pub open spec fn filters_before(segs: Seq<Seq<char>>, i: int) -> Seq<FilterModel> {
    segs.subrange(1, i).map_values(|s: Seq<char>| parse_filter(chars::trim(s)))
}

/// The output of the first `n` segments of a block: each segment after the
/// first that starts with `csr` or `clientTemplateValue(` adds its JavaScript
/// and a binding.
pub open spec fn block_upto(segs: Seq<Seq<char>>, n: int) -> Processed
    decreases n,
{
    if n <= 0 {
        Some((Seq::empty(), Seq::empty(), Seq::empty()))
    } else {
        match block_upto(segs, n - 1) {
            None => None,
            Some(acc) => {
                let i = n - 1;
                let t = chars::trim(segs[i]);
                let var = chars::trim(segs[0]);
                let filters = filters_before(segs, i);
                if i == 0 {
                    Some(acc)
                } else if chars::starts_with(t, "csr"@) {
                    match csr_expression(t, var, filters) {
                        None => None,
                        Some(js) => Some(
                            (
                                acc.0 + js,
                                acc.1.push((var, filters)),
                                acc.2 + csr_warnings(t, filters),
                            ),
                        ),
                    }
                } else if chars::starts_with(t, client_value_marker()) {
                    Some((acc.0 + client_value(t), acc.1.push((var, filters)), acc.2))
                } else {
                    Some(acc)
                }
            },
        }
    }
}

/// The JavaScript and the bindings of one `{{ expr }}` block: nothing when
/// `expr` mentions neither `csr` nor `clientTemplateValue(`.
pub open spec fn liquid_block(expr: Seq<char>) -> Processed {
    if !chars::contains_seq(expr, "csr"@) && !chars::contains_seq(expr, client_value_marker()) {
        Some((Seq::empty(), Seq::empty(), Seq::empty()))
    } else {
        let segs = split_pipe(expr);
        block_upto(segs, segs.len() as int)
    }
}

/// Scanning `s` from `j`, the index of the first `}}`, or the last index
/// scanned when there is none.
pub open spec fn close_pos(s: Seq<char>, j: int) -> int
    decreases s.len() - j,
{
    if j + 1 >= s.len() || (s[j] == '}' && s[j + 1] == '}') {
        j
    } else {
        close_pos(s, j + 1)
    }
}

/// `(out, bs, ws)` put in front of the processed rest `r`.
pub open spec fn prepend(
    out: Seq<char>,
    bs: Seq<BindingModel>,
    ws: Seq<Seq<char>>,
    r: Processed,
) -> Processed {
    match r {
        Some(x) => Some((out + x.0, bs + x.1, ws + x.2)),
        None => None,
    }
}

/// A complete `{{ ... }}` block starts at index `i` of `s`.
pub open spec fn block_at(s: Seq<char>, i: int) -> bool {
    0 <= i && i + 1 < s.len() && s[i] == '{' && s[i + 1] == '{' && close_pos(s, i + 2) + 1 < s.len()
}

/// The processed template text of `s` from index `i` on: text outside
/// complete `{{ ... }}` blocks is kept, each block is replaced by its
/// JavaScript.
pub open spec fn content_from(s: Seq<char>, i: int) -> Processed
    decreases s.len() - i,
{
    if i >= s.len() {
        Some((Seq::empty(), Seq::empty(), Seq::empty()))
    } else if block_at(s, i) {
        let j = close_pos(s, i + 2);
        proof {
            lemma_close_pos_bounds(s, i + 2);
        }
        match liquid_block(s.subrange(i + 2, j)) {
            None => None,
            Some(b) => prepend(b.0, b.1, b.2, content_from(s, j + 2)),
        }
    } else {
        prepend(seq![s[i]], Seq::empty(), Seq::empty(), content_from(s, i + 1))
    }
}

/// The processed template text of `s`.
pub open spec fn liquid_content(s: Seq<char>) -> Processed {
    content_from(s, 0)
}

// ---------------------------------------------------------------------------
// Lemmas
// ---------------------------------------------------------------------------

pub proof fn lemma_close_pos_bounds(s: Seq<char>, j: int)
    ensures
        j <= close_pos(s, j),
        close_pos(s, j) + 1 < s.len() ==> s[close_pos(s, j)] == '}' && s[close_pos(s, j) + 1]
            == '}',
    decreases s.len() - j,
{
    if !(j + 1 >= s.len() || (s[j] == '}' && s[j + 1] == '}')) {
        lemma_close_pos_bounds(s, j + 1);
    }
}

pub proof fn lemma_pipe_pieces_len(s: Seq<char>, i: int, q: bool)
    ensures
        pipe_pieces(s, i, q).len() >= 1,
    decreases s.len() - i,
{
    if i >= s.len() {
    } else if s[i] == '"' {
        lemma_pipe_pieces_len(s, i + 1, !q);
    } else if s[i] == '\\' && q {
        if i + 1 < s.len() {
            lemma_pipe_pieces_len(s, i + 2, q);
        } else {
            lemma_pipe_pieces_len(s, i + 1, q);
        }
    } else if s[i] == '|' && !q {
        lemma_pipe_pieces_len(s, i + 1, q);
    } else {
        lemma_pipe_pieces_len(s, i + 1, q);
    }
}

proof fn lemma_prepend_assoc(
    a: Seq<char>,
    b: Seq<BindingModel>,
    w: Seq<Seq<char>>,
    c: Seq<char>,
    d: Seq<BindingModel>,
    v: Seq<Seq<char>>,
    r: Processed,
)
    ensures
        prepend(a, b, w, prepend(c, d, v, r)) == prepend(a + c, b + d, w + v, r),
{
    if let Some(x) = r {
        assert(a + (c + x.0) =~= (a + c) + x.0);
        assert(b + (d + x.1) =~= (b + d) + x.1);
        assert(w + (v + x.2) =~= (w + v) + x.2);
    }
}

proof fn lemma_prefix_first_step(cur: Seq<char>, pre: Seq<char>, p: Seq<Seq<char>>)
    requires
        p.len() >= 1,
    ensures
        template::prefix_first(cur, template::prefix_first(pre, p)) == template::prefix_first(
            cur + pre,
            p,
        ),
{
    assert(cur + (pre + p[0]) =~= (cur + pre) + p[0]);
    assert(template::prefix_first(cur, template::prefix_first(pre, p)) =~= template::prefix_first(
        cur + pre,
        p,
    ));
}

// ---------------------------------------------------------------------------
// Executable code
// ---------------------------------------------------------------------------

/// The segments of the Liquid expression `e` (see `split_pipe`).
pub fn split_pipe_exec(e: &Vec<char>) -> (res: Vec<Vec<char>>)
    ensures
        res.deep_view() == split_pipe(e@),
{
    let mut segments: Vec<Vec<char>> = Vec::new();
    let mut current: Vec<char> = Vec::new();
    let mut in_quotes = false;
    let len = e.len();
    let mut i: usize = 0;
    let ghost mut raw_done: Seq<Seq<char>> = Seq::empty();
    proof {
        lemma_pipe_pieces_len(e@, 0, false);
        assert(template::prefix_first(current@, pipe_pieces(e@, 0, false)) =~= pipe_pieces(
            e@,
            0,
            false,
        ));
        assert(raw_done + pipe_pieces(e@, 0, false) =~= pipe_pieces(e@, 0, false));
    }
    while i < len
        invariant
            i <= len == e.len(),
            pipe_pieces(e@, 0, false) == raw_done + template::prefix_first(
                current@,
                pipe_pieces(e@, i as int, in_quotes),
            ),
            segments.deep_view() == raw_done.map_values(|p: Seq<char>| chars::trim(p)),
        decreases len - i,
    {
        let c = e[i];
        if c == '"' {
            proof {
                lemma_pipe_pieces_len(e@, i + 1, !in_quotes);
                lemma_prefix_first_step(current@, seq!['"'], pipe_pieces(e@, i + 1, !in_quotes));
            }
            let ghost before = current@;
            current.push('"');
            assert(current@ =~= before + seq!['"']);
            in_quotes = !in_quotes;
            i = i + 1;
        } else if c == '\\' && in_quotes {
            if i + 1 < len {
                proof {
                    lemma_pipe_pieces_len(e@, i + 2, in_quotes);
                    lemma_prefix_first_step(
                        current@,
                        seq!['\\', e@[i + 1]],
                        pipe_pieces(e@, i + 2, in_quotes),
                    );
                }
                let ghost before = current@;
                current.push('\\');
                current.push(e[i + 1]);
                assert(current@ =~= before + seq!['\\', e@[i + 1]]);
                i = i + 2;
            } else {
                proof {
                    lemma_pipe_pieces_len(e@, i + 1, in_quotes);
                    lemma_prefix_first_step(current@, seq!['\\'], pipe_pieces(e@, i + 1, in_quotes));
                }
                let ghost before = current@;
                current.push('\\');
                assert(current@ =~= before + seq!['\\']);
                i = i + 1;
            }
        } else if c == '|' && !in_quotes {
            let p = Ghost(pipe_pieces(e@, i + 1, in_quotes));
            proof {
                lemma_pipe_pieces_len(e@, i + 1, in_quotes);
                assert(template::prefix_first(current@, seq![Seq::<char>::empty()] + p@) =~= seq![
                    current@,
                ] + p@);
                assert(template::prefix_first(Seq::<char>::empty(), p@) =~= p@);
                assert(raw_done + (seq![current@] + p@) =~= raw_done.push(current@) + p@);
            }
            let t = chars::trimmed(&current);
            let ghost old_dv = segments.deep_view();
            assert(t.deep_view() =~= t@);
            segments.push(t);
            proof {
                assert(segments.deep_view() =~= old_dv.push(chars::trim(current@)));
                assert(raw_done.push(current@).map_values(|p: Seq<char>| chars::trim(p))
                    =~= raw_done.map_values(|p: Seq<char>| chars::trim(p)).push(
                    chars::trim(current@),
                ));
                raw_done = raw_done.push(current@);
            }
            current = Vec::new();
            i = i + 1;
        } else {
            proof {
                lemma_pipe_pieces_len(e@, i + 1, in_quotes);
                lemma_prefix_first_step(current@, seq![c], pipe_pieces(e@, i + 1, in_quotes));
            }
            let ghost before = current@;
            current.push(c);
            assert(current@ =~= before + seq![c]);
            i = i + 1;
        }
    }
    let ghost raw = pipe_pieces(e@, 0, false);
    assert(template::prefix_first(current@, seq![Seq::<char>::empty()]) =~= seq![current@]);
    assert(raw =~= raw_done.push(current@));
    assert(raw.drop_last() =~= raw_done);
    let tail = chars::trimmed(&current);
    if tail.len() > 0 {
        let ghost old_dv = segments.deep_view();
        assert(tail.deep_view() =~= tail@);
        segments.push(tail);
        assert(segments.deep_view() =~= old_dv.push(chars::trim(raw.last())));
    }
    segments
}

/// The filter of the segment `seg` (see `parse_filter`).
pub fn parse_filter_exec(seg: &Vec<char>) -> (res: (Vec<char>, Vec<Vec<char>>))
    ensures
        (res.0@, res.1.deep_view()) == parse_filter(seg@),
{
    match chars::find_char(seg, ':') {
        Some(pos) => {
            proof {
                chars::lemma_first_index_of_bounds(seg@, ':');
            }
            let name = chars::trimmed(&chars::subrange(seg, 0, pos));
            let arg = chars::trimmed(&chars::subrange(seg, pos + 1, seg.len()));
            assert(seg@.subrange(0, pos as int) =~= seg@.take(pos as int));
            assert(seg@.subrange(pos + 1, seg@.len() as int) =~= seg@.skip(pos + 1));
            let mut args: Vec<Vec<char>> = Vec::new();
            assert(arg.deep_view() =~= arg@);
            args.push(arg);
            assert(args.deep_view() =~= seq![chars::trim(seg@.skip(pos + 1))]);
            (name, args)
        },
        None => {
            let args: Vec<Vec<char>> = Vec::new();
            assert(args.deep_view() =~= Seq::<Seq<char>>::empty());
            (chars::trimmed(seg), args)
        },
    }
}


/// The characters in an optional vector.
pub open spec fn opt_chars(o: Option<Vec<char>>) -> Option<Seq<char>> {
    match o {
        Some(v) => Some(v@),
        None => None,
    }
}

/// The bindings as the library sees them.
pub open spec fn bindings_view(bs: Seq<Binding>) -> Seq<BindingModel> {
    bs.map_values(|b: Binding| b@)
}

/// A processing result as the library sees it.
pub open spec fn processed_view(o: Option<(Vec<char>, Vec<Binding>, Vec<Vec<char>>)>) -> Processed {
    match o {
        Some(x) => Some((x.0@, bindings_view(x.1@), x.2.deep_view())),
        None => None,
    }
}

fn suffix(x: &Vec<char>, b: &str) -> (res: Vec<char>)
    ensures
        res@ == x@ + b@,
{
    let mut r = chars::subrange(x, 0, x.len());
    assert(x@.subrange(0, x@.len() as int) =~= x@);
    chars::extend_str(&mut r, b);
    r
}

fn wrap(a: &str, x: &Vec<char>, b: &str) -> (res: Vec<char>)
    ensures
        res@ == a@ + x@ + b@,
{
    let mut r = chars::chars_of(a);
    chars::extend(&mut r, x);
    chars::extend_str(&mut r, b);
    r
}

fn wrap2(a: &str, x: &Vec<char>, m: &str, y: &Vec<char>, b: &str) -> (res: Vec<char>)
    ensures
        res@ == a@ + x@ + m@ + y@ + b@,
{
    let mut r = chars::chars_of(a);
    chars::extend(&mut r, x);
    chars::extend_str(&mut r, m);
    chars::extend(&mut r, y);
    chars::extend_str(&mut r, b);
    r
}

fn suffix2(x: &Vec<char>, m: &str, y: &Vec<char>, b: &str) -> (res: Vec<char>)
    ensures
        res@ == x@ + m@ + y@ + b@,
{
    let mut r = suffix(x, m);
    chars::extend(&mut r, y);
    chars::extend_str(&mut r, b);
    r
}

/// The `k`-th argument, or `d`.
fn arg_or_exec(args: &Vec<Vec<char>>, k: usize, d: &str) -> (res: Vec<char>)
    ensures
        res@ == arg_or(args.deep_view(), k as int, d@),
{
    if k < args.len() {
        let a = &args[k];
        assert(args.deep_view()[k as int] =~= a@);
        let r = chars::subrange(a, 0, a.len());
        assert(a@.subrange(0, a@.len() as int) =~= a@);
        r
    } else {
        chars::chars_of(d)
    }
}

/// The JavaScript for the filter `name` with `args` applied to `e` (see
/// `filter_js`).
#[verifier::rlimit(40)]
pub fn apply_filter(e: &Vec<char>, name: &Vec<char>, args: &Vec<Vec<char>>) -> (res: Option<
    Vec<char>,
>)
    ensures
        opt_chars(res) == filter_js(e@, name@, args.deep_view()),
{
    let has_arg = args.len() > 0;
    let a = arg_or_exec(args, 0, "");
    proof {
        reveal_strlit("");
        assert(has_arg ==> a@ == args.deep_view()[0]);
    }
    if chars::eq_lit(name, "capitalize") {
        Some(wrap2("(", e, ".charAt(0).toUpperCase()+", e, ".slice(1).toLowerCase())"))
    } else if chars::eq_lit(name, "upcase") {
        Some(suffix(e, ".toUpperCase()"))
    } else if chars::eq_lit(name, "downcase") {
        Some(suffix(e, ".toLowerCase()"))
    } else if chars::eq_lit(name, "strip") {
        Some(suffix(e, ".trim()"))
    } else if chars::eq_lit(name, "plus") {
        if has_arg {
            Some(wrap2("(", e, "+", &a, ")"))
        } else {
            None
        }
    } else if chars::eq_lit(name, "minus") {
        if has_arg {
            Some(wrap2("(", e, "-", &a, ")"))
        } else {
            None
        }
    } else if chars::eq_lit(name, "times") {
        if has_arg {
            Some(wrap2("(", e, "*", &a, ")"))
        } else {
            None
        }
    } else if chars::eq_lit(name, "divided_by") {
        if has_arg {
            Some(wrap2("(", e, "/", &a, ")"))
        } else {
            None
        }
    } else if chars::eq_lit(name, "modulo") {
        if has_arg {
            Some(wrap2("(", e, "%", &a, ")"))
        } else {
            None
        }
    } else if chars::eq_lit(name, "floor") {
        Some(wrap("Math.floor(", e, ")"))
    } else if chars::eq_lit(name, "ceil") {
        Some(wrap("Math.ceil(", e, ")"))
    } else if chars::eq_lit(name, "round") {
        Some(wrap("Math.round(", e, ")"))
    } else if chars::eq_lit(name, "abs") {
        Some(wrap("Math.abs(", e, ")"))
    } else if chars::eq_lit(name, "append") {
        if has_arg {
            Some(wrap2("(", e, "+", &a, ")"))
        } else {
            None
        }
    } else if chars::eq_lit(name, "prepend") {
        if has_arg {
            Some(wrap2("(", &a, "+", e, ")"))
        } else {
            None
        }
    } else if chars::eq_lit(name, "default") {
        if has_arg {
            Some(wrap2("(", e, "??", &a, ")"))
        } else {
            None
        }
    } else if chars::eq_lit(name, "size") {
        Some(suffix(e, ".length"))
    } else if chars::eq_lit(name, "at_least") {
        if has_arg {
            Some(wrap2("Math.max(", e, ",", &a, ")"))
        } else {
            None
        }
    } else if chars::eq_lit(name, "at_most") {
        if has_arg {
            Some(wrap2("Math.min(", e, ",", &a, ")"))
        } else {
            None
        }
    } else if chars::eq_lit(name, "truncate") {
        let n = arg_or_exec(args, 0, "50");
        let mut r = wrap2("(", e, ".length>", &n, "?");
        chars::extend(&mut r, e);
        chars::extend_str(&mut r, ".slice(0,");
        chars::extend(&mut r, &n);
        chars::extend_str(&mut r, ")+'...':String(");
        chars::extend(&mut r, e);
        chars::extend_str(&mut r, "))");
        Some(r)
    } else if chars::eq_lit(name, "replace") {
        let a0 = arg_or_exec(args, 0, "\"\"");
        let a1 = arg_or_exec(args, 1, "\"\"");
        let mut r = suffix2(e, ".replaceAll(", &a0, ",");
        chars::extend(&mut r, &a1);
        chars::extend_str(&mut r, ")");
        Some(r)
    } else if chars::eq_lit(name, "remove") {
        let a0 = arg_or_exec(args, 0, "\"\"");
        Some(suffix2(e, ".replaceAll(", &a0, ",\"\")"))
    } else if chars::eq_lit(name, "join") {
        let a0 = arg_or_exec(args, 0, "\", \"");
        Some(suffix2(e, ".join(", &a0, ")"))
    } else if chars::eq_lit(name, "first") {
        Some(suffix(e, "[0]"))
    } else if chars::eq_lit(name, "last") {
        Some(suffix2(e, "[", e, ".length-1]"))
    } else if chars::eq_lit(name, "reverse") {
        Some(wrap("[...", e, "].reverse()"))
    } else if chars::eq_lit(name, "url_encode") {
        Some(wrap("encodeURIComponent(", e, ")"))
    } else if chars::eq_lit(name, "url_decode") {
        Some(wrap("decodeURIComponent(", e, ")"))
    } else {
        Some(chars::subrange(e, 0, e.len()))
    }
}

/// The JavaScript for `ctx.<var>` with `filters` applied in order.
pub fn translate_filter_chain(var: &Vec<char>, filters: &Vec<(Vec<char>, Vec<Vec<char>>)>) -> (res:
    Option<Vec<char>>)
    ensures
        opt_chars(res) == translate_chain(var@, filters.deep_view()),
{
    let mut expr = chars::chars_of("ctx.");
    chars::extend(&mut expr, var);
    let mut k: usize = 0;
    assert(filters.deep_view().take(0) =~= Seq::<FilterModel>::empty());
    while k < filters.len()
        invariant
            k <= filters.len(),
            translate_chain(var@, filters.deep_view().take(k as int)) == Some(expr@),
        decreases filters.len() - k,
    {
        let f = &filters[k];
        proof {
            let fs = filters.deep_view().take(k + 1);
            assert(fs.drop_last() =~= filters.deep_view().take(k as int));
            assert(f.0.deep_view() =~= f.0@);
            assert(fs.last() == (f.0@, f.1.deep_view()));
        }
        match apply_filter(&expr, &f.0, &f.1) {
            Some(next) => {
                expr = next;
            },
            None => {
                proof {
                    lemma_translate_none(var@, filters.deep_view(), k as int + 1);
                }
                assert(filters.deep_view().take(filters.len() as int) =~= filters.deep_view());
                return None;
            },
        }
        k = k + 1;
    }
    assert(filters.deep_view().take(filters.len() as int) =~= filters.deep_view());
    Some(expr)
}

/// Once the chain fails on a prefix, it fails on every longer prefix.
proof fn lemma_translate_none(var: Seq<char>, fs: Seq<FilterModel>, k: int)
    requires
        0 <= k <= fs.len(),
        translate_chain(var, fs.take(k)) is None,
    ensures
        translate_chain(var, fs) is None,
    decreases fs.len() - k,
{
    if k < fs.len() {
        assert(fs.take(k + 1).drop_last() =~= fs.take(k));
        lemma_translate_none(var, fs, k + 1);
    } else {
        assert(fs.take(k) =~= fs);
    }
}

/// Index of the closing `"` of the quoted text `s`, or `s.len()`.
fn quoted_end_exec(s: &Vec<char>) -> (res: usize)
    ensures
        res == quoted_end(s@, 0),
        res <= s.len(),
{
    let len = s.len();
    let mut j: usize = 0;
    while j < len && s[j] != '"'
        invariant
            j <= len == s.len(),
            quoted_end(s@, 0) == quoted_end(s@, j as int),
        decreases len - j,
    {
        if s[j] == '\\' && j + 1 < len {
            j = j + 2;
        } else {
            j = j + 1;
        }
    }
    j
}

/// The JavaScript for the `csr` segment `t` (see `csr_expression`).
pub fn csr_expression_exec(t: &Vec<char>, var: &Vec<char>, filters: &Vec<(Vec<char>, Vec<Vec<char>>)>) -> (res: Option<Vec<char>>)
    requires
        chars::starts_with(t@, "csr"@),
    ensures
        opt_chars(res) == csr_expression(t@, var@, filters.deep_view()),
{
    let csr = chars::chars_of("csr");
    let after_csr = chars::subrange(t, csr.len(), t.len());
    assert(t@.subrange(csr@.len() as int, t@.len() as int) =~= t@.skip("csr"@.len() as int));
    let rest = chars::trimmed(&after_csr);
    if rest.len() > 0 && rest[0] == ':' {
        let after = chars::trimmed(&chars::subrange(&rest, 1, rest.len()));
        assert(rest@.subrange(1, rest@.len() as int) =~= rest@.skip(1));
        if after.len() > 0 && after[0] == '"' {
            let inner = chars::subrange(&after, 1, after.len());
            assert(after@.subrange(1, after@.len() as int) =~= after@.skip(1));
            let j = quoted_end_exec(&inner);
            let arg = chars::subrange(&inner, 0, j);
            assert(inner@.subrange(0, j as int) =~= inner@.take(j as int));
            let this_dot = chars::chars_of("this.");
            let ctx_dot = chars::chars_of("ctx.");
            proof {
                reveal_strlit("this.");
            }
            Some(chars::replace_all_exec(&arg, &this_dot, &ctx_dot))
        } else {
            Some(Vec::new())
        }
    } else {
        match translate_filter_chain(var, filters) {
            Some(e) => Some(wrap("${", &e, "}")),
            None => None,
        }
    }
}

/// The filters of `segs[1..i]`.
fn filters_of(segs: &Vec<Vec<char>>, i: usize) -> (res: Vec<(Vec<char>, Vec<Vec<char>>)>)
    requires
        1 <= i <= segs.len(),
    ensures
        res.deep_view() == filters_before(segs.deep_view(), i as int),
{
    let mut out: Vec<(Vec<char>, Vec<Vec<char>>)> = Vec::new();
    let mut k: usize = 1;
    while k < i
        invariant
            1 <= k <= i <= segs.len(),
            out.deep_view() == filters_before(segs.deep_view(), k as int),
        decreases i - k,
    {
        let seg = chars::trimmed(&segs[k]);
        assert(segs.deep_view()[k as int] =~= segs@[k as int]@);
        let f = parse_filter_exec(&seg);
        assert(f.0.deep_view() =~= f.0@);
        assert(f.deep_view() == parse_filter(chars::trim(segs.deep_view()[k as int])));
        let ghost old_dv = out.deep_view();
        out.push(f);
        assert(out.deep_view() =~= old_dv.push(parse_filter(chars::trim(segs.deep_view()[k as int]))));
        assert(filters_before(segs.deep_view(), k + 1) =~= filters_before(segs.deep_view(), k as int).push(
            parse_filter(chars::trim(segs.deep_view()[k as int])),
        ));
        k = k + 1;
    }
    out
}

fn strings_of(v: &Vec<Vec<char>>) -> (res: Vec<String>)
    ensures
        res.deep_view() == v.deep_view(),
{
    let mut out: Vec<String> = Vec::new();
    let mut k: usize = 0;
    while k < v.len()
        invariant
            k <= v.len(),
            out.deep_view() == v.deep_view().take(k as int),
        decreases v.len() - k,
    {
        let s = chars::string_of(&v[k]);
        assert(v@[k as int].deep_view() =~= v@[k as int]@);
        let ghost old_dv = out.deep_view();
        out.push(s);
        assert(out.deep_view() =~= old_dv.push(v@[k as int]@));
        assert(v.deep_view().take(k + 1) =~= v.deep_view().take(k as int).push(v@[k as int]@));
        k = k + 1;
    }
    assert(v.deep_view().take(v.len() as int) =~= v.deep_view());
    out
}

/// The binding of variable `var` with `filters`.
fn make_binding(var: &Vec<char>, filters: &Vec<(Vec<char>, Vec<Vec<char>>)>) -> (res: Binding)
    ensures
        res@ == (var@, filters.deep_view()),
{
    let mut fs: Vec<(String, Vec<String>)> = Vec::new();
    let mut k: usize = 0;
    while k < filters.len()
        invariant
            k <= filters.len(),
            fs.deep_view() == filters.deep_view().take(k as int),
        decreases filters.len() - k,
    {
        let name = chars::string_of(&filters[k].0);
        let args = strings_of(&filters[k].1);
        let ghost old_dv = fs.deep_view();
        let ghost entry = (filters@[k as int].0@, filters@[k as int].1.deep_view());
        fs.push((name, args));
        assert(filters@[k as int].0.deep_view() =~= filters@[k as int].0@);
        assert(fs.deep_view() =~= old_dv.push(entry));
        assert(filters.deep_view().take(k + 1) =~= filters.deep_view().take(k as int).push(entry));
        k = k + 1;
    }
    assert(filters.deep_view().take(filters.len() as int) =~= filters.deep_view());
    Binding { var_name: chars::string_of(var), filters: fs }
}

/// `name` is a filter that translation knows.
pub fn is_known_filter(name: &Vec<char>) -> (res: bool)
    ensures
        res == known_filter(name@),
{
    chars::eq_lit(name, "capitalize") || chars::eq_lit(name, "upcase") || chars::eq_lit(
        name,
        "downcase",
    ) || chars::eq_lit(name, "strip") || chars::eq_lit(name, "plus") || chars::eq_lit(name, "minus")
        || chars::eq_lit(name, "times") || chars::eq_lit(name, "divided_by") || chars::eq_lit(
        name,
        "modulo",
    ) || chars::eq_lit(name, "floor") || chars::eq_lit(name, "ceil") || chars::eq_lit(name, "round")
        || chars::eq_lit(name, "abs") || chars::eq_lit(name, "append") || chars::eq_lit(
        name,
        "prepend",
    ) || chars::eq_lit(name, "default") || chars::eq_lit(name, "size") || chars::eq_lit(
        name,
        "at_least",
    ) || chars::eq_lit(name, "at_most") || chars::eq_lit(name, "truncate") || chars::eq_lit(
        name,
        "replace",
    ) || chars::eq_lit(name, "remove") || chars::eq_lit(name, "join") || chars::eq_lit(name, "first")
        || chars::eq_lit(name, "last") || chars::eq_lit(name, "reverse") || chars::eq_lit(
        name,
        "url_encode",
    ) || chars::eq_lit(name, "url_decode")
}

/// Appends to `out` the names of the unknown filters among `filters`.
fn push_unknown_names(out: &mut Vec<Vec<char>>, filters: &Vec<(Vec<char>, Vec<Vec<char>>)>)
    ensures
        final(out).deep_view() == old(out).deep_view() + unknown_names(filters.deep_view()),
{
    let mut k: usize = 0;
    assert(filters.deep_view().take(0) =~= Seq::<FilterModel>::empty());
    assert(old(out).deep_view() + Seq::<Seq<char>>::empty() =~= old(out).deep_view());
    while k < filters.len()
        invariant
            k <= filters.len(),
            out.deep_view() == old(out).deep_view() + unknown_names(
                filters.deep_view().take(k as int),
            ),
        decreases filters.len() - k,
    {
        let name = &filters[k].0;
        proof {
            let fs = filters.deep_view().take(k + 1);
            assert(fs.drop_last() =~= filters.deep_view().take(k as int));
            assert(name.deep_view() =~= name@);
            assert(fs.last().0 == name@);
        }
        if !is_known_filter(name) {
            let copy = chars::subrange(name, 0, name.len());
            assert(name@.subrange(0, name@.len() as int) =~= name@);
            let ghost old_dv = out.deep_view();
            assert(copy.deep_view() =~= copy@);
            out.push(copy);
            assert(out.deep_view() =~= old_dv.push(name@));
            assert(old(out).deep_view() + unknown_names(filters.deep_view().take(k as int)).push(name@)
                =~= (old(out).deep_view() + unknown_names(filters.deep_view().take(k as int))).push(name@));
        }
        k = k + 1;
    }
    assert(filters.deep_view().take(filters.len() as int) =~= filters.deep_view());
}

/// The `csr` segment `t` has its filter chain translated (see `csr_translates`).
fn csr_translates_exec(t: &Vec<char>) -> (res: bool)
    requires
        chars::starts_with(t@, "csr"@),
    ensures
        res == csr_translates(t@),
{
    let csr = chars::chars_of("csr");
    let after_csr = chars::subrange(t, csr.len(), t.len());
    assert(t@.subrange(csr@.len() as int, t@.len() as int) =~= t@.skip("csr"@.len() as int));
    let rest = chars::trimmed(&after_csr);
    !(rest.len() > 0 && rest[0] == ':')
}

/// The client expression of the segment `t` (see `client_value`).
fn client_value_exec(t: &Vec<char>) -> (res: Vec<char>)
    requires
        chars::starts_with(t@, client_value_marker()),
    ensures
        res@ == client_value(t@),
{
    let marker = chars::chars_of("clientTemplateValue(");
    let inner = chars::subrange(t, marker.len(), t.len());
    assert(t@.subrange(marker@.len() as int, t@.len() as int) =~= t@.skip(
        client_value_marker().len() as int,
    ));
    proof {
        reveal_strlit("clientTemplateValue(");
    }
    let len = inner.len();
    assert(len < usize::MAX);
    let mut i: usize = 0;
    let mut depth: usize = 1;
    while i < len && !(inner[i] == ')' && depth <= 1)
        invariant
            i <= len == inner.len(),
            len < usize::MAX,
            1 <= depth <= i + 1,
            paren_close(inner@, 0, 1) == paren_close(inner@, i as int, depth as nat),
        decreases len - i,
    {
        if inner[i] == '(' {
            depth = depth + 1;
        } else if inner[i] == ')' {
            depth = depth - 1;
        }
        i = i + 1;
    }
    let arg = chars::subrange(&inner, 0, i);
    assert(inner@.subrange(0, i as int) =~= inner@.take(i as int));
    chars::trimmed(&arg)
}

/// The JavaScript, the bindings and the dropped filter names of one
/// `{{ expr }}` block (see `liquid_block`).
pub fn process_liquid_block(expr: &Vec<char>) -> (res: Option<(Vec<char>, Vec<Binding>, Vec<Vec<char>>)>)
    ensures
        processed_view(res) == liquid_block(expr@),
{
    let csr = chars::chars_of("csr");
    let marker = chars::chars_of("clientTemplateValue(");
    if !chars::contains_exec(expr, &csr) && !chars::contains_exec(expr, &marker) {
        let bs: Vec<Binding> = Vec::new();
        let ws: Vec<Vec<char>> = Vec::new();
        assert(bindings_view(bs@) =~= Seq::<BindingModel>::empty());
        assert(ws.deep_view() =~= Seq::<Seq<char>>::empty());
        return Some((Vec::new(), bs, ws));
    }
    let segs = split_pipe_exec(expr);
    let ghost sv = segs.deep_view();
    let mut js: Vec<char> = Vec::new();
    let mut bindings: Vec<Binding> = Vec::new();
    let mut warnings: Vec<Vec<char>> = Vec::new();
    let mut i: usize = 0;
    assert(bindings_view(bindings@) =~= Seq::<BindingModel>::empty());
    assert(warnings.deep_view() =~= Seq::<Seq<char>>::empty());
    while i < segs.len()
        invariant
            i <= segs.len(),
            sv == segs.deep_view(),
            sv == split_pipe(expr@),
            csr@ == "csr"@,
            marker@ == client_value_marker(),
            chars::contains_seq(expr@, "csr"@) || chars::contains_seq(expr@, client_value_marker()),
            block_upto(sv, i as int) == Some((js@, bindings_view(bindings@), warnings.deep_view())),
        decreases segs.len() - i,
    {
        let t = chars::trimmed(&segs[i]);
        assert(sv[i as int] =~= segs@[i as int]@);
        if i != 0 {
            let is_csr = chars::starts_with_exec(&t, &csr);
            let is_client = !is_csr && chars::starts_with_exec(&t, &marker);
            if is_csr || is_client {
                let var = chars::trimmed(&segs[0]);
                assert(sv[0] =~= segs@[0]@);
                let filters = filters_of(&segs, i);
                let e = if is_csr {
                    match csr_expression_exec(&t, &var, &filters) {
                        Some(e) => e,
                        None => {
                            proof {
                                lemma_block_none(sv, i as int + 1);
                            }
                            return None;
                        },
                    }
                } else {
                    client_value_exec(&t)
                };
                if is_csr && csr_translates_exec(&t) {
                    push_unknown_names(&mut warnings, &filters);
                } else {
                    proof {
                        assert(warnings.deep_view() + Seq::<Seq<char>>::empty() =~= warnings.deep_view());
                    }
                }
                let b = make_binding(&var, &filters);
                let ghost old_bv = bindings_view(bindings@);
                chars::extend(&mut js, &e);
                bindings.push(b);
                assert(bindings_view(bindings@) =~= old_bv.push((var@, filters.deep_view())));
            }
        }
        i = i + 1;
    }
    Some((js, bindings, warnings))
}

/// Once a block fails on some segment, it fails.
proof fn lemma_block_none(segs: Seq<Seq<char>>, k: int)
    requires
        0 <= k <= segs.len(),
        block_upto(segs, k) is None,
    ensures
        block_upto(segs, segs.len() as int) is None,
    decreases segs.len() - k,
{
    if k < segs.len() {
        lemma_block_none(segs, k + 1);
    }
}

/// Index of the first `}}` from `j` on (see `close_pos`).
fn close_scan(s: &Vec<char>, j0: usize) -> (res: usize)
    requires
        j0 <= s.len(),
    ensures
        res == close_pos(s@, j0 as int),
        j0 <= res <= s.len(),
{
    let len = s.len();
    let mut j = j0;
    while j < len && j + 1 < len && !(s[j] == '}' && s[j + 1] == '}')
        invariant
            j0 <= j <= len == s.len(),
            close_pos(s@, j0 as int) == close_pos(s@, j as int),
        decreases len - j,
    {
        j = j + 1;
    }
    j
}

/// The processed template text of `s` (see `liquid_content`).
pub fn process_content(s: &Vec<char>) -> (res: Option<(Vec<char>, Vec<Binding>, Vec<Vec<char>>)>)
    ensures
        processed_view(res) == liquid_content(s@),
{
    let mut result: Vec<char> = Vec::new();
    let mut bindings: Vec<Binding> = Vec::new();
    let mut warnings: Vec<Vec<char>> = Vec::new();
    let len = s.len();
    let mut i: usize = 0;
    proof {
        let r = content_from(s@, 0);
        assert(bindings_view(bindings@) =~= Seq::<BindingModel>::empty());
        assert(warnings.deep_view() =~= Seq::<Seq<char>>::empty());
        if let Some(x) = r {
            assert(Seq::<char>::empty() + x.0 =~= x.0);
            assert(Seq::<BindingModel>::empty() + x.1 =~= x.1);
            assert(Seq::<Seq<char>>::empty() + x.2 =~= x.2);
        }
    }
    while i < len
        invariant
            i <= len == s.len(),
            liquid_content(s@) == prepend(
                result@,
                bindings_view(bindings@),
                warnings.deep_view(),
                content_from(s@, i as int),
            ),
        decreases len - i,
    {
        let mut is_block = false;
        let mut j: usize = 0;
        if i + 1 < len && s[i] == '{' && s[i + 1] == '{' {
            j = close_scan(s, i + 2);
            is_block = j < len && j + 1 < len;
        }
        if is_block {
            proof {
                lemma_close_pos_bounds(s@, i + 2);
            }
            let expr = chars::subrange(s, i + 2, j);
            match process_liquid_block(&expr) {
                Some(b) => {
                    let (out, mut bs, mut ws) = b;
                    proof {
                        lemma_prepend_assoc(
                            result@,
                            bindings_view(bindings@),
                            warnings.deep_view(),
                            out@,
                            bindings_view(bs@),
                            ws.deep_view(),
                            content_from(s@, j + 2),
                        );
                    }
                    let ghost old_b = bindings@;
                    let ghost bs_v = bs@;
                    let ghost old_w = warnings@;
                    let ghost ws_v = ws@;
                    chars::extend(&mut result, &out);
                    bindings.append(&mut bs);
                    warnings.append(&mut ws);
                    assert(bindings_view(bindings@) =~= bindings_view(old_b) + bindings_view(bs_v));
                    assert(warnings.deep_view() =~= old_w.map_values(|v: Vec<char>| v.deep_view())
                        + ws_v.map_values(|v: Vec<char>| v.deep_view()));
                    i = j + 2;
                },
                None => {
                    return None;
                },
            }
        } else {
            proof {
                lemma_prepend_assoc(
                    result@,
                    bindings_view(bindings@),
                    warnings.deep_view(),
                    seq![s@[i as int]],
                    Seq::empty(),
                    Seq::empty(),
                    content_from(s@, i + 1),
                );
                assert(bindings_view(bindings@) + Seq::<BindingModel>::empty() =~= bindings_view(
                    bindings@,
                ));
                assert(warnings.deep_view() + Seq::<Seq<char>>::empty() =~= warnings.deep_view());
            }
            let ghost before = result@;
            result.push(s[i]);
            assert(result@ =~= before + seq![s@[i as int]]);
            i = i + 1;
        }
    }
    proof {
        assert(result@ + Seq::<char>::empty() =~= result@);
        assert(bindings_view(bindings@) + Seq::<BindingModel>::empty() =~= bindings_view(bindings@));
        assert(warnings.deep_view() + Seq::<Seq<char>>::empty() =~= warnings.deep_view());
    }
    Some((result, bindings, warnings))
}

} // verus!
