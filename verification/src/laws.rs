//! Properties that relate the library's functions to one another.
use vstd::prelude::*;

use crate::chars;
use crate::codegen;
use crate::digest;
use crate::reload;
use crate::liquid;
use crate::template;

verus! {

/// The SSR markup of a template is its static strings (the very strings the
/// digest is computed from) joined by empty `lit-part` slots, between the
/// opening marker that carries the digest and the closing marker; so the
/// client can hydrate SSR markup against the template the digest names.
pub proof fn law_ssr_markup_is_joined_static_strings(html: Seq<char>, digest: Seq<char>)
    ensures
        crate::ssr_wrapper_text(html, digest) == "<!--lit-part "@ + digest + "-->\n"@
            + template::join(crate::client_strings(html), template::slot_marker())
            + "\n<!--/lit-part-->"@,
{
    template::lemma_with_slots_join(template::client_content(html), 0);
}

/// Base64 output has four characters for every started group of three bytes,
/// uses only the standard alphabet and `=`, and decodes back to the input.
pub proof fn law_base64_round_trip(b: Seq<u8>)
    ensures
        digest::base64(b).len() == 4 * ((b.len() + 2) / 3),
        forall|i: int|
            0 <= i < digest::base64(b).len() ==> digest::is_b64_alphabet(
                #[trigger] digest::base64(b)[i],
            ),
        digest::base64_decode(digest::base64(b)) == Some(b),
{
    digest::lemma_base64_len(b);
    digest::lemma_base64_decodes(b);
}

/// A template has one more static string than it has `${...}` interpolations.
pub proof fn law_static_strings_count(html: Seq<char>)
    ensures
        template::template_parts(html, 0).len() == template::count_exprs(html, 0) + 1,
{
    template::lemma_template_parts_len(html, 0);
}

/// Text without `{{` goes through the preprocessor unchanged and yields no
/// binding.
pub proof fn law_text_without_blocks_unchanged(s: Seq<char>)
    requires
        forall|i: int| 0 <= i < s.len() - 1 ==> !(#[trigger] s[i] == '{' && s[i + 1] == '{'),
    ensures
        liquid::liquid_content(s) == Some(
            (s, Seq::<liquid::BindingModel>::empty(), Seq::<Seq<char>>::empty()),
        ),
{
    lemma_content_without_blocks(s, 0);
    assert(s.skip(0) =~= s);
}

proof fn lemma_content_without_blocks(s: Seq<char>, i: int)
    requires
        0 <= i <= s.len(),
        forall|k: int| 0 <= k < s.len() - 1 ==> !(#[trigger] s[k] == '{' && s[k + 1] == '{'),
    ensures
        liquid::content_from(s, i) == Some(
            (s.skip(i), Seq::<liquid::BindingModel>::empty(), Seq::<Seq<char>>::empty()),
        ),
    decreases s.len() - i,
{
    if i < s.len() {
        lemma_content_without_blocks(s, i + 1);
        assert(!liquid::block_at(s, i));
        assert(seq![s[i]] + s.skip(i + 1) =~= s.skip(i));
        assert(Seq::<liquid::BindingModel>::empty() + Seq::<liquid::BindingModel>::empty()
            =~= Seq::<liquid::BindingModel>::empty());
        assert(Seq::<Seq<char>>::empty() + Seq::<Seq<char>>::empty() =~= Seq::<Seq<char>>::empty());
    } else {
        assert(s.skip(i) =~= Seq::<char>::empty());
    }
}

// ---------------------------------------------------------------------------
// The static strings around the first interpolation
// ---------------------------------------------------------------------------

/// The number of `{` in `e` less the number of `}`.
pub open spec fn brace_depth(e: Seq<char>) -> int
    decreases e.len(),
{
    if e.len() == 0 {
        0
    } else {
        brace_depth(e.drop_last()) + if e.last() == '{' {
            1int
        } else if e.last() == '}' {
            -1int
        } else {
            0int
        }
    }
}

/// Every prefix of `e` opens at least as many braces as it closes, and `e`
/// closes all it opens.
pub open spec fn braces_balanced(e: Seq<char>) -> bool {
    &&& forall|k: int| 0 <= k <= e.len() ==> brace_depth(#[trigger] e.take(k)) >= 0
    &&& brace_depth(e) == 0
}

/// `s` holds no `${`.
pub open spec fn no_interpolation(s: Seq<char>) -> bool {
    forall|i: int| 0 <= i < s.len() - 1 ==> !(#[trigger] s[i] == '$' && s[i + 1] == '{')
}

proof fn lemma_expr_end_shift(a: Seq<char>, b: Seq<char>, k: int, d: nat)
    requires
        0 <= k,
    ensures
        template::expr_end(a + b, a.len() + k, d) == a.len() + template::expr_end(b, k, d),
    decreases b.len() - k,
{
    let x = a + b;
    if d == 0 || k >= b.len() {
    } else {
        assert(x[a.len() + k] == b[k]);
        if b[k] == '{' {
            lemma_expr_end_shift(a, b, k + 1, d + 1);
        } else if b[k] == '}' {
            lemma_expr_end_shift(a, b, k + 1, (d - 1) as nat);
        } else {
            lemma_expr_end_shift(a, b, k + 1, d);
        }
    }
}

proof fn lemma_parts_shift(a: Seq<char>, b: Seq<char>, k: int)
    requires
        0 <= k,
    ensures
        template::template_parts(a + b, a.len() + k) == template::template_parts(b, k),
    decreases b.len() - k,
{
    let x = a + b;
    if k >= b.len() {
    } else {
        assert(x[a.len() + k] == b[k]);
        if k + 1 < b.len() {
            assert(x[a.len() + k + 1] == b[k + 1]);
        }
        assert(template::expr_starts(x, a.len() + k) == template::expr_starts(b, k));
        if template::expr_starts(b, k) {
            lemma_expr_end_shift(a, b, k + 2, 1);
            template::lemma_expr_end_bounds(b, k + 2, 1);
            lemma_parts_shift(a, b, template::expr_end(b, k + 2, 1));
        } else {
            lemma_parts_shift(a, b, k + 1);
        }
    }
}

proof fn lemma_expr_end_balanced(e: Seq<char>, t: Seq<char>, k: int)
    requires
        0 <= k <= e.len(),
        braces_balanced(e),
    ensures
        template::expr_end(e + seq!['}'] + t, k, (1 + brace_depth(e.take(k))) as nat) == e.len()
            + 1,
    decreases e.len() - k,
{
    let y = e + seq!['}'] + t;
    assert(brace_depth(e.take(k)) >= 0);
    if k == e.len() {
        assert(e.take(k) =~= e);
        assert(y[k] == '}');
        assert(template::expr_end(y, k + 1, 0) == k + 1);
    } else {
        assert(y[k] == e[k]);
        assert(e.take(k + 1).drop_last() =~= e.take(k));
        assert(e.take(k + 1).last() == e[k]);
        assert(brace_depth(e.take(k + 1)) >= 0);
        lemma_expr_end_balanced(e, t, k + 1);
    }
}

proof fn lemma_parts_prefix(x: Seq<char>, s: Seq<char>, i: int)
    requires
        0 <= i <= s.len() < x.len(),
        x.take(s.len() as int) == s,
        no_interpolation(s),
        x[s.len() as int] == '$',
    ensures
        template::template_parts(x, i) == template::prefix_first(
            s.skip(i),
            template::template_parts(x, s.len() as int),
        ),
    decreases s.len() - i,
{
    template::lemma_template_parts_len(x, s.len() as int);
    if i == s.len() {
        assert(s.skip(i) =~= Seq::<char>::empty());
        assert(template::prefix_first(s.skip(i), template::template_parts(x, i))
            =~= template::template_parts(x, i));
    } else {
        assert(x[i] == s[i]);
        if i + 1 < s.len() {
            assert(x[i + 1] == s[i + 1]);
        }
        assert(!template::expr_starts(x, i));
        lemma_parts_prefix(x, s, i + 1);
        let p = template::template_parts(x, s.len() as int);
        assert(seq![s[i]] + (s.skip(i + 1) + p[0]) =~= s.skip(i) + p[0]);
        assert(template::prefix_first(seq![s[i]], template::prefix_first(s.skip(i + 1), p))
            =~= template::prefix_first(s.skip(i), p));
    }
}

/// The static strings of `s ${e} t`, where `s` holds no interpolation and `e`
/// is brace-balanced, are `s` followed by the static strings of `t`.
pub proof fn law_split_at_first_interpolation(s: Seq<char>, e: Seq<char>, t: Seq<char>)
    requires
        no_interpolation(s),
        braces_balanced(e),
    ensures
        template::template_parts(s + "${"@ + e + "}"@ + t, 0) == seq![s] + template::template_parts(
            t,
            0,
        ),
{
    reveal_strlit("${");
    reveal_strlit("}");
    let open = "${"@;
    let x = s + open + e + "}"@ + t;
    let a = s + open;
    let rest = e + seq!['}'] + t;
    assert(x =~= a + rest);
    assert(x.take(s.len() as int) =~= s);
    assert(x[s.len() as int] == '$');
    assert(x[s.len() as int + 1] == '{');
    lemma_parts_prefix(x, s, 0);
    assert(s.skip(0) =~= s);
    // the interpolation at |s| closes just after `e`
    assert(e.take(0) =~= Seq::<char>::empty());
    lemma_expr_end_balanced(e, t, 0);
    lemma_expr_end_shift(a, rest, 0, 1);
    let j = template::expr_end(x, s.len() as int + 2, 1);
    assert(j == s.len() + 2 + e.len() + 1);
    let c = s + open + e + "}"@;
    assert(x =~= c + t);
    lemma_parts_shift(c, t, 0);
    let p = template::template_parts(t, 0);
    template::lemma_template_parts_len(t, 0);
    assert(template::template_parts(x, s.len() as int) =~= seq![Seq::<char>::empty()] + p);
    assert(template::prefix_first(s, seq![Seq::<char>::empty()] + p) =~= seq![s] + p);
}

// ---------------------------------------------------------------------------
// A block between two pieces of text
// ---------------------------------------------------------------------------

/// `s` holds no `{{`.
pub open spec fn no_block_open(s: Seq<char>) -> bool {
    forall|i: int| 0 <= i < s.len() - 1 ==> !(#[trigger] s[i] == '{' && s[i + 1] == '{')
}

/// `e` followed by `}` holds no `}}`: the first `}}` after `{{ e` is the one
/// that closes the block.
pub open spec fn no_block_close(e: Seq<char>) -> bool {
    &&& forall|i: int| 0 <= i < e.len() - 1 ==> !(#[trigger] e[i] == '}' && e[i + 1] == '}')
    &&& !(e.len() > 0 && e.last() == '}')
}

proof fn lemma_close_pos_shift(p: Seq<char>, q: Seq<char>, k: int)
    requires
        0 <= k,
    ensures
        liquid::close_pos(p + q, p.len() + k) == p.len() + liquid::close_pos(q, k),
    decreases q.len() - k,
{
    let x = p + q;
    if k + 1 >= q.len() {
    } else {
        assert(x[p.len() + k] == q[k]);
        assert(x[p.len() + k + 1] == q[k + 1]);
        if !(q[k] == '}' && q[k + 1] == '}') {
            lemma_close_pos_shift(p, q, k + 1);
        }
    }
}

proof fn lemma_content_shift(p: Seq<char>, q: Seq<char>, k: int)
    requires
        0 <= k,
    ensures
        liquid::content_from(p + q, p.len() + k) == liquid::content_from(q, k),
    decreases q.len() - k,
{
    let x = p + q;
    if k >= q.len() {
    } else {
        assert(x[p.len() + k] == q[k]);
        if k + 1 < q.len() {
            assert(x[p.len() + k + 1] == q[k + 1]);
        }
        lemma_close_pos_shift(p, q, k + 2);
        assert(liquid::block_at(x, p.len() + k) == liquid::block_at(q, k));
        if liquid::block_at(q, k) {
            let j = liquid::close_pos(q, k + 2);
            liquid::lemma_close_pos_bounds(q, k + 2);
            assert(x.subrange(p.len() + k + 2, p.len() + j) =~= q.subrange(k + 2, j));
            lemma_content_shift(p, q, j + 2);
        } else {
            lemma_content_shift(p, q, k + 1);
        }
    }
}

proof fn lemma_close_in_block(e: Seq<char>, b: Seq<char>, k: int)
    requires
        0 <= k <= e.len(),
        no_block_close(e),
    ensures
        liquid::close_pos(e + seq!['}', '}'] + b, k) == e.len(),
    decreases e.len() - k,
{
    let q = e + seq!['}', '}'] + b;
    if k < e.len() {
        assert(q[k] == e[k]);
        if k + 1 < e.len() {
            assert(q[k + 1] == e[k + 1]);
        } else {
            assert(e.last() == e[k]);
        }
        lemma_close_in_block(e, b, k + 1);
    } else {
        assert(q[k] == '}' && q[k + 1] == '}');
    }
}

proof fn lemma_content_prefix(x: Seq<char>, a: Seq<char>, i: int)
    requires
        0 <= i <= a.len() < x.len(),
        x.take(a.len() as int) == a,
        no_block_open(a),
        !(a.len() > 0 && a.last() == '{'),
    ensures
        liquid::content_from(x, i) == liquid::prepend(
            a.skip(i),
            Seq::empty(),
            Seq::empty(),
            liquid::content_from(x, a.len() as int),
        ),
    decreases a.len() - i,
{
    let r = liquid::content_from(x, a.len() as int);
    if i == a.len() {
        assert(a.skip(i) =~= Seq::<char>::empty());
        if let Some(v) = r {
            assert(Seq::<char>::empty() + v.0 =~= v.0);
            assert(Seq::<liquid::BindingModel>::empty() + v.1 =~= v.1);
            assert(Seq::<Seq<char>>::empty() + v.2 =~= v.2);
        }
    } else {
        assert(x[i] == a[i]);
        if i + 1 < a.len() {
            assert(x[i + 1] == a[i + 1]);
        } else {
            assert(a.last() == a[i]);
        }
        assert(!liquid::block_at(x, i));
        lemma_content_prefix(x, a, i + 1);
        if let Some(v) = r {
            assert(seq![a[i]] + (a.skip(i + 1) + v.0) =~= a.skip(i) + v.0);
            assert(Seq::<liquid::BindingModel>::empty() + (Seq::<liquid::BindingModel>::empty()
                + v.1) =~= Seq::<liquid::BindingModel>::empty() + v.1);
            assert(Seq::<Seq<char>>::empty() + (Seq::<Seq<char>>::empty() + v.2)
                =~= Seq::<Seq<char>>::empty() + v.2);
        }
    }
}

/// A complete block between two pieces of text: the text before it is kept,
/// the block is replaced by its JavaScript, and the rest is processed on its
/// own; the bindings and dropped filter names come in document order.
pub proof fn law_content_around_block(a: Seq<char>, e: Seq<char>, b: Seq<char>)
    requires
        no_block_open(a),
        !(a.len() > 0 && a.last() == '{'),
        no_block_close(e),
    ensures
        liquid::liquid_content(a + "{{"@ + e + "}}"@ + b) == (match liquid::liquid_block(e) {
            None => None,
            Some(x) => liquid::prepend(a + x.0, x.1, x.2, liquid::liquid_content(b)),
        }),
{
    reveal_strlit("{{");
    reveal_strlit("}}");
    let open = "{{"@;
    let close = "}}"@;
    let x = a + open + e + close + b;
    assert(x.take(a.len() as int) =~= a);
    lemma_content_prefix(x, a, 0);
    assert(a.skip(0) =~= a);
    // the block at |a|
    let p = a + open;
    let q = e + seq!['}', '}'] + b;
    assert(x =~= p + q);
    lemma_close_in_block(e, b, 0);
    lemma_close_pos_shift(p, q, 0);
    let i: int = a.len() as int;
    let j: int = i + 2 + e.len();
    assert(liquid::close_pos(x, i + 2) == j);
    assert(x[i] == '{' && x[i + 1] == '{');
    assert(liquid::block_at(x, i));
    assert(x.subrange(i + 2, j) =~= e);
    let c = a + open + e + close;
    assert(x =~= c + b);
    lemma_content_shift(c, b, 0);
    assert(liquid::content_from(x, j + 2) == liquid::liquid_content(b));
    let rb = liquid::liquid_content(b);
    if let Some(v) = liquid::liquid_block(e) {
        if let Some(w) = rb {
            assert(a + (v.0 + w.0) =~= (a + v.0) + w.0);
            assert(Seq::<liquid::BindingModel>::empty() + (v.1 + w.1) =~= v.1 + w.1);
            assert(Seq::<Seq<char>>::empty() + (v.2 + w.2) =~= v.2 + w.2);
        }
    }
}

/// The Liquid `join` filter joins with the separator the template gives, and
/// with `", "` only where it gives none: `e | join: a` is `e.join(a)`.
pub proof fn law_join_uses_given_separator(e: Seq<char>, a: Seq<char>, more: Seq<Seq<char>>)
    ensures
        liquid::filter_js(e, "join"@, seq![a] + more) == Some(e + ".join("@ + a + ")"@),
        liquid::filter_js(e, "join"@, Seq::<Seq<char>>::empty()) == Some(
            e + ".join("@ + "\", \""@ + ")"@,
        ),
{
    reveal_strlit("capitalize");
    reveal_strlit("upcase");
    reveal_strlit("downcase");
    reveal_strlit("strip");
    reveal_strlit("plus");
    reveal_strlit("minus");
    reveal_strlit("times");
    reveal_strlit("divided_by");
    reveal_strlit("modulo");
    reveal_strlit("floor");
    reveal_strlit("ceil");
    reveal_strlit("round");
    reveal_strlit("abs");
    reveal_strlit("append");
    reveal_strlit("prepend");
    reveal_strlit("default");
    reveal_strlit("size");
    reveal_strlit("at_least");
    reveal_strlit("at_most");
    reveal_strlit("truncate");
    reveal_strlit("replace");
    reveal_strlit("remove");
    reveal_strlit("join");
    assert("join"@ != "capitalize"@) by { assert("join"@.len() != "capitalize"@.len() || "join"@[0] != "capitalize"@[0]); }
    assert("join"@ != "upcase"@) by { assert("join"@.len() != "upcase"@.len() || "join"@[0] != "upcase"@[0]); }
    assert("join"@ != "downcase"@) by { assert("join"@.len() != "downcase"@.len() || "join"@[0] != "downcase"@[0]); }
    assert("join"@ != "strip"@) by { assert("join"@.len() != "strip"@.len() || "join"@[0] != "strip"@[0]); }
    assert("join"@ != "plus"@) by { assert("join"@.len() != "plus"@.len() || "join"@[0] != "plus"@[0]); }
    assert("join"@ != "minus"@) by { assert("join"@.len() != "minus"@.len() || "join"@[0] != "minus"@[0]); }
    assert("join"@ != "times"@) by { assert("join"@.len() != "times"@.len() || "join"@[0] != "times"@[0]); }
    assert("join"@ != "divided_by"@) by { assert("join"@.len() != "divided_by"@.len() || "join"@[0] != "divided_by"@[0]); }
    assert("join"@ != "modulo"@) by { assert("join"@.len() != "modulo"@.len() || "join"@[0] != "modulo"@[0]); }
    assert("join"@ != "floor"@) by { assert("join"@.len() != "floor"@.len() || "join"@[0] != "floor"@[0]); }
    assert("join"@ != "ceil"@) by { assert("join"@.len() != "ceil"@.len() || "join"@[0] != "ceil"@[0]); }
    assert("join"@ != "round"@) by { assert("join"@.len() != "round"@.len() || "join"@[0] != "round"@[0]); }
    assert("join"@ != "abs"@) by { assert("join"@.len() != "abs"@.len() || "join"@[0] != "abs"@[0]); }
    assert("join"@ != "append"@) by { assert("join"@.len() != "append"@.len() || "join"@[0] != "append"@[0]); }
    assert("join"@ != "prepend"@) by { assert("join"@.len() != "prepend"@.len() || "join"@[0] != "prepend"@[0]); }
    assert("join"@ != "default"@) by { assert("join"@.len() != "default"@.len() || "join"@[0] != "default"@[0]); }
    assert("join"@ != "size"@) by { assert("join"@.len() != "size"@.len() || "join"@[0] != "size"@[0]); }
    assert("join"@ != "at_least"@) by { assert("join"@.len() != "at_least"@.len() || "join"@[0] != "at_least"@[0]); }
    assert("join"@ != "at_most"@) by { assert("join"@.len() != "at_most"@.len() || "join"@[0] != "at_most"@[0]); }
    assert("join"@ != "truncate"@) by { assert("join"@.len() != "truncate"@.len() || "join"@[0] != "truncate"@[0]); }
    assert("join"@ != "replace"@) by { assert("join"@.len() != "replace"@.len() || "join"@[0] != "replace"@[0]); }
    assert("join"@ != "remove"@) by { assert("join"@.len() != "remove"@.len() || "join"@[0] != "remove"@[0]); }
    assert((seq![a] + more)[0] == a);
}

/// The value of the decimal digits `s`, most significant first.
pub open spec fn digits_value(s: Seq<char>) -> int
    decreases s.len(),
{
    if s.len() == 0 {
        0
    } else {
        digits_value(s.drop_last()) * 10 + (s.last() as int - 48)
    }
}

/// A port is written as Rust writes a number: decimal digits only, no leading
/// zero (but for zero itself), whose base-10 value is the number.
pub proof fn law_decimal_reads_back(n: nat)
    ensures
        reload::decimal(n).len() >= 1,
        forall|i: int|
            0 <= i < reload::decimal(n).len() ==> '0' <= #[trigger] reload::decimal(n)[i] <= '9',
        digits_value(reload::decimal(n)) == n,
        reload::decimal(n)[0] == '0' ==> n == 0,
    decreases n,
{
    if n >= 10 {
        law_decimal_reads_back(n / 10);
        let d = reload::decimal(n / 10);
        assert(reload::decimal(n).drop_last() =~= d);
        assert(reload::decimal(n)[0] == d[0]);
        let c = (48 + n % 10) as char;
        assert(c as int == 48 + n % 10);
        assert((n / 10) * 10 + n % 10 == n);
        assert(reload::decimal(n).last() == c);
        assert(digits_value(reload::decimal(n)) == digits_value(d) * 10 + (c as int - 48));
    } else {
        let c = (48 + n) as char;
        assert(c as int == 48 + n);
        assert(reload::decimal(n) == seq![c]);
        assert(reload::decimal(n).drop_last() =~= Seq::<char>::empty());
        assert(digits_value(Seq::<char>::empty()) == 0);
        assert(digits_value(reload::decimal(n)) == digits_value(Seq::<char>::empty()) * 10 + (c as int - 48));
    }
}

/// Each character is hashed as its UTF-16 encoding: one unit equal to its code
/// point below U+10000, else a high and a low surrogate that decode back to it.
pub proof fn law_utf16_of_char_encodes(c: char)
    ensures
        digest::utf16_units(seq![c]) == digest::utf16_of_char(c),
        (c as int) < 0x10000 ==> digest::utf16_of_char(c).len() == 1
            && digest::utf16_of_char(c)[0] as int == c as int,
        (c as int) >= 0x10000 ==> {
            let u = digest::utf16_of_char(c);
            &&& u.len() == 2
            &&& 0xD800 <= u[0] < 0xDC00
            &&& 0xDC00 <= u[1] < 0xE000
            &&& 0x10000 + (u[0] - 0xD800) * 1024 + (u[1] - 0xDC00) == c as int
        },
{
    vstd::utf8::char_is_scalar(c);
    assert(seq![c].drop_last() =~= Seq::<char>::empty());
    assert(seq![c].last() == c);
    assert(digest::utf16_units(Seq::<char>::empty()) == Seq::<u16>::empty());
    assert(digest::utf16_units(seq![c]) == digest::utf16_units(seq![c].drop_last())
        + digest::utf16_of_char(seq![c].last()));
    assert(Seq::<u16>::empty() + digest::utf16_of_char(c) =~= digest::utf16_of_char(c));
    let v = c as u32;
    if v >= 0x10000 {
        let w = v - 0x10000;
        assert(w < 0x100000);
        assert(w / 1024 < 1024);
        assert((w / 1024) * 1024 + w % 1024 == w);
    }
}

/// The units hashed for a string are those of its characters, in order: the
/// encoding of `s + t` is that of `s` followed by that of `t`.
pub proof fn law_utf16_units_concat(s: Seq<char>, t: Seq<char>)
    ensures
        digest::utf16_units(s + t) == digest::utf16_units(s) + digest::utf16_units(t),
    decreases t.len(),
{
    if t.len() == 0 {
        assert(s + t =~= s);
        assert(digest::utf16_units(s) + Seq::<u16>::empty() =~= digest::utf16_units(s));
    } else {
        law_utf16_units_concat(s, t.drop_last());
        assert((s + t).drop_last() =~= s + t.drop_last());
        assert((s + t).last() == t.last());
        assert(digest::utf16_units(s + t) =~= digest::utf16_units(s) + digest::utf16_units(t));
    }
}

proof fn lemma_trim_start_shape(s: Seq<char>)
    ensures
        chars::trim_start(s).len() > 0 ==> !chars::is_white_space(chars::trim_start(s)[0]),
    decreases s.len(),
{
    if s.len() > 0 && chars::is_white_space(s[0]) {
        lemma_trim_start_shape(s.drop_first());
    }
}

proof fn lemma_trim_end_shape(s: Seq<char>)
    ensures
        chars::trim_end(s) =~= s.take(chars::trim_end(s).len() as int),
        chars::trim_end(s).len() <= s.len(),
        chars::trim_end(s).len() > 0 ==> !chars::is_white_space(chars::trim_end(s).last()),
    decreases s.len(),
{
    if s.len() > 0 && chars::is_white_space(s.last()) {
        lemma_trim_end_shape(s.drop_last());
        let t = chars::trim_end(s.drop_last());
        assert(s.drop_last().take(t.len() as int) =~= s.take(t.len() as int));
    } else {
        assert(s.take(s.len() as int) =~= s);
    }
}

/// Trimming twice is trimming once.
proof fn lemma_trim_idempotent(s: Seq<char>)
    ensures
        chars::trim(chars::trim(s)) == chars::trim(s),
{
    let y = chars::trim_start(s);
    let t = chars::trim_end(y);
    lemma_trim_start_shape(s);
    lemma_trim_end_shape(y);
    if t.len() > 0 {
        assert(t[0] == y[0]);
    }
    assert(chars::trim_start(t) == t);
    assert(chars::trim_end(t) == t);
}

/// The opening `<template ...>` tag is looked for in the trimmed content:
/// white space around it changes nothing, and where the trimmed content starts
/// with `<template` the tag runs to its first `>` (none without a `>`).
pub proof fn law_open_tag_from_trimmed(s: Seq<char>, k: int)
    ensures
        template::open_tag(s) == template::open_tag(chars::trim(s)),
        !chars::starts_with(chars::trim(s), "<template"@) ==> template::open_tag(s) is None,
        ({
            let t = chars::trim(s);
            chars::starts_with(t, "<template"@) && 0 <= k < t.len() && t[k] == '>' && (forall|j: int|
                0 <= j < k ==> #[trigger] t[j] != '>') ==> template::open_tag(s) == Some(
                t.take(k + 1),
            )
        }),
        ({
            let t = chars::trim(s);
            (forall|j: int| 0 <= j < t.len() ==> #[trigger] t[j] != '>') ==> template::open_tag(s)
                is None
        }),
{
    lemma_trim_idempotent(s);
    let t = chars::trim(s);
    chars::lemma_first_index_of_bounds(t, '>');
    if 0 <= k < t.len() && t[k] == '>' && (forall|j: int| 0 <= j < k ==> #[trigger] t[j] != '>') {
        chars::lemma_first_index_of(t, '>', k);
    }
}

proof fn lemma_comma_pieces_shift(p: Seq<char>, q: Seq<char>, j: int)
    requires
        0 <= j <= q.len(),
    ensures
        codegen::comma_pieces(p + q, p.len() + j) == codegen::comma_pieces(q, j),
    decreases q.len() - j,
{
    let x = p + q;
    if j < q.len() {
        lemma_comma_pieces_shift(p, q, j + 1);
        assert(x[p.len() + j] == q[j]);
    }
}

proof fn lemma_comma_pieces_no_comma(s: Seq<char>, i: int)
    requires
        0 <= i <= s.len(),
        forall|j: int| i <= j < s.len() ==> #[trigger] s[j] != ',',
    ensures
        codegen::comma_pieces(s, i) == seq![s.skip(i)],
    decreases s.len() - i,
{
    if i < s.len() {
        lemma_comma_pieces_no_comma(s, i + 1);
        assert(seq![s[i]] + s.skip(i + 1) =~= s.skip(i));
        assert(seq![s.skip(i + 1)].update(0, seq![s[i]] + s.skip(i + 1)) =~= seq![s.skip(i)]);
    } else {
        assert(s.skip(i) =~= Seq::<char>::empty());
    }
}

proof fn lemma_comma_pieces_len_pos(s: Seq<char>, i: int)
    ensures
        codegen::comma_pieces(s, i).len() >= 1,
    decreases s.len() - i,
{
    if i < s.len() {
        lemma_comma_pieces_len_pos(s, i + 1);
    }
}

proof fn lemma_comma_pieces_join(a: Seq<char>, b: Seq<char>, i: int)
    requires
        0 <= i <= a.len(),
    ensures
        codegen::comma_pieces(a + seq![','] + b, i) == codegen::comma_pieces(a, i)
            + codegen::comma_pieces(b, 0),
    decreases a.len() - i,
{
    let x = a + seq![','] + b;
    let q = codegen::comma_pieces(b, 0);
    if i == a.len() {
        assert(x =~= (a + seq![',']) + b);
        lemma_comma_pieces_shift(a + seq![','], b, 0);
        assert(x[i] == ',');
    } else {
        lemma_comma_pieces_join(a, b, i + 1);
        lemma_comma_pieces_len_pos(a, i + 1);
        let pa = codegen::comma_pieces(a, i + 1);
        assert(x[i] == a[i]);
        if a[i] == ',' {
            assert(seq![Seq::<char>::empty()] + (pa + q) =~= (seq![Seq::<char>::empty()] + pa) + q);
        } else {
            assert(template::prefix_first(seq![a[i]], pa + q) =~= template::prefix_first(
                seq![a[i]],
                pa,
            ) + q);
        }
    }
}

proof fn lemma_non_empty_trimmed_concat(p: Seq<Seq<char>>, q: Seq<Seq<char>>)
    ensures
        codegen::non_empty_trimmed(p + q) == codegen::non_empty_trimmed(p)
            + codegen::non_empty_trimmed(q),
    decreases q.len(),
{
    if q.len() == 0 {
        assert(p + q =~= p);
        assert(codegen::non_empty_trimmed(p) + Seq::<Seq<char>>::empty() =~= codegen::non_empty_trimmed(p));
    } else {
        lemma_non_empty_trimmed_concat(p, q.drop_last());
        assert((p + q).drop_last() =~= p + q.drop_last());
        assert((p + q).last() == q.last());
        let r = codegen::non_empty_trimmed(p);
        let rq = codegen::non_empty_trimmed(q.drop_last());
        assert((r + rq).push(chars::trim(q.last())) =~= r + rq.push(chars::trim(q.last())));
    }
}

/// An `--emit` value without a comma names one target, its trimmed text, or
/// none where that text is empty.
pub proof fn law_emit_single_target(s: Seq<char>)
    requires
        forall|j: int| 0 <= j < s.len() ==> #[trigger] s[j] != ',',
    ensures
        codegen::emit_target_names(s) == (if chars::trim(s).len() > 0 {
            seq![chars::trim(s)]
        } else {
            Seq::<Seq<char>>::empty()
        }),
{
    lemma_comma_pieces_no_comma(s, 0);
    assert(s.skip(0) =~= s);
    let ps = seq![s];
    assert(ps.drop_last() =~= Seq::<Seq<char>>::empty());
    assert(codegen::non_empty_trimmed(ps.drop_last()) == Seq::<Seq<char>>::empty());
}

/// The targets of `a,b` are those of `a` followed by those of `b`: every
/// comma-separated piece counts, the last one included.
pub proof fn law_emit_targets_split_at_comma(a: Seq<char>, b: Seq<char>)
    ensures
        codegen::emit_target_names(a + ","@ + b) == codegen::emit_target_names(a)
            + codegen::emit_target_names(b),
{
    reveal_strlit(",");
    assert(","@ =~= seq![',']);
    lemma_comma_pieces_join(a, b, 0);
    lemma_non_empty_trimmed_concat(codegen::comma_pieces(a, 0), codegen::comma_pieces(b, 0));
}

} // verus!
