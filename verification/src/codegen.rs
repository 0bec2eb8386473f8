//! Code generation for server-side render functions.
//!
//! Each [`TargetEmitter`] takes a [`ParsedTemplate`] and produces a source file
//! containing a typed render function — no Liquid engine required at runtime.
use vstd::prelude::*;

use crate::chars;
use crate::template;
use crate::ParsedTemplate;

verus! {

/// Emits a server-side render function from a [`ParsedTemplate`].
pub trait TargetEmitter: Send + Sync {
    /// Generate the complete source file content for this target.
    fn emit(&self, template_name: &str, parsed: &ParsedTemplate) -> String;

    /// File extension for the generated output (e.g., `"cs"`, `"go"`).
    fn file_extension(&self) -> &str;
}


/// The raw pieces of `s` from index `i` on, split at each `,`; the first piece
/// is the one in progress at `i`.
pub open spec fn comma_pieces(s: Seq<char>, i: int) -> Seq<Seq<char>>
    decreases s.len() - i,
{
    if i >= s.len() {
        seq![Seq::<char>::empty()]
    } else if s[i] == ',' {
        seq![Seq::<char>::empty()] + comma_pieces(s, i + 1)
    } else {
        template::prefix_first(seq![s[i]], comma_pieces(s, i + 1))
    }
}

/// The pieces `ps` trimmed, the empty ones left out.
pub open spec fn non_empty_trimmed(ps: Seq<Seq<char>>) -> Seq<Seq<char>>
    decreases ps.len(),
{
    if ps.len() == 0 {
        Seq::empty()
    } else {
        let rest = non_empty_trimmed(ps.drop_last());
        let t = chars::trim(ps.last());
        if t.len() > 0 {
            rest.push(t)
        } else {
            rest
        }
    }
}

/// The render targets named by an `--emit` value such as `"csharp,go"`.
pub open spec fn emit_target_names(s: Seq<char>) -> Seq<Seq<char>> {
    non_empty_trimmed(comma_pieces(s, 0))
}

proof fn lemma_comma_pieces_len(s: Seq<char>, i: int)
    ensures
        comma_pieces(s, i).len() >= 1,
    decreases s.len() - i,
{
    if i < s.len() {
        lemma_comma_pieces_len(s, i + 1);
    }
}

/// The render targets named by the comma-separated `emit` value: each
/// comma-separated name trimmed, the empty ones left out.
pub fn emit_targets(emit: &str) -> (res: Vec<String>)
    ensures
        res.deep_view() == emit_target_names(emit@),
{
    let s = chars::chars_of(emit);
    let len = s.len();
    let mut targets: Vec<String> = Vec::new();
    let mut current: Vec<char> = Vec::new();
    let mut i: usize = 0;
    let ghost mut raw_done: Seq<Seq<char>> = Seq::empty();
    proof {
        lemma_comma_pieces_len(s@, 0);
        assert(template::prefix_first(current@, comma_pieces(s@, 0)) =~= comma_pieces(s@, 0));
        assert(raw_done + comma_pieces(s@, 0) =~= comma_pieces(s@, 0));
    }
    while i < len
        invariant
            i <= len == s.len(),
            comma_pieces(s@, 0) == raw_done + template::prefix_first(
                current@,
                comma_pieces(s@, i as int),
            ),
            targets.deep_view() == non_empty_trimmed(raw_done),
        decreases len - i,
    {
        proof {
            lemma_comma_pieces_len(s@, i + 1);
        }
        let p = Ghost(comma_pieces(s@, i + 1));
        if s[i] == ',' {
            proof {
                assert(template::prefix_first(current@, seq![Seq::<char>::empty()] + p@) =~= seq![
                    current@,
                ] + p@);
                assert(template::prefix_first(Seq::<char>::empty(), p@) =~= p@);
                assert(raw_done + (seq![current@] + p@) =~= raw_done.push(current@) + p@);
                assert(raw_done.push(current@).drop_last() =~= raw_done);
            }
            let t = chars::trimmed(&current);
            if t.len() > 0 {
                let ghost old_dv = targets.deep_view();
                targets.push(chars::string_of(&t));
                assert(targets.deep_view() =~= old_dv.push(t@));
            }
            proof {
                raw_done = raw_done.push(current@);
            }
            current = Vec::new();
        } else {
            proof {
                let c = s@[i as int];
                assert(current@ + (seq![c] + p@[0]) =~= current@.push(c) + p@[0]);
                assert(template::prefix_first(current@, template::prefix_first(seq![c], p@))
                    =~= template::prefix_first(current@.push(c), p@));
            }
            current.push(s[i]);
        }
        i = i + 1;
    }
    proof {
        assert(template::prefix_first(current@, seq![Seq::<char>::empty()]) =~= seq![current@]);
        assert(comma_pieces(s@, 0) =~= raw_done.push(current@));
        assert(raw_done.push(current@).drop_last() =~= raw_done);
    }
    let t = chars::trimmed(&current);
    if t.len() > 0 {
        let ghost old_dv = targets.deep_view();
        targets.push(chars::string_of(&t));
        assert(targets.deep_view() =~= old_dv.push(t@));
    }
    targets
}

} // verus!
