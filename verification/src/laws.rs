//! The lexer's global laws, stated and proved against the machine.

use crate::machine::StK;
use crate::machine::init_st;
use crate::machine::in_string;
use crate::machine::is_path_at;
use crate::machine::lex_errs;
use crate::machine::lex_toks;
use crate::machine::spath_ok;
use crate::machine::step_spec;
use crate::machine::tiles;
use crate::machine::trace;
use crate::machine::wf_st;
use crate::pos::pos_walk;
use crate::scan::Cls;
use crate::scan::seek;
use crate::token::TokK;
use crate::token::TokS;
use vstd::prelude::*;

verus! {

/// Lexing loses no codepoint and reads none twice: the steps of the lexing
/// trace cover contiguous, abutting index ranges that together cover exactly
/// the whole text. Each step either emits one token — whose span runs from
/// the position at the start of its range to the position at its end, the
/// end position being reached by walking exactly the range's codepoints —
/// or covers skipped whitespace, a comment, or error recovery at the end of
/// the input. So the token spans' covered ranges, together with the skipped
/// stretches, reconstruct the original text.
pub proof fn lemma_lex_covers_input(t: Seq<char>)
    ensures
        tiles(trace(t, init_st()), 0, t.len() as int),
        forall|k: int|
            0 <= k < trace(t, init_st()).len() ==> {
                let r = #[trigger] trace(t, init_st())[k];
                &&& r.lo <= r.hi <= t.len()
                &&& r.pos_hi == pos_walk(r.pos_lo, t, r.lo, r.hi)
                &&& (match r.tok {
                    Some(tk) => tk.start == r.pos_lo && tk.end == r.pos_hi,
                    None => true,
                })
            },
        forall|k: int|
            0 <= k && k + 1 < trace(t, init_st()).len() ==> (#[trigger] trace(
                t,
                init_st(),
            )[k]).pos_hi == trace(t, init_st())[k + 1].pos_lo,
{
    crate::machine::lemma_trace_sound(t, init_st());
}

/// Lexing is deterministic: the token and diagnostic sequences are functions
/// of the input text alone, so repeated runs over the same text yield
/// identical results.
pub proof fn lemma_lex_deterministic(t1: Seq<char>, t2: Seq<char>)
    requires
        t1 == t2,
    ensures
        lex_toks(t1) == lex_toks(t2),
        lex_errs(t1) == lex_errs(t2),
{
}

/// Maximal munch for `->`: wherever the next two codepoints are `-` and
/// `>`, the lexer emits one `Implies` token covering both — never a `Minus`
/// followed by a `Greater`.
pub proof fn lemma_maximal_munch_arrow(t: Seq<char>, st: StK)
    requires
        wf_st(t, st),
        !in_string(st),
        st.i + 1 < t.len(),
        t[st.i] == '-',
        t[st.i + 1] == '>',
    ensures
        step_spec(t, st).st.i == st.i + 2,
        step_spec(t, st).tok == Some(
            TokS { kind: TokK::Implies, start: st.pos, end: pos_walk(st.pos, t, st.i, st.i + 2) },
        ),
{
    let i = st.i;
    assert(seek(Cls::PathChar, t, i + 1) == i + 1);
    assert(seek(Cls::PathChar, t, i) == i + 1);
    assert(!is_path_at(t, i));
}

/// Maximal munch for `<=`: wherever the next two codepoints are `<` and
/// `=`, the lexer emits one `LessEq` token covering both — never a `Less`
/// followed by an `Assign`.
pub proof fn lemma_maximal_munch_less_eq(t: Seq<char>, st: StK)
    requires
        wf_st(t, st),
        !in_string(st),
        st.i + 1 < t.len(),
        t[st.i] == '<',
        t[st.i + 1] == '=',
    ensures
        step_spec(t, st).st.i == st.i + 2,
        step_spec(t, st).tok == Some(
            TokS { kind: TokK::LessEq, start: st.pos, end: pos_walk(st.pos, t, st.i, st.i + 2) },
        ),
{
    let i = st.i;
    assert(seek(Cls::PathChar, t, i) == i);
    assert(!is_path_at(t, i));
    assert(seek(Cls::SPathChar, t, i + 1) == i + 1);
    assert(!spath_ok(t, i));
}

/// Maximal munch for `//`: wherever the next two codepoints are `/` and
/// `/`, the lexer emits one `Update` token covering both — never two
/// `Divide` tokens.
pub proof fn lemma_maximal_munch_update(t: Seq<char>, st: StK)
    requires
        wf_st(t, st),
        !in_string(st),
        st.i + 1 < t.len(),
        t[st.i] == '/',
        t[st.i + 1] == '/',
    ensures
        step_spec(t, st).st.i == st.i + 2,
        step_spec(t, st).tok == Some(
            TokS { kind: TokK::Update, start: st.pos, end: pos_walk(st.pos, t, st.i, st.i + 2) },
        ),
{
    let i = st.i;
    assert(seek(Cls::PathChar, t, i) == i);
    assert(!is_path_at(t, i));
}

} // verus!
