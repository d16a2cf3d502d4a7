//! What the frame stack guarantees of the instruction trees it builds:
//! written back out in order, a tree gives the operator stream it was built
//! from (every operator but `else` in any case, and every `else` too when
//! each is the first of its `if`); every instruction of a tree covers a
//! non-empty byte range that ends by the end of its tokens; every
//! instruction's opcode is the byte at its start address; and a stream is
//! refused exactly when some operator cannot be decoded or taken, or some
//! `block`, `loop` or `if` is left open.

use vstd::prelude::*;
use crate::error::ErrorV;
use crate::model::{InstrKind, InstrV};
use crate::instr::{
    FrameV, TokV, Token, base_v, block_type_at, close_v, end_leaf_v, leaf_spec, push_active_v, run_v, step_v,
    token_spec, tree_spec, wf_frames,
};
use crate::valtype::block_type_name;

verus! {

/// An instruction tree written back out as the operator stream it came
/// from: a `block`/`loop`/`if` as its opening operator followed by its
/// contents (an `if` with an `else` in between when its alternative is not
/// empty), the `end` instruction as an `end` operator, any other
/// instruction as itself.
pub open spec fn flat_one(i: InstrV) -> Seq<TokV>
    decreases i,
{
    if i.kind == InstrKind::Block {
        seq![TokV::Block { start: i.start }] + match i.body {
            Some(b) => flat_list(b),
            None => seq![],
        }
    } else if i.kind == InstrKind::Loop {
        seq![TokV::Loop { start: i.start, result_type: i.result_type }] + match i.body {
            Some(b) => flat_list(b),
            None => seq![],
        }
    } else if i.kind == InstrKind::If {
        seq![TokV::If { start: i.start, result_type: i.result_type }] + match i.consequence {
            Some(c) => flat_list(c),
            None => seq![],
        } + match i.alternative {
            Some(a) => if a.len() > 0 { seq![TokV::Else] + flat_list(a) } else { seq![] },
            None => seq![],
        }
    } else if i.kind == InstrKind::Plain && i.opcode == 0x0b {
        seq![TokV::End { start: i.start, end: i.end }]
    } else {
        seq![TokV::Leaf(i)]
    }
}

/// A list of instructions written back out as an operator stream.
pub open spec fn flat_list(s: Seq<InstrV>) -> Seq<TokV>
    decreases s,
{
    if s.len() == 0 {
        seq![]
    } else {
        flat_list(s.drop_last()) + flat_one(s.last())
    }
}

/// An open frame written back out: its opening operator and what it holds
/// so far.
pub open spec fn flat_frame(f: FrameV) -> Seq<TokV> {
    match f {
        FrameV::Top(l) => flat_list(l),
        FrameV::Block { start, body } => seq![TokV::Block { start }] + flat_list(body),
        FrameV::Loop { start, result_type, body } => seq![TokV::Loop { start, result_type }] + flat_list(body),
        FrameV::If { start, result_type, consequence, alternative, in_alt } =>
            seq![TokV::If { start, result_type }] + flat_list(consequence)
                + if in_alt { seq![TokV::Else] + flat_list(alternative) } else { seq![] },
    }
}

/// A frame stack written back out, bottom frame first.
pub open spec fn flat_frames(st: Seq<FrameV>) -> Seq<TokV>
    decreases st.len(),
{
    if st.len() == 0 {
        seq![]
    } else {
        flat_frames(st.drop_last()) + flat_frame(st.last())
    }
}

/// The decoded operators of `toks`.
pub open spec fn decoded(bytes: Seq<u8>, toks: Seq<Token>, lim: int) -> Seq<TokV> {
    Seq::new(toks.len(), |k: int| token_spec(bytes, toks[k], lim)->Ok_0)
}

/// Every `else` of the stream is the first `else` of the innermost open
/// `if` (as `wasmparser` checks while it reads the operators).
pub open spec fn else_follows_open_if(bytes: Seq<u8>, toks: Seq<Token>, lim: int) -> bool {
    forall|k: int| 0 <= k < toks.len() && #[trigger] token_spec(bytes, toks[k], lim) == Ok::<TokV, ErrorV>(TokV::Else)
        && run_v(bytes, toks.take(k), lim) is Ok
        ==> run_v(bytes, toks.take(k), lim)->Ok_0.last() matches FrameV::If { in_alt: false, .. }
}

/// The frame stack invariant used below: well formed, and an `if` frame
/// before its `else` has an empty alternative.
pub open spec fn frames_ok(st: Seq<FrameV>) -> bool {
    &&& wf_frames(st)
    &&& forall|k: int| 0 <= k < st.len() ==> (#[trigger] st[k] matches FrameV::If { in_alt: false, alternative, .. } ==> alternative.len() == 0)
}

/// An operator that is a leaf of the tree writes back out as itself.
pub open spec fn leaf_tok_ok(t: TokV) -> bool {
    t matches TokV::Leaf(i) ==> flat_one(i) == seq![t]
}

proof fn lemma_flat_list_push(s: Seq<InstrV>, x: InstrV)
    ensures
        flat_list(s.push(x)) == flat_list(s) + flat_one(x),
{
    assert(s.push(x).drop_last() =~= s);
}

proof fn lemma_flat_frames_push(st: Seq<FrameV>, f: FrameV)
    ensures
        flat_frames(st.push(f)) == flat_frames(st) + flat_frame(f),
{
    assert(st.push(f).drop_last() =~= st);
}

proof fn lemma_flat_frames_update_last(st: Seq<FrameV>, g: FrameV)
    requires
        st.len() >= 1,
    ensures
        flat_frames(st.update(st.len() - 1, g)) == flat_frames(st.drop_last()) + flat_frame(g),
{
    assert(st.update(st.len() - 1, g).drop_last() =~= st.drop_last());
}

proof fn lemma_flat_push_active(f: FrameV, x: InstrV)
    ensures
        flat_frame(push_active_v(f, x)) == flat_frame(f) + flat_one(x),
{
    match f {
        FrameV::Top(l) => {
            lemma_flat_list_push(l, x);
        },
        FrameV::Block { start, body } => {
            lemma_flat_list_push(body, x);
            assert(seq![TokV::Block { start }] + (flat_list(body) + flat_one(x))
                =~= seq![TokV::Block { start }] + flat_list(body) + flat_one(x));
        },
        FrameV::Loop { start, result_type, body } => {
            lemma_flat_list_push(body, x);
            assert(seq![TokV::Loop { start, result_type }] + (flat_list(body) + flat_one(x))
                =~= seq![TokV::Loop { start, result_type }] + flat_list(body) + flat_one(x));
        },
        FrameV::If { start, result_type, consequence, alternative, in_alt } => {
            let h = seq![TokV::If { start, result_type }];
            if in_alt {
                lemma_flat_list_push(alternative, x);
                assert(h + flat_list(consequence) + (seq![TokV::Else] + (flat_list(alternative) + flat_one(x)))
                    =~= h + flat_list(consequence) + (seq![TokV::Else] + flat_list(alternative)) + flat_one(x));
            } else {
                lemma_flat_list_push(consequence, x);
                assert(h + (flat_list(consequence) + flat_one(x)) + Seq::<TokV>::empty()
                    =~= h + flat_list(consequence) + Seq::<TokV>::empty() + flat_one(x));
            }
        },
    }
}

proof fn lemma_flat_close(f: FrameV, start: u32, end: u32)
    requires
        !(f is Top),
        f matches FrameV::If { in_alt: false, alternative, .. } ==> alternative.len() == 0,
    ensures
        flat_one(close_v(f, end_leaf_v(start, end), end)) == flat_frame(f) + seq![TokV::End { start, end }],
{
    let leaf = end_leaf_v(start, end);
    assert(flat_one(leaf) == seq![TokV::End { start, end }]);
    match f {
        FrameV::Block { start: s, body } => {
            lemma_flat_list_push(body, leaf);
            assert(seq![TokV::Block { start: s }] + (flat_list(body) + flat_one(leaf))
                =~= seq![TokV::Block { start: s }] + flat_list(body) + seq![TokV::End { start, end }]);
        },
        FrameV::Loop { start: s, result_type, body } => {
            lemma_flat_list_push(body, leaf);
            assert(seq![TokV::Loop { start: s, result_type }] + (flat_list(body) + flat_one(leaf))
                =~= seq![TokV::Loop { start: s, result_type }] + flat_list(body) + seq![TokV::End { start, end }]);
        },
        FrameV::If { start: s, result_type, consequence, alternative, in_alt } => {
            let h = seq![TokV::If { start: s, result_type }];
            if in_alt {
                lemma_flat_list_push(alternative, leaf);
                assert(alternative.push(leaf).len() > 0);
                assert(h + flat_list(consequence) + (seq![TokV::Else] + (flat_list(alternative) + flat_one(leaf)))
                    =~= h + flat_list(consequence) + (seq![TokV::Else] + flat_list(alternative)) + seq![TokV::End { start, end }]);
            } else {
                lemma_flat_list_push(consequence, leaf);
                assert(h + (flat_list(consequence) + flat_one(leaf)) + Seq::<TokV>::empty()
                    =~= h + flat_list(consequence) + Seq::<TokV>::empty() + seq![TokV::End { start, end }]);
            }
        },
        FrameV::Top(_) => {},
    }
}

/// One step of the frame stack keeps the invariant and appends the
/// operator to what the stack writes back out.
proof fn lemma_step_flat(st: Seq<FrameV>, t: TokV)
    requires
        frames_ok(st),
        leaf_tok_ok(t),
        t is Else ==> st.last() matches FrameV::If { in_alt: false, .. },
        step_v(st, t) is Ok,
    ensures
        frames_ok(step_v(st, t)->Ok_0),
        flat_frames(step_v(st, t)->Ok_0) == flat_frames(st).push(t),
{
    let last = st.len() - 1;
    let st2 = step_v(st, t)->Ok_0;
    match t {
        TokV::Block { start } => {
            lemma_flat_frames_push(st, FrameV::Block { start, body: seq![] });
            assert(flat_frame(FrameV::Block { start, body: seq![] }) =~= seq![t]);
        },
        TokV::Loop { start, result_type } => {
            lemma_flat_frames_push(st, FrameV::Loop { start, result_type, body: seq![] });
            assert(flat_frame(FrameV::Loop { start, result_type, body: seq![] }) =~= seq![t]);
        },
        TokV::If { start, result_type } => {
            let f = FrameV::If { start, result_type, consequence: seq![], alternative: seq![], in_alt: false };
            lemma_flat_frames_push(st, f);
            assert(flat_frame(f) =~= seq![t]);
        },
        TokV::Else => {
            let f = st[last];
            let g = st2[last];
            lemma_flat_frames_update_last(st, g);
            assert(st == st.drop_last().push(f));
            lemma_flat_frames_push(st.drop_last(), f);
            assert(flat_frame(g) =~= flat_frame(f).push(TokV::Else));
            assert forall|k: int| 0 <= k < st2.len() implies (#[trigger] st2[k] matches FrameV::If { in_alt: false, alternative, .. } ==> alternative.len() == 0) by {
                if k != last {
                    assert(st2[k] == st[k]);
                }
            }
        },
        TokV::End { start, end } => {
            let leaf = end_leaf_v(start, end);
            if st.len() == 1 {
                lemma_flat_push_active(st[0], leaf);
                lemma_flat_frames_update_last(st, push_active_v(st[0], leaf));
                lemma_flat_frames_push(st.drop_last(), st[0]);
                assert(st.drop_last().push(st[0]) == st);
                assert(flat_frames(st.drop_last()) == Seq::<TokV>::empty());
            } else {
                let rest = st.drop_last();
                let i = close_v(st[last], leaf, end);
                lemma_flat_close(st[last], start, end);
                lemma_flat_push_active(rest[last - 1], i);
                lemma_flat_frames_update_last(rest, push_active_v(rest[last - 1], i));
                assert(rest == rest.drop_last().push(rest[last - 1]));
                lemma_flat_frames_push(rest.drop_last(), rest[last - 1]);
                assert(st == rest.push(st[last]));
                lemma_flat_frames_push(rest, st[last]);
                assert forall|k: int| 0 <= k < st2.len() implies (#[trigger] st2[k] matches FrameV::If { in_alt: false, alternative, .. } ==> alternative.len() == 0) by {
                    if k != last - 1 {
                        assert(st2[k] == st[k]);
                    } else {
                        assert(st[k] matches FrameV::If { in_alt: false, alternative, .. } ==> alternative.len() == 0);
                    }
                }
            }
        },
        TokV::Leaf(i) => {
            lemma_flat_push_active(st[last], i);
            lemma_flat_frames_update_last(st, push_active_v(st[last], i));
            assert(st == st.drop_last().push(st[last]));
            lemma_flat_frames_push(st.drop_last(), st[last]);
            assert forall|k: int| 0 <= k < st2.len() implies (#[trigger] st2[k] matches FrameV::If { in_alt: false, alternative, .. } ==> alternative.len() == 0) by {
                if k != last {
                    assert(st2[k] == st[k]);
                } else {
                    assert(st[k] matches FrameV::If { in_alt: false, alternative, .. } ==> alternative.len() == 0);
                }
            }
        },
    }
}

/// A leaf operator writes back out as itself: decoding never makes a leaf
/// of a structural kind or of `end`.
proof fn lemma_token_leaf_ok(bytes: Seq<u8>, t: Token, lim: int)
    requires
        token_spec(bytes, t, lim) is Ok,
    ensures
        leaf_tok_ok(token_spec(bytes, t, lim)->Ok_0),
{
}

proof fn lemma_run_flat(bytes: Seq<u8>, toks: Seq<Token>, lim: int, i: int)
    requires
        0 <= i <= toks.len(),
        run_v(bytes, toks.take(i), lim) is Ok,
        else_follows_open_if(bytes, toks, lim),
    ensures
        frames_ok(run_v(bytes, toks.take(i), lim)->Ok_0),
        flat_frames(run_v(bytes, toks.take(i), lim)->Ok_0) == decoded(bytes, toks, lim).take(i),
    decreases i,
{
    if i == 0 {
        let st = run_v(bytes, toks.take(0), lim)->Ok_0;
        assert(toks.take(0) =~= Seq::<Token>::empty());
        assert(st == seq![FrameV::Top(seq![])]);
        assert(st.drop_last() =~= Seq::<FrameV>::empty());
        assert(flat_frames(st) == flat_frames(st.drop_last()) + flat_frame(st.last()));
        assert(flat_list(Seq::<InstrV>::empty()) == Seq::<TokV>::empty());
        assert(flat_frames(st) =~= decoded(bytes, toks, lim).take(0));
    } else {
        assert(toks.take(i).drop_last() =~= toks.take(i - 1));
        assert(toks.take(i).last() == toks[i - 1]);
        lemma_run_flat(bytes, toks, lim, i - 1);
        let st = run_v(bytes, toks.take(i - 1), lim)->Ok_0;
        let t = token_spec(bytes, toks[i - 1], lim)->Ok_0;
        lemma_token_leaf_ok(bytes, toks[i - 1], lim);
        lemma_step_flat(st, t);
        assert(decoded(bytes, toks, lim).take(i) =~= decoded(bytes, toks, lim).take(i - 1).push(t));
    }
}

/// Rebuilding the nesting loses nothing and invents nothing: the
/// instruction tree that the frame stack builds from an operator stream,
/// written back out in order, is exactly the decoded stream (given that
/// each `else` is the first of its `if`, as the decoder checks).
pub proof fn law_tree_writes_back_to_stream(bytes: Seq<u8>, toks: Seq<Token>, lim: int)
    requires
        tree_spec(bytes, toks, lim) is Ok,
        else_follows_open_if(bytes, toks, lim),
    ensures
        flat_list(tree_spec(bytes, toks, lim)->Ok_0) == decoded(bytes, toks, lim),
{
    assert(toks.take(toks.len() as int) =~= toks);
    lemma_run_flat(bytes, toks, lim, toks.len() as int);
    let st = run_v(bytes, toks, lim)->Ok_0;
    assert(st.drop_last() =~= Seq::<FrameV>::empty());
    assert(decoded(bytes, toks, lim).take(toks.len() as int) =~= decoded(bytes, toks, lim));
    assert(flat_frames(st) == flat_frames(st.drop_last()) + flat_frame(st.last()));
    assert(flat_frames(st.drop_last()) + flat_frame(st.last()) =~= flat_frame(st.last()));
}

/// An operator stream with its `else` operators left out.
pub open spec fn without_else(ts: Seq<TokV>) -> Seq<TokV>
    decreases ts.len(),
{
    if ts.len() == 0 {
        seq![]
    } else if ts.last() is Else {
        without_else(ts.drop_last())
    } else {
        without_else(ts.drop_last()).push(ts.last())
    }
}

proof fn lemma_without_else_push(ts: Seq<TokV>, t: TokV)
    ensures
        without_else(ts.push(t)) == if t is Else { without_else(ts) } else { without_else(ts).push(t) },
{
    assert(ts.push(t).drop_last() =~= ts);
}

/// One step of the frame stack appends the operator to what the stack
/// writes back out, `else` operators left out; a second `else` of an `if`
/// changes nothing.
proof fn lemma_step_without_else(st: Seq<FrameV>, t: TokV)
    requires
        frames_ok(st),
        leaf_tok_ok(t),
        step_v(st, t) is Ok,
    ensures
        frames_ok(step_v(st, t)->Ok_0),
        without_else(flat_frames(step_v(st, t)->Ok_0)) == without_else(flat_frames(st).push(t)),
{
    lemma_without_else_push(flat_frames(st), t);
    if t is Else && !(st.last() matches FrameV::If { in_alt: false, .. }) {
        let st2 = step_v(st, t)->Ok_0;
        assert(st2 =~= st);
    } else {
        lemma_step_flat(st, t);
    }
}

proof fn lemma_run_without_else(bytes: Seq<u8>, toks: Seq<Token>, lim: int, i: int)
    requires
        0 <= i <= toks.len(),
        run_v(bytes, toks.take(i), lim) is Ok,
    ensures
        frames_ok(run_v(bytes, toks.take(i), lim)->Ok_0),
        without_else(flat_frames(run_v(bytes, toks.take(i), lim)->Ok_0)) == without_else(decoded(bytes, toks, lim).take(i)),
    decreases i,
{
    if i == 0 {
        let st = run_v(bytes, toks.take(0), lim)->Ok_0;
        assert(toks.take(0) =~= Seq::<Token>::empty());
        assert(st == seq![FrameV::Top(seq![])]);
        assert(st.drop_last() =~= Seq::<FrameV>::empty());
        assert(flat_frames(st) == flat_frames(st.drop_last()) + flat_frame(st.last()));
        assert(flat_list(Seq::<InstrV>::empty()) == Seq::<TokV>::empty());
        assert(flat_frames(st) =~= Seq::<TokV>::empty());
        assert(decoded(bytes, toks, lim).take(0) =~= Seq::<TokV>::empty());
    } else {
        assert(toks.take(i).drop_last() =~= toks.take(i - 1));
        assert(toks.take(i).last() == toks[i - 1]);
        lemma_run_without_else(bytes, toks, lim, i - 1);
        let st = run_v(bytes, toks.take(i - 1), lim)->Ok_0;
        let t = token_spec(bytes, toks[i - 1], lim)->Ok_0;
        lemma_token_leaf_ok(bytes, toks[i - 1], lim);
        lemma_step_without_else(st, t);
        let d = decoded(bytes, toks, lim);
        assert(d.take(i) =~= d.take(i - 1).push(t));
        lemma_without_else_push(d.take(i - 1), t);
        lemma_without_else_push(flat_frames(st), t);
    }
}

/// The frame stack keeps every operator but `else`, in stream order: for
/// every stream it accepts, the tree written back out, `else` operators
/// left out, is the decoded stream without its `else` operators. So the
/// leaves of the tree in pre-order (body, then consequence, then
/// alternative) are the stream's non-structural operators in order, and its
/// `block`/`loop`/`if` nodes in pre-order are the stream's `block`, `loop`
/// and `if` operators in order.
pub proof fn law_tree_keeps_stream_order(bytes: Seq<u8>, toks: Seq<Token>, lim: int)
    requires
        tree_spec(bytes, toks, lim) is Ok,
    ensures
        without_else(flat_list(tree_spec(bytes, toks, lim)->Ok_0)) == without_else(decoded(bytes, toks, lim)),
{
    assert(toks.take(toks.len() as int) =~= toks);
    lemma_run_without_else(bytes, toks, lim, toks.len() as int);
    let st = run_v(bytes, toks, lim)->Ok_0;
    assert(st.drop_last() =~= Seq::<FrameV>::empty());
    assert(decoded(bytes, toks, lim).take(toks.len() as int) =~= decoded(bytes, toks, lim));
    assert(flat_frames(st) == flat_frames(st.drop_last()) + flat_frame(st.last()));
    assert(flat_frames(st.drop_last()) + flat_frame(st.last()) =~= flat_frame(st.last()));
}

// ---------------------------------------------------------------------
// Byte ranges

/// The instruction and everything it encloses cover non-empty byte ranges.
pub open spec fn ranges_ok(i: InstrV) -> bool
    decreases i,
{
    &&& i.start < i.end
    &&& match i.body {
        Some(b) => ranges_ok_list(b),
        None => true,
    }
    &&& match i.consequence {
        Some(c) => ranges_ok_list(c),
        None => true,
    }
    &&& match i.alternative {
        Some(a) => ranges_ok_list(a),
        None => true,
    }
}

/// Every instruction of the list, and everything they enclose, covers a
/// non-empty byte range.
pub open spec fn ranges_ok_list(s: Seq<InstrV>) -> bool
    decreases s,
{
    s.len() == 0 || (ranges_ok_list(s.drop_last()) && ranges_ok(s.last()))
}

/// Tokens in stream order: starts strictly increase and every token has a
/// non-empty range.
pub open spec fn tokens_ordered(toks: Seq<Token>) -> bool {
    &&& forall|j: int, k: int| 0 <= j < k < toks.len() ==> toks[j].start < toks[k].start
    &&& forall|k: int| 0 <= k < toks.len() ==> (#[trigger] toks[k]).start < toks[k].end
}

/// The frame's lists are in order and its operator started no later than
/// `bound`.
pub open spec fn frame_ranges_ok(f: FrameV, bound: int) -> bool {
    match f {
        FrameV::Top(l) => ranges_ok_list(l),
        FrameV::Block { start, body } => start <= bound && ranges_ok_list(body),
        FrameV::Loop { start, body, .. } => start <= bound && ranges_ok_list(body),
        FrameV::If { start, consequence, alternative, .. } =>
            start <= bound && ranges_ok_list(consequence) && ranges_ok_list(alternative),
    }
}

pub open spec fn frames_ranges_ok(st: Seq<FrameV>, bound: int) -> bool {
    forall|k: int| 0 <= k < st.len() ==> frame_ranges_ok(#[trigger] st[k], bound)
}

proof fn lemma_ranges_push(s: Seq<InstrV>, x: InstrV)
    requires
        ranges_ok_list(s),
        ranges_ok(x),
    ensures
        ranges_ok_list(s.push(x)),
{
    assert(s.push(x).drop_last() =~= s);
}

proof fn lemma_frame_ranges_push(f: FrameV, x: InstrV, bound: int)
    requires
        frame_ranges_ok(f, bound),
        ranges_ok(x),
    ensures
        frame_ranges_ok(push_active_v(f, x), bound),
{
    match f {
        FrameV::Top(l) => lemma_ranges_push(l, x),
        FrameV::Block { body, .. } => lemma_ranges_push(body, x),
        FrameV::Loop { body, .. } => lemma_ranges_push(body, x),
        FrameV::If { consequence, alternative, in_alt, .. } => if in_alt {
            lemma_ranges_push(alternative, x)
        } else {
            lemma_ranges_push(consequence, x)
        },
    }
}

proof fn lemma_frames_ranges_weaken(st: Seq<FrameV>, b1: int, b2: int)
    requires
        frames_ranges_ok(st, b1),
        b1 <= b2,
    ensures
        frames_ranges_ok(st, b2),
{
    assert forall|k: int| 0 <= k < st.len() implies frame_ranges_ok(#[trigger] st[k], b2) by {
        assert(frame_ranges_ok(st[k], b1));
    }
}

/// A leaf decoded from a token covers the token's range and encloses nothing.
proof fn lemma_token_leaf_range(bytes: Seq<u8>, t: Token, lim: int)
    requires
        token_spec(bytes, t, lim) is Ok,
        t.start < t.end,
    ensures
        token_spec(bytes, t, lim)->Ok_0 matches TokV::Leaf(i) ==> ranges_ok(i),
{
}

proof fn lemma_step_ranges(st: Seq<FrameV>, t: TokV, tstart: u32, tend: u32, bound: int)
    requires
        wf_frames(st),
        frames_ranges_ok(st, bound),
        bound < tstart < tend,
        t matches TokV::Leaf(i) ==> ranges_ok(i),
        t matches TokV::End { start, end } ==> start == tstart && end == tend,
        t matches TokV::Block { start } ==> start == tstart,
        t matches TokV::Loop { start, .. } ==> start == tstart,
        t matches TokV::If { start, .. } ==> start == tstart,
        step_v(st, t) is Ok,
    ensures
        frames_ranges_ok(step_v(st, t)->Ok_0, tstart as int),
{
    let last = st.len() - 1;
    let st2 = step_v(st, t)->Ok_0;
    lemma_frames_ranges_weaken(st, bound, tstart as int);
    match t {
        TokV::Block { .. } | TokV::Loop { .. } | TokV::If { .. } => {
            assert forall|k: int| 0 <= k < st2.len() implies frame_ranges_ok(#[trigger] st2[k], tstart as int) by {
                if k < st.len() {
                    assert(st2[k] == st[k]);
                } else {
                    assert(ranges_ok_list(Seq::<InstrV>::empty()));
                }
            }
        },
        TokV::Else => {
            assert forall|k: int| 0 <= k < st2.len() implies frame_ranges_ok(#[trigger] st2[k], tstart as int) by {
                assert(frame_ranges_ok(st[k], tstart as int));
            }
        },
        TokV::End { start, end } => {
            let leaf = end_leaf_v(start, end);
            assert(ranges_ok(leaf));
            if st.len() == 1 {
                lemma_frame_ranges_push(st[0], leaf, tstart as int);
            } else {
                let f = st[last];
                assert(frame_ranges_ok(f, tstart as int));
                let i = close_v(f, leaf, end);
                match f {
                    FrameV::Block { body, .. } => lemma_ranges_push(body, leaf),
                    FrameV::Loop { body, .. } => lemma_ranges_push(body, leaf),
                    FrameV::If { consequence, alternative, in_alt, .. } => if in_alt {
                        lemma_ranges_push(alternative, leaf)
                    } else {
                        lemma_ranges_push(consequence, leaf)
                    },
                    FrameV::Top(_) => {},
                }
                assert(ranges_ok(i));
                lemma_frame_ranges_push(st[last - 1], i, tstart as int);
                assert forall|k: int| 0 <= k < st2.len() implies frame_ranges_ok(#[trigger] st2[k], tstart as int) by {
                    if k != last - 1 {
                        assert(st2[k] == st[k]);
                    }
                }
            }
        },
        TokV::Leaf(i) => {
            lemma_frame_ranges_push(st[last], i, tstart as int);
            assert forall|k: int| 0 <= k < st2.len() implies frame_ranges_ok(#[trigger] st2[k], tstart as int) by {
                if k != last {
                    assert(st2[k] == st[k]);
                }
            }
        },
    }
}

proof fn lemma_wf_step(st: Seq<FrameV>, t: TokV)
    requires
        wf_frames(st),
        step_v(st, t) is Ok,
    ensures
        wf_frames(step_v(st, t)->Ok_0),
{
    let st2 = step_v(st, t)->Ok_0;
    let last = st.len() - 1;
    assert forall|k: int| 1 <= k < st2.len() implies !(#[trigger] st2[k] is Top) by {
        match t {
            TokV::Block { .. } | TokV::Loop { .. } | TokV::If { .. } => {
                if k < st.len() {
                    assert(st2[k] == st[k]);
                }
            },
            TokV::Else => {
                if k < last {
                    assert(st2[k] == st[k]);
                }
            },
            TokV::End { start, end } => {
                if st.len() > 1 && k < last - 1 {
                    assert(st2[k] == st[k]);
                } else if st.len() > 1 {
                    assert(!(st[last - 1] is Top));
                }
            },
            TokV::Leaf(i) => {
                if k < last {
                    assert(st2[k] == st[k]);
                } else {
                    assert(!(st[last] is Top));
                }
            },
        }
    }
}

proof fn lemma_run_ranges(bytes: Seq<u8>, toks: Seq<Token>, lim: int, i: int)
    requires
        1 <= i <= toks.len(),
        run_v(bytes, toks.take(i), lim) is Ok,
        tokens_ordered(toks),
    ensures
        wf_frames(run_v(bytes, toks.take(i), lim)->Ok_0),
        frames_ranges_ok(run_v(bytes, toks.take(i), lim)->Ok_0, toks[i - 1].start as int),
    decreases i,
{
    assert(toks.take(i).drop_last() =~= toks.take(i - 1));
    assert(toks.take(i).last() == toks[i - 1]);
    let t = token_spec(bytes, toks[i - 1], lim)->Ok_0;
    lemma_token_leaf_range(bytes, toks[i - 1], lim);
    let tk = toks[i - 1];
    if i == 1 {
        assert(toks.take(0) =~= Seq::<Token>::empty());
        let st = run_v(bytes, toks.take(0), lim)->Ok_0;
        assert(st == seq![FrameV::Top(seq![])]);
        assert(ranges_ok_list(Seq::<InstrV>::empty()));
        assert(frames_ranges_ok(st, tk.start as int - 1));
        lemma_step_ranges(st, t, tk.start, tk.end, tk.start as int - 1);
        lemma_wf_step(st, t);
    } else {
        lemma_run_ranges(bytes, toks, lim, i - 1);
        let st = run_v(bytes, toks.take(i - 1), lim)->Ok_0;
        assert(toks[i - 2].start < tk.start);
        lemma_step_ranges(st, t, tk.start, tk.end, toks[i - 2].start as int);
        lemma_wf_step(st, t);
    }
}

/// Every instruction of a tree built from tokens in stream order, and every
/// instruction it encloses, covers a non-empty byte range.
pub proof fn law_tree_ranges_nonempty(bytes: Seq<u8>, toks: Seq<Token>, lim: int)
    requires
        tree_spec(bytes, toks, lim) is Ok,
        tokens_ordered(toks),
    ensures
        ranges_ok_list(tree_spec(bytes, toks, lim)->Ok_0),
{
    assert(toks.take(toks.len() as int) =~= toks);
    if toks.len() == 0 {
        assert(ranges_ok_list(Seq::<InstrV>::empty()));
    } else {
        lemma_run_ranges(bytes, toks, lim, toks.len() as int);
        let st = run_v(bytes, toks, lim)->Ok_0;
        assert(frame_ranges_ok(st[0], toks[toks.len() - 1].start as int));
    }
}

// ---------------------------------------------------------------------
// Opcodes

/// The byte at the instruction's start address is its opcode, and so for
/// everything it encloses.
pub open spec fn opcode_at_start(bytes: Seq<u8>, i: InstrV) -> bool
    decreases i,
{
    &&& i.start < bytes.len()
    &&& bytes[i.start as int] as u32 == i.opcode
    &&& match i.body {
        Some(b) => opcodes_at_start(bytes, b),
        None => true,
    }
    &&& match i.consequence {
        Some(c) => opcodes_at_start(bytes, c),
        None => true,
    }
    &&& match i.alternative {
        Some(a) => opcodes_at_start(bytes, a),
        None => true,
    }
}

/// Every instruction of the list, and everything they enclose, starts at
/// its opcode byte.
pub open spec fn opcodes_at_start(bytes: Seq<u8>, s: Seq<InstrV>) -> bool
    decreases s,
{
    s.len() == 0 || (opcodes_at_start(bytes, s.drop_last()) && opcode_at_start(bytes, s.last()))
}

/// The frame's lists start at their opcodes, and its opening operator sits
/// at its start address.
pub open spec fn frame_opcodes_ok(bytes: Seq<u8>, f: FrameV) -> bool {
    match f {
        FrameV::Top(l) => opcodes_at_start(bytes, l),
        FrameV::Block { start, body } => start < bytes.len() && bytes[start as int] == 0x02
            && opcodes_at_start(bytes, body),
        FrameV::Loop { start, body, .. } => start < bytes.len() && bytes[start as int] == 0x03
            && opcodes_at_start(bytes, body),
        FrameV::If { start, consequence, alternative, .. } => start < bytes.len() && bytes[start as int] == 0x04
            && opcodes_at_start(bytes, consequence) && opcodes_at_start(bytes, alternative),
    }
}

pub open spec fn frames_opcodes_ok(bytes: Seq<u8>, st: Seq<FrameV>) -> bool {
    forall|k: int| 0 <= k < st.len() ==> frame_opcodes_ok(bytes, #[trigger] st[k])
}

/// Tokens whose recorded start is their position in the binary.
pub open spec fn tokens_at_position(bytes: Seq<u8>, toks: Seq<Token>) -> bool {
    forall|k: int| 0 <= k < toks.len() ==> (#[trigger] toks[k]).pos == toks[k].start && toks[k].pos < bytes.len()
}

proof fn lemma_opcodes_push(bytes: Seq<u8>, s: Seq<InstrV>, x: InstrV)
    requires
        opcodes_at_start(bytes, s),
        opcode_at_start(bytes, x),
    ensures
        opcodes_at_start(bytes, s.push(x)),
{
    assert(s.push(x).drop_last() =~= s);
}

proof fn lemma_frame_opcodes_push(bytes: Seq<u8>, f: FrameV, x: InstrV)
    requires
        frame_opcodes_ok(bytes, f),
        opcode_at_start(bytes, x),
    ensures
        frame_opcodes_ok(bytes, push_active_v(f, x)),
{
    match f {
        FrameV::Top(l) => lemma_opcodes_push(bytes, l, x),
        FrameV::Block { body, .. } => lemma_opcodes_push(bytes, body, x),
        FrameV::Loop { body, .. } => lemma_opcodes_push(bytes, body, x),
        FrameV::If { consequence, alternative, in_alt, .. } => if in_alt {
            lemma_opcodes_push(bytes, alternative, x)
        } else {
            lemma_opcodes_push(bytes, consequence, x)
        },
    }
}

/// What the token of an operator at its start address opens or is starts
/// at its opcode byte.
proof fn lemma_token_opcode(bytes: Seq<u8>, t: Token, lim: int)
    requires
        token_spec(bytes, t, lim) is Ok,
        t.pos == t.start,
        t.pos < bytes.len(),
    ensures
        token_spec(bytes, t, lim)->Ok_0 matches TokV::Leaf(i) ==> opcode_at_start(bytes, i),
        token_spec(bytes, t, lim)->Ok_0 matches TokV::End { start, .. } ==> start < bytes.len() && bytes[start as int] == 0x0b,
        token_spec(bytes, t, lim)->Ok_0 matches TokV::Block { start } ==> start < bytes.len() && bytes[start as int] == 0x02,
        token_spec(bytes, t, lim)->Ok_0 matches TokV::Loop { start, .. } ==> start < bytes.len() && bytes[start as int] == 0x03,
        token_spec(bytes, t, lim)->Ok_0 matches TokV::If { start, .. } ==> start < bytes.len() && bytes[start as int] == 0x04,
{
}

proof fn lemma_step_opcodes(bytes: Seq<u8>, st: Seq<FrameV>, t: TokV)
    requires
        st.len() >= 1,
        frames_opcodes_ok(bytes, st),
        t matches TokV::Leaf(i) ==> opcode_at_start(bytes, i),
        t matches TokV::End { start, .. } ==> start < bytes.len() && bytes[start as int] == 0x0b,
        t matches TokV::Block { start } ==> start < bytes.len() && bytes[start as int] == 0x02,
        t matches TokV::Loop { start, .. } ==> start < bytes.len() && bytes[start as int] == 0x03,
        t matches TokV::If { start, .. } ==> start < bytes.len() && bytes[start as int] == 0x04,
        step_v(st, t) is Ok,
    ensures
        frames_opcodes_ok(bytes, step_v(st, t)->Ok_0),
        step_v(st, t)->Ok_0.len() >= 1,
{
    let last = st.len() - 1;
    let st2 = step_v(st, t)->Ok_0;
    match t {
        TokV::Block { .. } | TokV::Loop { .. } | TokV::If { .. } => {
            assert forall|k: int| 0 <= k < st2.len() implies frame_opcodes_ok(bytes, #[trigger] st2[k]) by {
                if k < st.len() {
                    assert(st2[k] == st[k]);
                } else {
                    assert(opcodes_at_start(bytes, Seq::<InstrV>::empty()));
                }
            }
        },
        TokV::Else => {
            assert forall|k: int| 0 <= k < st2.len() implies frame_opcodes_ok(bytes, #[trigger] st2[k]) by {
                assert(frame_opcodes_ok(bytes, st[k]));
            }
        },
        TokV::End { start, end } => {
            let leaf = end_leaf_v(start, end);
            assert(opcode_at_start(bytes, leaf));
            if st.len() == 1 {
                lemma_frame_opcodes_push(bytes, st[0], leaf);
                assert forall|k: int| 0 <= k < st2.len() implies frame_opcodes_ok(bytes, #[trigger] st2[k]) by {}
            } else {
                let f = st[last];
                assert(frame_opcodes_ok(bytes, f));
                let i = close_v(f, leaf, end);
                match f {
                    FrameV::Block { body, .. } => lemma_opcodes_push(bytes, body, leaf),
                    FrameV::Loop { body, .. } => lemma_opcodes_push(bytes, body, leaf),
                    FrameV::If { consequence, alternative, in_alt, .. } => if in_alt {
                        lemma_opcodes_push(bytes, alternative, leaf)
                    } else {
                        lemma_opcodes_push(bytes, consequence, leaf)
                    },
                    FrameV::Top(_) => {},
                }
                assert(opcode_at_start(bytes, i));
                lemma_frame_opcodes_push(bytes, st[last - 1], i);
                assert forall|k: int| 0 <= k < st2.len() implies frame_opcodes_ok(bytes, #[trigger] st2[k]) by {
                    if k != last - 1 {
                        assert(st2[k] == st[k]);
                    }
                }
            }
        },
        TokV::Leaf(i) => {
            lemma_frame_opcodes_push(bytes, st[last], i);
            assert forall|k: int| 0 <= k < st2.len() implies frame_opcodes_ok(bytes, #[trigger] st2[k]) by {
                if k != last {
                    assert(st2[k] == st[k]);
                }
            }
        },
    }
}

proof fn lemma_run_opcodes(bytes: Seq<u8>, toks: Seq<Token>, lim: int, i: int)
    requires
        0 <= i <= toks.len(),
        run_v(bytes, toks.take(i), lim) is Ok,
        tokens_at_position(bytes, toks),
    ensures
        frames_opcodes_ok(bytes, run_v(bytes, toks.take(i), lim)->Ok_0),
        run_v(bytes, toks.take(i), lim)->Ok_0.len() >= 1,
    decreases i,
{
    if i == 0 {
        assert(toks.take(0) =~= Seq::<Token>::empty());
        let st = run_v(bytes, toks.take(0), lim)->Ok_0;
        assert(opcodes_at_start(bytes, Seq::<InstrV>::empty()));
        assert(frames_opcodes_ok(bytes, st));
    } else {
        assert(toks.take(i).drop_last() =~= toks.take(i - 1));
        assert(toks.take(i).last() == toks[i - 1]);
        lemma_run_opcodes(bytes, toks, lim, i - 1);
        let st = run_v(bytes, toks.take(i - 1), lim)->Ok_0;
        let tk = toks[i - 1];
        lemma_token_opcode(bytes, tk, lim);
        lemma_step_opcodes(bytes, st, token_spec(bytes, tk, lim)->Ok_0);
    }
}

/// Every instruction of a tree built from tokens recorded at their
/// positions in the binary, and every instruction it encloses, starts at
/// the byte that is its opcode.
pub proof fn law_tree_opcodes_at_start(bytes: Seq<u8>, toks: Seq<Token>, lim: int)
    requires
        tree_spec(bytes, toks, lim) is Ok,
        tokens_at_position(bytes, toks),
    ensures
        opcodes_at_start(bytes, tree_spec(bytes, toks, lim)->Ok_0),
{
    assert(toks.take(toks.len() as int) =~= toks);
    lemma_run_opcodes(bytes, toks, lim, toks.len() as int);
    let st = run_v(bytes, toks, lim)->Ok_0;
    assert(frame_opcodes_ok(bytes, st[0]));
}


// ---------------------------------------------------------------------
// End addresses

/// The instruction, and everything it encloses, ends by `bound`.
pub open spec fn end_within(i: InstrV, bound: int) -> bool
    decreases i,
{
    &&& i.end <= bound
    &&& match i.body {
        Some(b) => ends_within(b, bound),
        None => true,
    }
    &&& match i.consequence {
        Some(c) => ends_within(c, bound),
        None => true,
    }
    &&& match i.alternative {
        Some(a) => ends_within(a, bound),
        None => true,
    }
}

/// Every instruction of the list, and everything they enclose, ends by
/// `bound`.
pub open spec fn ends_within(s: Seq<InstrV>, bound: int) -> bool
    decreases s,
{
    s.len() == 0 || (ends_within(s.drop_last(), bound) && end_within(s.last(), bound))
}

/// The frame's lists end by `bound`.
pub open spec fn frame_ends_ok(f: FrameV, bound: int) -> bool {
    match f {
        FrameV::Top(l) => ends_within(l, bound),
        FrameV::Block { body, .. } => ends_within(body, bound),
        FrameV::Loop { body, .. } => ends_within(body, bound),
        FrameV::If { consequence, alternative, .. } => ends_within(consequence, bound) && ends_within(alternative, bound),
    }
}

pub open spec fn frames_ends_ok(st: Seq<FrameV>, bound: int) -> bool {
    forall|k: int| 0 <= k < st.len() ==> frame_ends_ok(#[trigger] st[k], bound)
}

/// Every token ends by `bound`.
pub open spec fn tokens_end_within(toks: Seq<Token>, bound: int) -> bool {
    forall|k: int| 0 <= k < toks.len() ==> (#[trigger] toks[k]).end <= bound
}

proof fn lemma_ends_push(s: Seq<InstrV>, x: InstrV, bound: int)
    requires
        ends_within(s, bound),
        end_within(x, bound),
    ensures
        ends_within(s.push(x), bound),
{
    assert(s.push(x).drop_last() =~= s);
}

proof fn lemma_frame_ends_push(f: FrameV, x: InstrV, bound: int)
    requires
        frame_ends_ok(f, bound),
        end_within(x, bound),
    ensures
        frame_ends_ok(push_active_v(f, x), bound),
{
    match f {
        FrameV::Top(l) => lemma_ends_push(l, x, bound),
        FrameV::Block { body, .. } => lemma_ends_push(body, x, bound),
        FrameV::Loop { body, .. } => lemma_ends_push(body, x, bound),
        FrameV::If { consequence, alternative, in_alt, .. } => if in_alt {
            lemma_ends_push(alternative, x, bound)
        } else {
            lemma_ends_push(consequence, x, bound)
        },
    }
}

/// A decoded leaf or `end` ends where its token ends.
proof fn lemma_token_end(bytes: Seq<u8>, t: Token, lim: int)
    requires
        token_spec(bytes, t, lim) is Ok,
    ensures
        token_spec(bytes, t, lim)->Ok_0 matches TokV::Leaf(i) ==> i.end == t.end && end_within(i, t.end as int),
        token_spec(bytes, t, lim)->Ok_0 matches TokV::End { end, .. } ==> end == t.end,
{
}

proof fn lemma_step_ends(st: Seq<FrameV>, t: TokV, bound: int)
    requires
        st.len() >= 1,
        frames_ends_ok(st, bound),
        t matches TokV::Leaf(i) ==> end_within(i, bound),
        t matches TokV::End { end, .. } ==> end <= bound,
        step_v(st, t) is Ok,
    ensures
        frames_ends_ok(step_v(st, t)->Ok_0, bound),
        step_v(st, t)->Ok_0.len() >= 1,
{
    let last = st.len() - 1;
    let st2 = step_v(st, t)->Ok_0;
    match t {
        TokV::Block { .. } | TokV::Loop { .. } | TokV::If { .. } => {
            assert forall|k: int| 0 <= k < st2.len() implies frame_ends_ok(#[trigger] st2[k], bound) by {
                if k < st.len() {
                    assert(st2[k] == st[k]);
                } else {
                    assert(ends_within(Seq::<InstrV>::empty(), bound));
                }
            }
        },
        TokV::Else => {
            assert forall|k: int| 0 <= k < st2.len() implies frame_ends_ok(#[trigger] st2[k], bound) by {
                assert(frame_ends_ok(st[k], bound));
            }
        },
        TokV::End { start, end } => {
            let leaf = end_leaf_v(start, end);
            assert(end_within(leaf, bound));
            if st.len() == 1 {
                lemma_frame_ends_push(st[0], leaf, bound);
                assert forall|k: int| 0 <= k < st2.len() implies frame_ends_ok(#[trigger] st2[k], bound) by {}
            } else {
                let f = st[last];
                assert(frame_ends_ok(f, bound));
                let i = close_v(f, leaf, end);
                match f {
                    FrameV::Block { body, .. } => lemma_ends_push(body, leaf, bound),
                    FrameV::Loop { body, .. } => lemma_ends_push(body, leaf, bound),
                    FrameV::If { consequence, alternative, in_alt, .. } => if in_alt {
                        lemma_ends_push(alternative, leaf, bound)
                    } else {
                        lemma_ends_push(consequence, leaf, bound)
                    },
                    FrameV::Top(_) => {},
                }
                assert(end_within(i, bound));
                lemma_frame_ends_push(st[last - 1], i, bound);
                assert forall|k: int| 0 <= k < st2.len() implies frame_ends_ok(#[trigger] st2[k], bound) by {
                    if k != last - 1 {
                        assert(st2[k] == st[k]);
                    }
                }
            }
        },
        TokV::Leaf(i) => {
            lemma_frame_ends_push(st[last], i, bound);
            assert forall|k: int| 0 <= k < st2.len() implies frame_ends_ok(#[trigger] st2[k], bound) by {
                if k != last {
                    assert(st2[k] == st[k]);
                }
            }
        },
    }
}

proof fn lemma_run_ends(bytes: Seq<u8>, toks: Seq<Token>, lim: int, bound: int, i: int)
    requires
        0 <= i <= toks.len(),
        run_v(bytes, toks.take(i), lim) is Ok,
        tokens_end_within(toks, bound),
    ensures
        frames_ends_ok(run_v(bytes, toks.take(i), lim)->Ok_0, bound),
        run_v(bytes, toks.take(i), lim)->Ok_0.len() >= 1,
    decreases i,
{
    if i == 0 {
        assert(toks.take(0) =~= Seq::<Token>::empty());
        let st = run_v(bytes, toks.take(0), lim)->Ok_0;
        assert(ends_within(Seq::<InstrV>::empty(), bound));
        assert(frames_ends_ok(st, bound));
    } else {
        assert(toks.take(i).drop_last() =~= toks.take(i - 1));
        assert(toks.take(i).last() == toks[i - 1]);
        lemma_run_ends(bytes, toks, lim, bound, i - 1);
        let st = run_v(bytes, toks.take(i - 1), lim)->Ok_0;
        let tk = toks[i - 1];
        lemma_token_end(bytes, tk, lim);
        let t = token_spec(bytes, tk, lim)->Ok_0;
        if let TokV::Leaf(x) = t {
            lemma_ends_weaken(x, tk.end as int, bound);
        }
        lemma_step_ends(st, t, bound);
    }
}

/// A leaf that ends by `b1` ends by any later bound.
proof fn lemma_ends_weaken(x: InstrV, b1: int, b2: int)
    requires
        b1 <= b2,
        end_within(x, b1),
        x.body is None,
        x.consequence is None,
        x.alternative is None,
    ensures
        end_within(x, b2),
{
}

/// Every instruction of a tree built from tokens that end by `bound`, and
/// every instruction it encloses, ends by `bound`.
pub proof fn law_tree_ends_within(bytes: Seq<u8>, toks: Seq<Token>, lim: int, bound: int)
    requires
        tree_spec(bytes, toks, lim) is Ok,
        tokens_end_within(toks, bound),
    ensures
        ends_within(tree_spec(bytes, toks, lim)->Ok_0, bound),
{
    assert(toks.take(toks.len() as int) =~= toks);
    lemma_run_ends(bytes, toks, lim, bound, toks.len() as int);
    let st = run_v(bytes, toks, lim)->Ok_0;
    assert(frame_ends_ok(st[0], bound));
}

// ---------------------------------------------------------------------
// When the frame stack refuses a stream

/// The operator of token `t` is refused on its own: a `loop` or `if` whose
/// block type cannot be read or has no name in the data model, or an
/// operator other than `block`, `loop`, `if`, `else` and `end` that the
/// decoder of single instructions refuses.
pub open spec fn token_refused(bytes: Seq<u8>, t: Token, lim: int) -> bool {
    let op = bytes[t.pos as int];
    if op == 0x02 || op == 0x05 || op == 0x0b {
        false
    } else if op == 0x03 || op == 0x04 {
        match block_type_at(bytes, t.pos + 1, lim) {
            Ok(bt) => block_type_name(bt) is Err,
            Err(_) => true,
        }
    } else {
        leaf_spec(bytes, t.pos as int, lim, t.start, t.end) is Err
    }
}

/// Decoding a token fails exactly when its operator is refused on its own,
/// and gives an `else` exactly for the opcode 0x05.
proof fn lemma_token_refused(bytes: Seq<u8>, t: Token, lim: int)
    ensures
        token_spec(bytes, t, lim) is Err <==> token_refused(bytes, t, lim),
        token_spec(bytes, t, lim) == Ok::<TokV, ErrorV>(TokV::Else) <==> bytes[t.pos as int] == 0x05,
{
}

/// Every numeric operator (opcodes 0x45 to 0xc4, the sign-extension
/// operators 0xc0 to 0xc4 included) decodes to a plain instruction that
/// carries its opcode and byte range and nothing else, and is never refused
/// on its own.
pub proof fn law_numeric_operators_are_plain(bytes: Seq<u8>, t: Token, lim: int)
    requires
        t.pos < bytes.len(),
        0x45 <= bytes[t.pos as int] <= 0xc4,
    ensures
        leaf_spec(bytes, t.pos as int, lim, t.start, t.end)
            == Ok::<InstrV, ErrorV>(base_v(InstrKind::Plain, bytes[t.pos as int] as u32, t.start, t.end)),
        token_spec(bytes, t, lim)
            == Ok::<TokV, ErrorV>(TokV::Leaf(base_v(InstrKind::Plain, bytes[t.pos as int] as u32, t.start, t.end))),
        !token_refused(bytes, t, lim),
{
}

/// A decoded instruction keeps its operator's opcode and the byte range it
/// was given, encloses nothing, and carries the immediates decoded after
/// the opcode: the branch target of `br`/`br_if`, the callee of `call`
/// (named `func_<index>`), the type of `call_indirect`, the local or global
/// index of the variable instructions, and the value of `i32.const`.
pub proof fn law_leaf_keeps_opcode_and_immediates(bytes: Seq<u8>, p: int, lim: int, start: u32, end: u32)
    requires
        0 <= p < bytes.len(),
        leaf_spec(bytes, p, lim, start, end) is Ok,
    ensures ({
        let i = leaf_spec(bytes, p, lim, start, end)->Ok_0;
        let op = bytes[p];
        let v = crate::wasm::var_u32_at(bytes, p + 1, lim);
        &&& i.opcode == op as u32
        &&& i.start == start && i.end == end
        &&& i.body is None && i.consequence is None && i.alternative is None
        &&& (op == 0x0c || op == 0x0d) ==> i.target == Some(v->Ok_0.0)
        &&& op == 0x10 ==> i.func_index == Some(v->Ok_0.0) && i.func_name == Some(crate::text::func_label(v->Ok_0.0))
        &&& op == 0x11 ==> i.type_index == Some(v->Ok_0.0)
        &&& 0x20 <= op <= 0x26 ==> i.index == Some(v->Ok_0.0)
        &&& op == 0x41 ==> i.i32_value == Some(crate::wasm::var_i32_at(bytes, p + 1, lim)->Ok_0.0)
    }),
{
}

/// The frame stack stops at token `k`: the tokens before it were taken,
/// and this one is refused on its own, or is an `else` whose innermost
/// open frame (matching each `end` to the innermost open `block`, `loop`
/// or `if`) is not an `if`.
pub open spec fn refused_at(bytes: Seq<u8>, toks: Seq<Token>, lim: int, k: int) -> bool {
    &&& 0 <= k < toks.len()
    &&& run_v(bytes, toks.take(k), lim) matches Ok(st)
    &&& token_refused(bytes, toks[k], lim) || (bytes[toks[k].pos as int] == 0x05 && !(st[st.len() - 1] is If))
}

proof fn lemma_run_refused(bytes: Seq<u8>, toks: Seq<Token>, lim: int)
    ensures
        run_v(bytes, toks, lim) is Err <==> exists|k: int| #[trigger] refused_at(bytes, toks, lim, k),
        run_v(bytes, toks, lim) matches Ok(st) ==> wf_frames(st),
    decreases toks.len(),
{
    if toks.len() > 0 {
        let t0 = toks.drop_last();
        lemma_run_refused(bytes, t0, lim);
        let n = t0.len() as int;
        lemma_token_refused(bytes, toks.last(), lim);
        assert(toks.last() == toks[n]);
        assert forall|k: int| 0 <= k < n implies #[trigger] refused_at(bytes, toks, lim, k) == refused_at(bytes, t0, lim, k) by {
            assert(toks.take(k) =~= t0.take(k));
            assert(toks[k] == t0[k]);
        }
        assert(toks.take(n) =~= t0);
        match run_v(bytes, t0, lim) {
            Ok(st) => {
                if let Ok(t) = token_spec(bytes, toks.last(), lim) {
                    if step_v(st, t) is Ok {
                        lemma_wf_step(st, t);
                    }
                }
                if run_v(bytes, toks, lim) is Err {
                    assert(refused_at(bytes, toks, lim, n));
                }
                if exists|k: int| #[trigger] refused_at(bytes, toks, lim, k) {
                    let k = choose|k: int| #[trigger] refused_at(bytes, toks, lim, k);
                    if k < n {
                        assert(refused_at(bytes, t0, lim, k));
                    }
                }
            },
            Err(_) => {
                let k = choose|k: int| #[trigger] refused_at(bytes, t0, lim, k);
                assert(refused_at(bytes, toks, lim, k));
            },
        }
    } else {
        assert(wf_frames(seq![FrameV::Top(seq![])]));
    }
}

/// The frame stack refuses a stream exactly when, matching each `end` to
/// the innermost open `block`, `loop` or `if`, some `else` arrives while
/// the innermost open frame is not an `if`, some `loop` or `if` has a block
/// type that is refused, some other operator is refused by the decoder of
/// single instructions, or some `block`, `loop` or `if` is never closed.
/// An `end` with no open frame is no error: it is kept in the outermost
/// list.
pub proof fn law_tree_refusals(bytes: Seq<u8>, toks: Seq<Token>, lim: int)
    ensures
        tree_spec(bytes, toks, lim) is Err <==> (
            (exists|k: int| #[trigger] refused_at(bytes, toks, lim, k))
            || (run_v(bytes, toks, lim) matches Ok(st) && st.len() > 1)
        ),
{
    lemma_run_refused(bytes, toks, lim);
}

} // verus!
