use vstd::prelude::*;

use super::output::{grew, pushes, push_one, wrote_pieces, Output};

verus! {

proof fn lemma_pushes_extends(state: (Seq<u8>, int), lw: int, indent: nat, pieces: Seq<Seq<u8>>)
    requires
        state.1 >= 0,
    ensures
        state.0.is_prefix_of(pushes(state, lw, indent, pieces).0),
        0 <= pushes(state, lw, indent, pieces).1 <= state.1,
    decreases pieces.len(),
{
    if pieces.len() > 0 {
        let next = push_one(state, lw, indent, pieces[0]);
        lemma_pushes_extends(next, lw, indent, pieces.drop_first());
        let fin = pushes(next, lw, indent, pieces.drop_first()).0;
        assert forall|i: int| 0 <= i < state.0.len() implies state.0[i] == fin[i] by {
            assert(next.0[i] == state.0[i]);
            assert(fin.subrange(0, next.0.len() as int)[i] == next.0[i]);
        }
        assert(state.0 =~= fin.subrange(0, state.0.len() as int));
    } else {
        assert(state.0 =~= state.0.subrange(0, state.0.len() as int));
    }
}

pub broadcast proof fn lemma_wrote_pieces_grew(o0: Output, o1: Output, pieces: Seq<Seq<u8>>)
    requires
        #[trigger] wrote_pieces(o0, o1, pieces),
    ensures
        grew(o0, o1),
        o0.wf() ==> o1.wf(),
{
    lemma_pushes_extends(o0.text_state(), o0.config.line_width as int, o0.indent as nat, pieces);
}

pub broadcast proof fn lemma_grew_trans(o0: Output, o1: Output, o2: Output)
    requires
        #[trigger] grew(o0, o1),
        #[trigger] grew(o1, o2),
    ensures
        grew(o0, o2),
{
    let a = o0.buffer@;
    let b = o1.buffer@;
    let d = o2.buffer@;
    assert forall|i: int| 0 <= i < a.len() implies a[i] == d[i] by {
        assert(a[i] == b.subrange(0, a.len() as int)[i]);
        assert(b[i] == d.subrange(0, b.len() as int)[i]);
    }
    assert(a =~= d.subrange(0, a.len() as int));
}

pub broadcast proof fn lemma_grew_refl(o: Output)
    ensures
        #[trigger] grew(o, o),
{
    assert(o.buffer@ =~= o.buffer@.subrange(0, o.buffer@.len() as int));
}

pub broadcast proof fn lemma_pushed_grew(o0: Output, o1: Output, s: Seq<u8>)
    requires
        #[trigger] o0.pushed(o1, s),
    ensures
        grew(o0, o1),
        o0.wf() ==> o1.wf(),
{
    lemma_wrote_pieces_grew(o0, o1, seq![s]);
}

pub broadcast proof fn lemma_text_grew(o0: Output, o1: Output, s: Seq<u8>)
    requires
        #[trigger] o0.same_but_text(o1, s),
    ensures
        grew(o0, o1),
        o0.wf() ==> o1.wf(),
{
    assert(o0.buffer@ =~= o1.buffer@.subrange(0, o0.buffer@.len() as int));
}

pub broadcast proof fn lemma_raw_grew(o0: Output, o1: Output, s: Seq<u8>)
    requires
        #[trigger] o0.same_but_raw(o1, s),
    ensures
        grew(o0, o1),
        o0.wf() ==> o1.wf(),
{
    assert(o0.buffer@ =~= o1.buffer@.subrange(0, o0.buffer@.len() as int));
}

pub broadcast proof fn lemma_unchanged_text_grew(o0: Output, o1: Output)
    requires
        o1.config == o0.config,
        o1.buffer@ == o0.buffer@,
        o0.line_count <= o1.line_count,
    ensures
        #[trigger] grew(o0, o1),
{
    assert(o0.buffer@ =~= o1.buffer@.subrange(0, o0.buffer@.len() as int));
}

/// Text appended at the end, with the settings kept and no line forgotten, is growth.
pub proof fn lemma_appended_grew(o0: Output, o1: Output, s: Seq<u8>)
    requires
        o1.config == o0.config,
        o1.buffer@ == o0.buffer@ + s,
        o0.line_count <= o1.line_count,
    ensures
        grew(o0, o1),
{
    assert(o0.buffer@ =~= o1.buffer@.subrange(0, o0.buffer@.len() as int));
}

pub broadcast group group_output_growth {
    lemma_unchanged_text_grew,
    lemma_wrote_pieces_grew,
    lemma_grew_trans,
    lemma_grew_refl,
    lemma_pushed_grew,
    lemma_text_grew,
    lemma_raw_grew,
}

} // verus!
