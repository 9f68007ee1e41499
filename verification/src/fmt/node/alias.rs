use vstd::prelude::*;

use crate::fmt::flat::{
    budget, kind_flat, kind_flat_ok, lemma_node_flat_nonempty, lemma_total_len_concat, lemma_total_len_one,
    lemma_wrote_fitting, node_flat, total_len,
};
use crate::fmt::output::{
    advanced, heredoc_measure, lemma_wrote_pieces_concat, ready, wrote_pieces, FormatContext, Output,
};
use crate::fmt::shape::Shape;
use crate::fmt::text::ALIAS;

use super::{Heredoc, Kind, Node};

verus! {

broadcast use crate::fmt::growth::group_output_growth;

/// `alias new old`
#[derive(Debug)]
pub struct Alias {
    pub shape: Shape,
    pub new_name: Box<Node>,
    pub old_name: Box<Node>,
}

impl Alias {
    pub open spec fn ok_in(&self, c: int, m: Map<usize, Heredoc>) -> bool
        decreases self,
    {
        self.new_name.ok_in(c, m) && self.old_name.ok_in(c, m)
    }

    pub fn new(new_name: Node, old_name: Node) -> (a: Alias)
        requires
            new_name.shape.concat_fits(old_name.shape),
        ensures
            a.shape == new_name.shape.concat(old_name.shape),
            *a.new_name == new_name,
            *a.old_name == old_name,
    {
        let shape = new_name.shape.add(&old_name.shape);
        Alias { shape, new_name: Box::new(new_name), old_name: Box::new(old_name) }
    }

    /// Writes `alias`, the new name, a space and the old name; one made of parts that
    /// `kind_flat` describes that fits in the room left on the line is written flat.
    pub fn format(&self, o: &mut Output, ctx: &FormatContext, Ghost(c): Ghost<int>)
        requires
            ready(*old(o), *ctx, c),
            self.ok_in(c, ctx.heredoc_map@),
        ensures
            advanced(*old(o), *final(o), *ctx, c),
            kind_flat_ok(Kind::Alias(*self)) && total_len(kind_flat(Kind::Alias(*self))) <= budget(*old(o))
                ==> wrote_pieces(*old(o), *final(o), kind_flat(Kind::Alias(*self))),
        decreases heredoc_measure(c), 2int, self, 1int,
    {
        let ghost o0 = *o;
        let ghost np = node_flat(*self.new_name);
        let ghost op = node_flat(*self.old_name);
        let ghost flat = kind_flat_ok(Kind::Alias(*self)) && total_len(kind_flat(Kind::Alias(*self))) <= budget(o0);
        proof {
            assert(kind_flat(Kind::Alias(*self)) == seq![ALIAS@] + np + seq![seq![32u8]] + op);
            if flat {
                lemma_total_len_concat(seq![ALIAS@], np);
                lemma_total_len_concat(seq![ALIAS@] + np, seq![seq![32u8]]);
                lemma_total_len_concat(seq![ALIAS@] + np + seq![seq![32u8]], op);
                lemma_total_len_one(ALIAS@);
                lemma_total_len_one(seq![32u8]);
                lemma_node_flat_nonempty(*self.new_name);
                lemma_node_flat_nonempty(*self.old_name);
            }
        }
        o.push_str(&ALIAS);
        let ghost o1 = *o;
        proof {
            if flat {
                lemma_wrote_fitting(o0, o1, seq![ALIAS@]);
            }
        }
        self.new_name.format(o, ctx, Ghost(c));
        let ghost o2 = *o;
        proof {
            if flat {
                lemma_wrote_fitting(o1, o2, np);
            }
        }
        o.push(32u8);
        let ghost o3 = *o;
        proof {
            if flat {
                lemma_wrote_fitting(o2, o3, seq![seq![32u8]]);
            }
        }
        self.old_name.format(o, ctx, Ghost(c));
        proof {
            if flat {
                lemma_wrote_pieces_concat(o0, o1, o2, seq![ALIAS@], np);
                lemma_wrote_pieces_concat(o0, o2, o3, seq![ALIAS@] + np, seq![seq![32u8]]);
                lemma_wrote_pieces_concat(o0, o3, *o, seq![ALIAS@] + np + seq![seq![32u8]], op);
            }
        }
    }
}

} // verus!
