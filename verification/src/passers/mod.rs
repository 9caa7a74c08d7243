//! The optimizer: rewrites of a whole statement list, applied in a fixed
//! order.
pub mod cleanup;
pub mod fold;
pub mod laws;
pub mod merge;
pub mod subs;
pub mod unwrap;

use crate::passers::cleanup::cleaned;
use crate::passers::fold::folded_all;
use crate::passers::merge::merged_list;
use crate::passers::subs::{propagated_list, table_view, Entry, EntryV};
use crate::passers::unwrap::unwrapped_list;
use crate::types::{nodes_view, Node, NodeV};
use vstd::prelude::*;

verus! {

/// The list with reads replaced by the literals assigned before them,
/// starting from an empty table.
pub open spec fn propagated(s: Seq<NodeV>) -> Seq<NodeV> {
    propagated_list(s, s.len(), Seq::empty()).stmts
}

/// The list after the whole pipeline: folded, merged, propagated, unwrapped,
/// propagated again, and cleaned of dead stores.
pub open spec fn optimized(s: Seq<NodeV>) -> Seq<NodeV> {
    let folded = folded_all(s);
    let merged = merged_list(folded);
    let first = propagated(merged);
    let unwrapped = unwrapped_list(first, first.len());
    let second = propagated(unwrapped);
    cleaned(second, second.len())
}

/// A table without records.
fn empty_table() -> (r: Vec<Entry>)
    ensures
        table_view(r@) == Seq::<EntryV>::empty(),
{
    let r: Vec<Entry> = Vec::new();
    assert(table_view(r@) =~= Seq::<EntryV>::empty());
    r
}

/// Runs the passes over the list, once each, in their order: fold, merge,
/// propagate, unwrap, propagate, eliminate dead stores.
pub fn pass(ast: &mut Vec<Node>)
    ensures
        nodes_view(final(ast)@) == optimized(nodes_view(old(ast)@)),
{
    fold::pass(ast);
    merge::pass(ast);
    let mut memo = empty_table();
    subs::pass(ast, &mut memo);
    unwrap::pass(ast);
    let mut memo = empty_table();
    subs::pass(ast, &mut memo);
    cleanup::pass(ast);
}

} // verus!
