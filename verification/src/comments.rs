//! The records that carry a comment.

use crate::record::Record;
use vstd::prelude::*;

verus! {

/// `list` names the commented records: each with its position, in the order
/// of the positions, and none left out.
pub open spec fn is_commented_list(list: Seq<(usize, Record)>, records: Seq<Record>) -> bool {
    &&& forall|k: int|
        0 <= k < list.len() ==> {
            &&& (#[trigger] list[k]).0 < records.len()
            &&& list[k].1 == records[list[k].0 as int]
            &&& list[k].1.comment.is_some()
        }
    &&& forall|k: int, l: int|
        0 <= k < l < list.len() ==> (#[trigger] list[k]).0 < (#[trigger] list[l]).0
    &&& forall|i: int|
        0 <= i < records.len() && (#[trigger] records[i]).comment.is_some() ==> exists|k: int|
            0 <= k < list.len() && (#[trigger] list[k]).0 == i
}

/// The records that carry a comment, each with its position.
pub fn commented_records(records: &Vec<Record>) -> (list: Vec<(usize, Record)>)
    ensures
        is_commented_list(list@, records@),
{
    let n = records.len();
    let mut list: Vec<(usize, Record)> = Vec::new();
    let mut i: usize = 0;
    while i < n
        invariant
            i <= n,
            n == records.len(),
            is_commented_list(list@, records@.take(i as int)),
        decreases n - i,
    {
        let ghost before = list@;
        if records[i].has_comment() {
            list.push((i, records[i].clone()));
            proof {
                let after = list@;
                assert(forall|k: int| 0 <= k < before.len() ==> after[k] == before[k]);
                assert(after[before.len() as int].0 == i);
                assert forall|p: int|
                    0 <= p < i + 1 && (#[trigger] records@.take(i + 1)[p]).comment.is_some() implies exists|
                    k: int,
                |
                    0 <= k < after.len() && (#[trigger] after[k]).0 == p by {
                    if p < i {
                        assert(records@.take(i as int)[p].comment.is_some());
                        let k = choose|k: int|
                            0 <= k < before.len() && (#[trigger] before[k]).0 == p;
                        assert(after[k].0 == p);
                    } else {
                        assert(after[before.len() as int].0 == p);
                    }
                }
            }
        } else {
            proof {
                assert forall|p: int|
                    0 <= p < i + 1 && (#[trigger] records@.take(i + 1)[p]).comment.is_some() implies exists|
                    k: int,
                |
                    0 <= k < before.len() && (#[trigger] before[k]).0 == p by {
                    assert(p < i);
                    assert(records@.take(i as int)[p].comment.is_some());
                }
            }
        }
        i += 1;
    }
    proof {
        assert(records@.take(n as int) =~= records@);
    }
    list
}

} // verus!
