//! A decision tree over game conditions: each leaf carries a card to
//! play, each inner node branches on the first condition that holds.

use vstd::prelude::*;

use crate::card::Card;

verus! {

/// A condition of the game state a branch can test for.
#[derive(Copy, Clone, PartialEq, Eq, Structural, Debug)]
pub enum UnoCondition {
    PlusStack,
}

/// One branch of a decision node: taken when its condition holds.
#[derive(Debug)]
pub struct Branch {
    pub condition: UnoCondition,
    pub child: Option<Box<DecisionNode>>,
}

/// A node of the tree: a candidate decision, refined by branches.
#[derive(Debug)]
pub struct DecisionNode {
    pub decision: Card,
    pub branches: Vec<Branch>,
}

/// The position of the first branch whose condition is among `conds`,
/// or -1 when none matches.
pub open spec fn spec_first_match(bs: Seq<Branch>, conds: Seq<UnoCondition>) -> int
    decreases bs.len(),
{
    if bs.len() == 0 {
        -1
    } else if conds.contains(bs[0].condition) {
        0
    } else if spec_first_match(bs.drop_first(), conds) == -1 {
        -1
    } else {
        spec_first_match(bs.drop_first(), conds) + 1
    }
}

/// The first match is a matching branch, earlier branches do not
/// match, and -1 means nothing matches.
pub proof fn lemma_first_match_sound(bs: Seq<Branch>, conds: Seq<UnoCondition>)
    ensures
        spec_first_match(bs, conds) == -1 ==> forall|k: int| 0 <= k < bs.len()
            ==> !conds.contains((#[trigger] bs[k]).condition),
        spec_first_match(bs, conds) != -1 ==> {
            &&& 0 <= spec_first_match(bs, conds) < bs.len()
            &&& conds.contains(bs[spec_first_match(bs, conds)].condition)
            &&& forall|k: int| 0 <= k < spec_first_match(bs, conds) ==> !conds.contains(
                (#[trigger] bs[k]).condition,
            )
        },
    decreases bs.len(),
{
    if bs.len() > 0 && !conds.contains(bs[0].condition) {
        lemma_first_match_sound(bs.drop_first(), conds);
        assert forall|k: int|
            0 <= k < bs.len() && spec_first_match(bs, conds) == -1 implies !conds.contains(
            (#[trigger] bs[k]).condition,
        ) by {
            if k > 0 {
                assert(bs.drop_first()[k - 1] == bs[k]);
            }
        }
        if spec_first_match(bs, conds) != -1 {
            let m = spec_first_match(bs.drop_first(), conds);
            assert(bs.drop_first()[m] == bs[m + 1]);
            assert forall|k: int|
                0 <= k < spec_first_match(bs, conds) implies !conds.contains(
                (#[trigger] bs[k]).condition,
            ) by {
                if k > 0 {
                    assert(bs.drop_first()[k - 1] == bs[k]);
                }
            }
        }
    }
}

/// What following the tree yields: the decision of the first leaf
/// reached by always taking the first branch whose condition holds,
/// or nothing when the walk runs into a missing branch or child.
pub open spec fn spec_follow(node: DecisionNode, conds: Seq<UnoCondition>) -> Option<Card>
    decreases node,
{
    if node.branches@.len() == 0 {
        Some(node.decision)
    } else {
        let j = spec_first_match(node.branches@, conds);
        if j == -1 {
            None
        } else if 0 <= j < node.branches@.len() {
            match node.branches@[j].child {
                None => None,
                Some(child) => spec_follow(*child, conds),
            }
        } else {
            None
        }
    }
}

/// Whether `c` is among the given conditions.
fn contains_condition(conds: &Vec<UnoCondition>, c: UnoCondition) -> (r: bool)
    ensures
        r == conds@.contains(c),
{
    let mut i: usize = 0;
    while i < conds.len()
        invariant
            i <= conds@.len(),
            forall|k: int| 0 <= k < i ==> conds@[k] != c,
        decreases conds@.len() - i,
    {
        if conds[i] == c {
            return true;
        }
        i = i + 1;
    }
    false
}

impl DecisionNode {
    /// Walks the tree by the given conditions and returns the decision
    /// of the leaf it ends on, if the walk ends on one.
    pub fn follow(&self, conditions: &Vec<UnoCondition>) -> (r: Option<Card>)
        ensures
            r == spec_follow(*self, conditions@),
        decreases *self,
    {
        if self.branches.len() == 0 {
            return Some(self.decision);
        }
        let mut i: usize = 0;
        let ghost bs = self.branches@;
        let ghost conds = conditions@;
        proof {
            lemma_first_match_sound(bs, conds);
        }
        while i < self.branches.len()
            invariant
                bs == self.branches@,
                conds == conditions@,
                i <= bs.len(),
                forall|k: int| 0 <= k < i ==> !conds.contains((#[trigger] bs[k]).condition),
                spec_first_match(bs, conds) == -1 || i <= spec_first_match(bs, conds) < bs.len(),
                spec_first_match(bs, conds) != -1 ==> conds.contains(
                    bs[spec_first_match(bs, conds)].condition,
                ),
            decreases bs.len() - i,
        {
            if contains_condition(conditions, self.branches[i].condition) {
                proof {
                    lemma_first_match_sound(bs, conds);
                    assert(spec_first_match(bs, conds) == i);
                }
                match &self.branches[i].child {
                    None => {
                        return None;
                    },
                    Some(child) => {
                        return child.follow(conditions);
                    },
                }
            }
            proof {
                lemma_first_match_sound(bs, conds);
            }
            i = i + 1;
        }
        None
    }
}

} // verus!
