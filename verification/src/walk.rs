use vstd::prelude::*;
use crate::matcher::first_match;
use crate::node::{Head, Tree};
use crate::rule::RuleSpec;
use crate::template::instantiate;
use crate::text::has_substring;

verus! {

/// The name of the deprecated constructor, as it is looked for in string
/// literals.
pub const DEPRECATED_API: &'static str = "mem::uninitialized";

/// Whether the node is a string literal whose text names the deprecated
/// constructor. Such a literal is reported and left as it is.
pub open spec fn detects(tree: Tree) -> bool {
    tree.head matches Head::StrLit { value } && has_substring(value, DEPRECATED_API@)
}

/// A rule firing at a node.
pub struct Firing {
    /// The place of the rule in the list.
    pub index: int,
    /// The node that takes the place of the one that the rule fired at.
    pub replacement: Tree,
}

/// What the rules do to one node whose sub-nodes have been visited. Only the
/// first rule that matches is tried; where it cannot build a replacement,
/// nothing fires.
pub open spec fn rewrite(tree: Tree, rules: Seq<RuleSpec>) -> Option<Firing> {
    match first_match(rules, tree) {
        Some(index) => match instantiate(tree, rules[index]) {
            Some(replacement) => Some(Firing { index, replacement }),
            None => None,
        },
        None => None,
    }
}

/// The node that replaces `tree`, if a rule fires at it.
pub open spec fn replacement_of(tree: Tree, rules: Seq<RuleSpec>) -> Option<Tree> {
    match rewrite(tree, rules) {
        Some(firing) => Some(firing.replacement),
        None => None,
    }
}

/// The ids that one node adds to the record: the id of the rule that fires
/// at it, if one does.
pub open spec fn fired_at(tree: Tree, rules: Seq<RuleSpec>) -> Seq<Seq<char>> {
    match rewrite(tree, rules) {
        Some(firing) => seq![rules[firing.index].id],
        None => Seq::empty(),
    }
}

/// The node after the rules have been tried at it: its replacement, or the
/// node itself where nothing fires.
pub open spec fn rewritten(tree: Tree, rules: Seq<RuleSpec>) -> Tree {
    match rewrite(tree, rules) {
        Some(firing) => firing.replacement,
        None => tree,
    }
}

/// What a traversal of one tree yields.
pub struct Outcome {
    /// The tree after the traversal.
    pub tree: Tree,
    /// The ids of the rules that fired, in the order of the visits.
    pub fired: Seq<Seq<char>>,
    /// Whether a string literal that names the deprecated constructor was met.
    pub detected: bool,
}

/// What a traversal of several trees, one after the other, yields.
pub struct Outcomes {
    /// The trees after the traversal, in order.
    pub trees: Seq<Tree>,
    /// The ids of the rules that fired, in the order of the visits.
    pub fired: Seq<Seq<char>>,
    /// Whether a string literal that names the deprecated constructor was met.
    pub detected: bool,
}

/// The traversal of one tree: its sub-nodes are traversed first, in order;
/// then the rules are tried once at the node itself, as it stands with its
/// traversed sub-nodes. A replacement is not traversed again.
pub open spec fn visit(tree: Tree, rules: Seq<RuleSpec>) -> Outcome
    decreases tree,
{
    let below = visit_each(tree.subs, rules);
    let visited = Tree { head: tree.head, subs: below.trees };
    Outcome {
        tree: rewritten(visited, rules),
        fired: below.fired + fired_at(visited, rules),
        detected: below.detected || detects(visited),
    }
}

/// The traversal of several trees, one after the other.
pub open spec fn visit_each(trees: Seq<Tree>, rules: Seq<RuleSpec>) -> Outcomes
    decreases trees,
{
    if trees.len() == 0 {
        Outcomes { trees: Seq::empty(), fired: Seq::empty(), detected: false }
    } else {
        let before = visit_each(trees.drop_last(), rules);
        let last = visit(trees.last(), rules);
        Outcomes {
            trees: before.trees.push(last.tree),
            fired: before.fired + last.fired,
            detected: before.detected || last.detected,
        }
    }
}

/// A traversal yields one tree for each tree that it is given.
pub proof fn lemma_visit_each_len(trees: Seq<Tree>, rules: Seq<RuleSpec>)
    ensures
        visit_each(trees, rules).trees.len() == trees.len(),
    decreases trees.len(),
{
    if trees.len() > 0 {
        lemma_visit_each_len(trees.drop_last(), rules);
    }
}

/// The tree at each place of a traversal's result is the traversal of the
/// tree at that place.
pub proof fn lemma_visit_each_index(trees: Seq<Tree>, rules: Seq<RuleSpec>, index: int)
    requires
        0 <= index < trees.len(),
    ensures
        visit_each(trees, rules).trees.len() == trees.len(),
        visit_each(trees, rules).trees[index] == visit(trees[index], rules).tree,
    decreases trees.len(),
{
    lemma_visit_each_len(trees, rules);
    lemma_visit_each_len(trees.drop_last(), rules);
    if index < trees.len() - 1 {
        lemma_visit_each_index(trees.drop_last(), rules, index);
    }
}

/// Traversing one tree and then several more is traversing them all in one
/// go.
pub proof fn lemma_visit_each_concat(front: Seq<Tree>, back: Seq<Tree>, rules: Seq<RuleSpec>)
    ensures
        visit_each(front + back, rules).trees == visit_each(front, rules).trees + visit_each(
            back,
            rules,
        ).trees,
        visit_each(front + back, rules).fired == visit_each(front, rules).fired + visit_each(
            back,
            rules,
        ).fired,
        visit_each(front + back, rules).detected == (visit_each(front, rules).detected
            || visit_each(back, rules).detected),
    decreases back.len(),
{
    if back.len() > 0 {
        assert((front + back).drop_last() =~= front + back.drop_last());
        lemma_visit_each_concat(front, back.drop_last(), rules);
    }
}

/// Traversing a sequence of one tree is traversing that tree.
pub proof fn lemma_visit_each_one(tree: Tree, rules: Seq<RuleSpec>)
    ensures
        visit_each(seq![tree], rules).trees == seq![visit(tree, rules).tree],
        visit_each(seq![tree], rules).fired == visit(tree, rules).fired,
        visit_each(seq![tree], rules).detected == visit(tree, rules).detected,
{
    assert(seq![tree].drop_last() =~= Seq::<Tree>::empty());
    assert(visit_each(Seq::<Tree>::empty(), rules).trees =~= Seq::<Tree>::empty());
}

} // verus!
