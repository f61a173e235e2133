use vstd::prelude::*;
use vstd::seq_lib::{group_to_multiset_ensures, lemma_multiset_commutative};
use crate::matcher::{first_match, is_first_match, lemma_first_match, rule_matches};
use crate::node::{lemma_sub_is_smaller, Head, NoteSpec, Tree};
use crate::rule::{family_of, Family, RuleSpec};
use crate::template::{doc_note, instantiate, propagation, uninit_path};
use crate::tracker::Record;
use crate::walk::{
    detects, fired_at, lemma_visit_each_index, lemma_visit_each_len, lemma_visit_each_one,
    rewrite, rewritten, visit, visit_each, Firing,
};

verus! {

/// No rule of the list belongs to the family that replaces the deprecated
/// constructor: every rule that can fire builds a propagation.
pub open spec fn only_propagating(rules: Seq<RuleSpec>) -> bool {
    forall|index: int|
        0 <= index < rules.len() ==> family_of((#[trigger] rules[index]).id) != Some(
            Family::Uninitialized,
        )
}

/// No rule matches a node that is neither a method call nor a bare call.
pub proof fn lemma_only_calls_match(tree: Tree, rules: Seq<RuleSpec>)
    requires
        !(tree.head is MethodCall),
        !(tree.head is Call),
    ensures
        first_match(rules, tree) is None,
        rewrite(tree, rules) is None,
        rewritten(tree, rules) == tree,
        fired_at(tree, rules) == Seq::<Seq<char>>::empty(),
{
    lemma_first_match(rules, tree);
}

/// A traversal keeps every node that is neither a method call nor a bare
/// call, an opaque node among them, as it is, and goes on below it.
pub proof fn lemma_only_calls_are_replaced(tree: Tree, rules: Seq<RuleSpec>)
    requires
        !(tree.head is MethodCall),
        !(tree.head is Call),
    ensures
        visit(tree, rules).tree == (Tree {
            head: tree.head,
            subs: visit_each(tree.subs, rules).trees,
        }),
        visit(tree, rules).fired == visit_each(tree.subs, rules).fired,
{
    lemma_only_calls_match(
        Tree { head: tree.head, subs: visit_each(tree.subs, rules).trees },
        rules,
    );
}

/// Without rules a traversal changes nothing and registers no rule.
pub proof fn lemma_no_rules_no_rewrites(tree: Tree)
    ensures
        visit(tree, Seq::<RuleSpec>::empty()).tree == tree,
        visit(tree, Seq::<RuleSpec>::empty()).fired == Seq::<Seq<char>>::empty(),
    decreases tree,
{
    lemma_no_rules_no_rewrites_each(tree.subs);
    lemma_first_match(Seq::<RuleSpec>::empty(), tree);
}

/// Without rules a traversal of several trees changes nothing and registers
/// no rule.
pub proof fn lemma_no_rules_no_rewrites_each(trees: Seq<Tree>)
    ensures
        visit_each(trees, Seq::<RuleSpec>::empty()).trees == trees,
        visit_each(trees, Seq::<RuleSpec>::empty()).fired == Seq::<Seq<char>>::empty(),
    decreases trees,
{
    if trees.len() > 0 {
        lemma_no_rules_no_rewrites_each(trees.drop_last());
        lemma_no_rules_no_rewrites(trees.last());
    }
}

/// Under rules that only build propagations, whatever replaces a node is a
/// propagation.
pub proof fn lemma_replacement_is_propagation(tree: Tree, rules: Seq<RuleSpec>)
    requires
        only_propagating(rules),
        rewrite(tree, rules) is Some,
    ensures
        rewrite(tree, rules)->0.replacement.head is Try,
        rewrite(tree, rules)->0.replacement.subs.len() == 1,
        tree.subs.len() >= 1,
        ({
            let operand = rewrite(tree, rules)->0.replacement.subs[0];
            ||| operand == tree.subs[0]
            ||| tree.subs[0].head is MethodCall && tree.subs[0].subs.len() >= 1 && operand
                == tree.subs[0].subs[0]
        }),
{
    lemma_first_match(rules, tree);
}

/// A second run changes nothing. Under rules that only build propagations,
/// a traversal of a traversal's result leaves the tree as it is and fires no
/// rule.
pub proof fn lemma_second_run_changes_nothing(tree: Tree, rules: Seq<RuleSpec>)
    requires
        only_propagating(rules),
    ensures
        visit(visit(tree, rules).tree, rules).tree == visit(tree, rules).tree,
        visit(visit(tree, rules).tree, rules).fired == Seq::<Seq<char>>::empty(),
    decreases tree,
{
    let below = visit_each(tree.subs, rules);
    let visited = Tree { head: tree.head, subs: below.trees };
    lemma_second_run_changes_nothing_each(tree.subs, rules);
    lemma_visit_each_len(tree.subs, rules);
    if rewrite(visited, rules) is Some {
        lemma_replacement_is_propagation(visited, rules);
        let replacement = rewrite(visited, rules)->0.replacement;
        let operand = replacement.subs[0];
        lemma_visit_each_index(tree.subs, rules, 0);
        let child = tree.subs[0];
        if operand == visited.subs[0] {
            lemma_second_run_changes_nothing(child, rules);
        } else {
            // The receiver is still a method call after its own traversal, so
            // nothing replaced it: its first sub-node is a traversal's result.
            let under = visit_each(child.subs, rules);
            let child_visited = Tree { head: child.head, subs: under.trees };
            if rewrite(child_visited, rules) is Some {
                lemma_replacement_is_propagation(child_visited, rules);
            }
            lemma_visit_each_len(child.subs, rules);
            lemma_visit_each_index(child.subs, rules, 0);
            lemma_second_run_changes_nothing(child.subs[0], rules);
        }
        lemma_visit_each_one(operand, rules);
        lemma_only_calls_match(replacement, rules);
    }
}

/// A second run changes nothing, for several trees traversed one after the
/// other.
pub proof fn lemma_second_run_changes_nothing_each(trees: Seq<Tree>, rules: Seq<RuleSpec>)
    requires
        only_propagating(rules),
    ensures
        visit_each(visit_each(trees, rules).trees, rules).trees == visit_each(trees, rules).trees,
        visit_each(visit_each(trees, rules).trees, rules).fired == Seq::<Seq<char>>::empty(),
    decreases trees,
{
    if trees.len() > 0 {
        lemma_second_run_changes_nothing_each(trees.drop_last(), rules);
        lemma_second_run_changes_nothing(trees.last(), rules);
        assert(visit_each(trees, rules).trees.drop_last() =~= visit_each(
            trees.drop_last(),
            rules,
        ).trees);
    }
}

/// The earlier rule wins. Where two rules of the list match a node, the
/// first rule to match stands at or before the earlier of the two, and no
/// other rule fires at the node. Where nothing before the earlier rule
/// matches, the earlier rule is the one that fires, if it can build a
/// replacement, and nothing fires otherwise. The count of the later rule's
/// id stays where it was, unless the rule that fires carries the same id.
pub proof fn lemma_earlier_rule_wins(
    tree: Tree,
    rules: Seq<RuleSpec>,
    earlier: int,
    later: int,
    record: Record,
)
    requires
        0 <= earlier < later < rules.len(),
        rule_matches(rules[earlier], tree),
        rule_matches(rules[later], tree),
    ensures
        first_match(rules, tree) is Some,
        first_match(rules, tree)->0 <= earlier,
        rewrite(tree, rules) matches Some(firing) ==> firing.index == first_match(rules, tree)->0,
        is_first_match(rules, tree, earlier) ==> rewrite(tree, rules) == (match instantiate(
            tree,
            rules[earlier],
        ) {
            Some(replacement) => Some(Firing { index: earlier, replacement }),
            None => None,
        }),
        rules[later].id != rules[first_match(rules, tree)->0].id ==> record.extended(
            fired_at(tree, rules),
            false,
        ).counts().count(rules[later].id) == record.counts().count(rules[later].id),
{
    broadcast use group_to_multiset_ensures;

    lemma_first_match(rules, tree);
    let first = first_match(rules, tree)->0;
    let fired = fired_at(tree, rules);
    if fired.len() > 0 {
        assert(record.fired + fired =~= record.fired.push(rules[first].id));
    }
}

/// A chain collapses at once. At a chained call, a method call whose
/// receiver is itself a method call, where the first rule to match is of the
/// collapsing family: one rewrite replaces the call by the propagation of
/// the receiver's own receiver, two levels at once, and registers that rule
/// alone. The operand of the result is not the receiver, as it would be had
/// a rule of the unary families fired at the outer call.
pub proof fn lemma_chain_collapses_at_once(tree: Tree, rules: Seq<RuleSpec>, index: int)
    requires
        tree.well_formed(),
        tree.head is MethodCall,
        tree.subs[0].head is MethodCall,
        first_match(rules, tree) == Some(index),
        family_of(rules[index].id) == Some(Family::OkUnwrap),
    ensures
        rewrite(tree, rules) == Some(
            Firing {
                index,
                replacement: propagation(tree.subs[0].subs[0], seq![doc_note(rules[index])]),
            },
        ),
        fired_at(tree, rules) == seq![rules[index].id],
        rewritten(tree, rules).subs[0] != tree.subs[0],
{
    assert(tree.subs[0].well_formed());
    lemma_sub_is_smaller(tree.subs[0], 0);
}

/// Whatever replaces a node carries the note that names the rule and its
/// documentation; the unsafe block that replaces the deprecated constructor
/// also carries the warning that its initialization must be checked by hand.
pub proof fn lemma_replacements_are_annotated(tree: Tree, rule: RuleSpec)
    requires
        instantiate(tree, rule) is Some,
    ensures
        match instantiate(tree, rule)->0.head {
            Head::Try { notes } => notes.contains(doc_note(rule)),
            Head::Unsafe { notes } => notes.contains(doc_note(rule)) && notes.contains(
                NoteSpec::InitWarning,
            ),
            _ => false,
        },
{
    match instantiate(tree, rule)->0.head {
        Head::Try { notes } => {
            assert(notes[0] == doc_note(rule));
        },
        Head::Unsafe { notes } => {
            assert(notes[0] == doc_note(rule));
            assert(notes[1] == NoteSpec::InitWarning);
        },
        _ => {},
    }
}

/// What replaces a node is a propagation or an unsafe block, never a call.
pub proof fn lemma_replacement_is_no_call(tree: Tree, rule: RuleSpec)
    requires
        instantiate(tree, rule) is Some,
    ensures
        instantiate(tree, rule)->0.head is Try || instantiate(tree, rule)->0.head is Unsafe,
{
}

/// A chain collapses at once in a traversal too. At a chained call whose
/// receiver is still a method call when the traversal comes to the call,
/// where the first rule to match the call is of the collapsing family: the
/// traversal yields the propagation of the traversed inner receiver, never
/// the propagation of the receiver, and registers that rule once, after
/// whatever fired below the call.
pub proof fn lemma_chain_collapses_in_traversal(tree: Tree, rules: Seq<RuleSpec>, index: int)
    requires
        tree.well_formed(),
        tree.head is MethodCall,
        visit(tree.subs[0], rules).tree.head is MethodCall,
        first_match(
            rules,
            Tree { head: tree.head, subs: visit_each(tree.subs, rules).trees },
        ) == Some(index),
        family_of(rules[index].id) == Some(Family::OkUnwrap),
    ensures
        visit(tree, rules).tree == propagation(
            visit(tree.subs[0].subs[0], rules).tree,
            seq![doc_note(rules[index])],
        ),
        visit(tree, rules).tree.subs[0] != visit(tree.subs[0], rules).tree,
        visit(tree, rules).fired == visit_each(tree.subs, rules).fired.push(rules[index].id),
{
    let receiver = tree.subs[0];
    assert(receiver.well_formed());
    lemma_visit_each_index(tree.subs, rules, 0);
    let under = Tree { head: receiver.head, subs: visit_each(receiver.subs, rules).trees };
    if rewrite(under, rules) is Some {
        lemma_first_match(rules, under);
        lemma_replacement_is_no_call(under, rules[rewrite(under, rules)->0.index]);
    }
    lemma_visit_each_index(receiver.subs, rules, 0);
    lemma_sub_is_smaller(under, 0);
}

/// A traversal leaves a string literal exactly as it is and registers no
/// rule for it, whatever the rules; it reports the literal exactly when its
/// text names the deprecated constructor.
pub proof fn lemma_literal_is_untouched(tree: Tree, rules: Seq<RuleSpec>)
    requires
        tree.well_formed(),
        tree.head is StrLit,
    ensures
        visit(tree, rules).tree == tree,
        visit(tree, rules).fired == Seq::<Seq<char>>::empty(),
        visit(tree, rules).detected == detects(tree),
{
    assert(visit_each(tree.subs, rules).trees =~= tree.subs);
    lemma_only_calls_match(tree, rules);
}

/// Registering never lowers the count of any rule id, and never clears the
/// changed flag; the count of an id goes up by the number of times the id is
/// registered.
pub proof fn lemma_counts_never_decrease(
    record: Record,
    fired: Seq<Seq<char>>,
    detected: bool,
    id: Seq<char>,
)
    ensures
        record.extended(fired, detected).counts().count(id) == record.counts().count(id)
            + fired.to_multiset().count(id),
        record.extended(fired, detected).counts().count(id) >= record.counts().count(id),
        record.changed ==> record.extended(fired, detected).changed,
{
    lemma_multiset_commutative(record.fired, fired);
}

/// A traversal registers at most one rule for each node of the tree.
pub proof fn lemma_fires_once_per_node(tree: Tree, rules: Seq<RuleSpec>)
    ensures
        visit(tree, rules).fired.len() <= tree.size(),
    decreases tree,
{
    lemma_fires_once_per_node_each(tree.subs, rules);
}

/// A traversal registers at most one rule for each node of the trees.
pub proof fn lemma_fires_once_per_node_each(trees: Seq<Tree>, rules: Seq<RuleSpec>)
    ensures
        visit_each(trees, rules).fired.len() <= Tree::total_size(trees),
    decreases trees,
{
    if trees.len() > 0 {
        lemma_fires_once_per_node_each(trees.drop_last(), rules);
        lemma_fires_once_per_node(trees.last(), rules);
    }
}

/// A traversal of a well-formed tree yields a well-formed tree.
pub proof fn lemma_visit_keeps_well_formed(tree: Tree, rules: Seq<RuleSpec>)
    requires
        tree.well_formed(),
    ensures
        visit(tree, rules).tree.well_formed(),
    decreases tree,
{
    let below = visit_each(tree.subs, rules);
    let visited = Tree { head: tree.head, subs: below.trees };
    lemma_visit_each_len(tree.subs, rules);
    assert forall|i: int| 0 <= i < visited.subs.len() implies (#[trigger] visited.subs[
        i
    ]).well_formed() by {
        lemma_visit_each_index(tree.subs, rules, i);
        lemma_visit_keeps_well_formed(tree.subs[i], rules);
    }
    match rewrite(visited, rules) {
        Some(firing) => {
            lemma_first_match(rules, visited);
            let rule = rules[firing.index];
            lemma_replacement_well_formed(visited, rule);
        },
        None => {},
    }
}

/// What replaces a well-formed node is well formed.
pub proof fn lemma_replacement_well_formed(tree: Tree, rule: RuleSpec)
    requires
        tree.well_formed(),
        instantiate(tree, rule) is Some,
    ensures
        instantiate(tree, rule)->0.well_formed(),
{
    match family_of(rule.id) {
        Some(Family::Uninitialized) => {
            let path = Tree { head: Head::Path { segments: uninit_path() }, subs: Seq::empty() };
            let allocate = Tree { head: Head::Call, subs: seq![path] };
            let settled = Tree {
                head: Head::MethodCall { method: "assume_init"@ },
                subs: seq![allocate],
            };
            assert(path.well_formed());
            assert(allocate.well_formed());
            assert(settled.well_formed());
        },
        Some(Family::OkUnwrap) => {
            assert(tree.subs[0].well_formed());
        },
        _ => {},
    }
}

} // verus!
