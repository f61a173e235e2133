use vstd::prelude::*;
use crate::node::{lemma_view_subs, Head, Node, Tree};
use crate::rule::{rules_of, ModernizerRule, RuleSpec, AST_CALL, AST_METHOD_CALL};
use crate::text::text_eq;

verus! {

/// Whether the rule targets the category of node that `tree` is.
pub open spec fn kind_matches(rule: RuleSpec, tree: Tree) -> bool {
    ||| tree.head is MethodCall && rule.ast_type == AST_METHOD_CALL@
    ||| tree.head is Call && rule.ast_type == AST_CALL@
}

/// Whether the node meets the rule's constraint on its receiver. A rule
/// without the constraint accepts any node; a rule with it accepts only a
/// method call whose receiver is a method call of the given name.
pub open spec fn nested_matches(rule: RuleSpec, tree: Tree) -> bool {
    match rule.nested_method {
        None => true,
        Some(name) => match tree.receiver() {
            Some(receiver) => receiver.head == (Head::MethodCall { method: name }),
            None => false,
        },
    }
}

/// Whether the rule matches the node: the category, the identifier, the
/// number of arguments and the constraint on the receiver all fit.
pub open spec fn rule_matches(rule: RuleSpec, tree: Tree) -> bool {
    &&& kind_matches(rule, tree)
    &&& tree.ident() == Some(rule.method_name)
    &&& tree.args() matches Some(args) && args.len() == rule.args_count
    &&& nested_matches(rule, tree)
}

/// Whether `index` is the place of the first rule of the list that matches
/// the node.
pub open spec fn is_first_match(rules: Seq<RuleSpec>, tree: Tree, index: int) -> bool {
    &&& 0 <= index < rules.len()
    &&& rule_matches(rules[index], tree)
    &&& forall|earlier: int| 0 <= earlier < index ==> !rule_matches(#[trigger] rules[earlier], tree)
}

/// The place of the first rule of the list that matches the node, if any
/// rule matches it.
pub open spec fn first_match(rules: Seq<RuleSpec>, tree: Tree) -> Option<int> {
    if exists|index: int| is_first_match(rules, tree, index) {
        Some(choose|index: int| is_first_match(rules, tree, index))
    } else {
        None
    }
}

/// The first match is the only place that [`is_first_match`] holds of, and
/// there is none exactly when no rule of the list matches.
pub proof fn lemma_first_match(rules: Seq<RuleSpec>, tree: Tree)
    ensures
        forall|index: int|
            is_first_match(rules, tree, index) <==> first_match(rules, tree) == Some(index),
        first_match(rules, tree) is None <==> forall|index: int|
            0 <= index < rules.len() ==> !rule_matches(#[trigger] rules[index], tree),
{
    assert forall|index: int| is_first_match(rules, tree, index) implies first_match(rules, tree)
        == Some(index) by {
        let chosen = choose|other: int| is_first_match(rules, tree, other);
        assert(is_first_match(rules, tree, chosen));
    }
    if first_match(rules, tree) is None {
        assert forall|index: int| 0 <= index < rules.len() implies !rule_matches(
            #[trigger] rules[index],
            tree,
        ) by {
            if rule_matches(rules[index], tree) {
                lemma_least_match(rules, tree, index);
            }
        }
    }
}

/// If the rule at `index` matches, some rule at or before it is the first
/// that does.
proof fn lemma_least_match(rules: Seq<RuleSpec>, tree: Tree, index: int)
    requires
        0 <= index < rules.len(),
        rule_matches(rules[index], tree),
    ensures
        exists|first: int| is_first_match(rules, tree, first),
    decreases index,
{
    if exists|earlier: int| 0 <= earlier < index && rule_matches(#[trigger] rules[earlier], tree) {
        let earlier = choose|earlier: int|
            0 <= earlier < index && rule_matches(#[trigger] rules[earlier], tree);
        lemma_least_match(rules, tree, earlier);
    } else {
        assert(is_first_match(rules, tree, index));
    }
}

impl ModernizerRule {
    /// Whether this rule matches the node.
    pub fn matches(&self, node: &Node) -> (matched: bool)
        ensures
            matched == rule_matches(self@, node@),
    {
        proof {
            lemma_view_subs(*node);
        }
        match node {
            Node::MethodCall { receiver, method, args } => {
                proof {
                    lemma_view_subs(**receiver);
                }
                if !text_eq(self.ast_type.as_str(), AST_METHOD_CALL) {
                    return false;
                }
                if self.method_name != *method {
                    return false;
                }
                if self.args_count as usize != args.len() {
                    return false;
                }
                match &self.nested_method {
                    Some(name) => match &**receiver {
                        Node::MethodCall { method: inner, .. } => *inner == *name,
                        _ => false,
                    },
                    None => true,
                }
            },
            Node::Call { func, args } => {
                proof {
                    lemma_view_subs(**func);
                }
                if !text_eq(self.ast_type.as_str(), AST_CALL) {
                    return false;
                }
                let named = match &**func {
                    Node::Path { segments } => {
                        let n = segments.len();
                        n >= 1 && segments[n - 1] == self.method_name
                    },
                    _ => false,
                };
                if !named {
                    return false;
                }
                if self.args_count as usize != args.len() {
                    return false;
                }
                self.nested_method.is_none()
            },
            _ => false,
        }
    }
}

/// The place of the first rule of the list that matches the node, if any
/// rule matches it.
pub fn find_rule(rules: &Vec<ModernizerRule>, node: &Node) -> (found: Option<usize>)
    ensures
        match found {
            Some(index) => first_match(rules_of(rules@), node@) == Some(index as int),
            None => first_match(rules_of(rules@), node@) is None,
        },
{
    let ghost specs = rules_of(rules@);
    let mut i: usize = 0;
    while i < rules.len()
        invariant
            i <= rules.len(),
            specs == rules_of(rules@),
            forall|earlier: int|
                0 <= earlier < i ==> !rule_matches(#[trigger] specs[earlier], node@),
        decreases rules.len() - i,
    {
        if rules[i].matches(node) {
            proof {
                assert(is_first_match(specs, node@, i as int));
                lemma_first_match(specs, node@);
            }
            return Some(i);
        }
        i += 1;
    }
    proof {
        lemma_first_match(specs, node@);
    }
    None
}

} // verus!
