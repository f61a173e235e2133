use vstd::prelude::*;
use vstd::std_specs::vec::axiom_vec_index_decreases;
use crate::matcher::find_rule;
use crate::node::{lemma_view_subs, notes_of, trees_of, Node, Note, Tree};
use crate::rule::{rules_of, Family, ModernizerRule, RuleSpec};
use crate::template::{
    doc_note, instantiate, message_note, message_note_for, option_tree, propagate, uninit_block,
};
use crate::text::text_contains;
use crate::tracker::{lemma_extended_by_nothing, lemma_extended_twice, ChangeTracker, Record};
use crate::walk::{
    detects, fired_at, lemma_visit_each_concat, lemma_visit_each_one, replacement_of, visit,
    visit_each, DEPRECATED_API,
};

verus! {

/// The rewrite engine: an ordered rule list and the record of what a
/// traversal has done with it.
pub struct Modernizer {
    tracker: ChangeTracker,
    rules: Vec<ModernizerRule>,
}

/// The mathematical value of a [`Modernizer`].
pub struct ModernizerSpec {
    /// What has been registered so far.
    pub record: Record,
    /// The rules, in their order of priority.
    pub rules: Seq<RuleSpec>,
}

impl ModernizerSpec {
    /// The engine after the rules with the ids `fired` have fired in that
    /// order, and after a detection if `detected` holds. The rules stay.
    pub open spec fn registering(self, fired: Seq<Seq<char>>, detected: bool) -> ModernizerSpec {
        ModernizerSpec { record: self.record.extended(fired, detected), rules: self.rules }
    }
}

impl View for Modernizer {
    type V = ModernizerSpec;

    closed spec fn view(&self) -> ModernizerSpec {
        ModernizerSpec { record: self.tracker@, rules: rules_of(self.rules@) }
    }
}

impl Modernizer {
    /// An engine with the given rules that has registered nothing yet.
    pub fn new(rules: Vec<ModernizerRule>) -> (modernizer: Self)
        ensures
            modernizer@ == (ModernizerSpec {
                record: Record { changed: false, fired: Seq::empty() },
                rules: rules_of(rules@),
            }),
    {
        Modernizer { tracker: ChangeTracker::new(), rules }
    }

    /// The rules, in their order of priority.
    pub fn rules(&self) -> (rules: &Vec<ModernizerRule>)
        ensures
            rules_of(rules@) == self@.rules,
    {
        &self.rules
    }

    /// What the engine has registered so far.
    pub fn tracker(&self) -> (tracker: &ChangeTracker)
        ensures
            tracker@ == self@.record,
    {
        &self.tracker
    }

    /// Builds the node that replaces `node` under `rule`, or nothing where
    /// the rule's id selects no family or the node lacks the shape that the
    /// family works on.
    pub fn apply_rule_template(&self, node: &Node, rule: &ModernizerRule) -> (replacement: Option<
        Node,
    >)
        ensures
            option_tree(replacement) == instantiate(node@, rule@),
    {
        proof {
            lemma_view_subs(*node);
        }
        match rule.family() {
            Some(Family::Unwrap) => match node {
                Node::MethodCall { receiver, .. } => {
                    let mut notes: Vec<Note> = Vec::new();
                    notes.push(rule.doc_note());
                    Some(propagate((&**receiver).clone(), notes))
                },
                _ => None,
            },
            Some(Family::Expect) => match node {
                Node::MethodCall { receiver, args, .. } => {
                    let mut notes: Vec<Note> = Vec::new();
                    notes.push(rule.doc_note());
                    notes.push(message_note_for(args));
                    Some(propagate((&**receiver).clone(), notes))
                },
                _ => None,
            },
            Some(Family::OkUnwrap) => match node {
                Node::MethodCall { receiver, .. } => {
                    proof {
                        lemma_view_subs(**receiver);
                    }
                    match &**receiver {
                        Node::MethodCall { receiver: inner, .. } => {
                            let mut notes: Vec<Note> = Vec::new();
                            notes.push(rule.doc_note());
                            Some(propagate((&**inner).clone(), notes))
                        },
                        _ => None,
                    }
                },
                _ => None,
            },
            Some(Family::Uninitialized) => match node {
                Node::Call { func, args } => {
                    proof {
                        lemma_view_subs(**func);
                    }
                    let named = match &**func {
                        Node::Path { segments } => {
                            let n = segments.len();
                            n >= 1 && segments[n - 1] == rule.method_name
                        },
                        _ => false,
                    };
                    assert(node@.args()->0 =~= trees_of(args@));
                    if named && args.len() == 0 {
                        assert(trees_of(args@) =~= Seq::<Tree>::empty());
                        Some(uninit_block(rule))
                    } else {
                        None
                    }
                },
                _ => None,
            },
            None => None,
        }
    }

    /// Tries the rules at one node: the first rule that matches is
    /// instantiated and, where that yields a replacement, registered.
    fn transform(&mut self, node: &Node) -> (replacement: Option<Node>)
        ensures
            option_tree(replacement) == replacement_of(node@, old(self)@.rules),
            final(self)@ == old(self)@.registering(fired_at(node@, old(self)@.rules), false),
    {
        let found = find_rule(&self.rules, node);
        let replacement = match found {
            Some(index) => self.apply_rule_template(node, &self.rules[index]),
            None => None,
        };
        match found {
            Some(index) => {
                if replacement.is_some() {
                    self.tracker.record(self.rules[index].id.as_str());
                }
            },
            None => {},
        }
        replacement
    }

    /// Tries the rules at a method call. Any other node is left alone.
    pub fn transform_method_call(&mut self, node: &Node) -> (replacement: Option<Node>)
        ensures
            node@.head is MethodCall ==> option_tree(replacement) == replacement_of(
                node@,
                old(self)@.rules,
            ) && final(self)@ == old(self)@.registering(fired_at(node@, old(self)@.rules), false),
            !(node@.head is MethodCall) ==> replacement is None && final(self)@ == old(self)@,
    {
        match node {
            Node::MethodCall { .. } => self.transform(node),
            _ => None,
        }
    }

    /// Tries the rules at a bare call. Any other node is left alone.
    pub fn transform_expr_call(&mut self, node: &Node) -> (replacement: Option<Node>)
        ensures
            node@.head is Call ==> option_tree(replacement) == replacement_of(
                node@,
                old(self)@.rules,
            ) && final(self)@ == old(self)@.registering(fired_at(node@, old(self)@.rules), false),
            !(node@.head is Call) ==> replacement is None && final(self)@ == old(self)@,
    {
        match node {
            Node::Call { .. } => self.transform(node),
            _ => None,
        }
    }

    /// Traverses the tree at `node`, sub-nodes before the node itself, and
    /// rewrites in place each node at which a rule fires. Every firing is
    /// registered; a string literal that names the deprecated constructor
    /// is reported through the changed flag and left as it is.
    pub fn visit_expr_mut(&mut self, node: &mut Node)
        ensures
            final(node)@ == visit(old(node)@, old(self)@.rules).tree,
            final(self)@ == old(self)@.registering(
                visit(old(node)@, old(self)@.rules).fired,
                visit(old(node)@, old(self)@.rules).detected,
            ),
        decreases *old(node),
    {
        let ghost rules = self@.rules;
        let ghost before = node@;
        let ghost start = self@.record;
        let ghost below = visit_each(before.subs, rules);
        proof {
            lemma_view_subs(*node);
        }
        match node {
            Node::MethodCall { receiver, args, .. } => {
                proof {
                    lemma_visit_each_one(receiver@, rules);
                    lemma_visit_each_concat(seq![receiver@], trees_of(args@), rules);
                    lemma_extended_twice(
                        start,
                        visit(receiver@, rules).fired,
                        visit(receiver@, rules).detected,
                        visit_each(trees_of(args@), rules).fired,
                        visit_each(trees_of(args@), rules).detected,
                    );
                }
                self.visit_expr_mut(&mut **receiver);
                self.visit_all(args);
            },
            Node::Call { func, args } => {
                proof {
                    lemma_visit_each_one(func@, rules);
                    lemma_visit_each_concat(seq![func@], trees_of(args@), rules);
                    lemma_extended_twice(
                        start,
                        visit(func@, rules).fired,
                        visit(func@, rules).detected,
                        visit_each(trees_of(args@), rules).fired,
                        visit_each(trees_of(args@), rules).detected,
                    );
                }
                self.visit_expr_mut(&mut **func);
                self.visit_all(args);
            },
            Node::Try { inner, .. } => {
                proof {
                    lemma_visit_each_one(inner@, rules);
                }
                self.visit_expr_mut(&mut **inner);
            },
            Node::Unsafe { body, .. } => {
                proof {
                    lemma_visit_each_one(body@, rules);
                }
                self.visit_expr_mut(&mut **body);
            },
            Node::Other { children, .. } => {
                self.visit_all(children);
            },
            _ => {
                proof {
                    lemma_extended_by_nothing(start);
                }
            },
        }
        proof {
            lemma_view_subs(*node);
        }
        let ghost visited = node@;
        let replacement = match node {
            Node::MethodCall { .. } => self.transform_method_call(node),
            Node::Call { .. } => self.transform_expr_call(node),
            Node::StrLit { value } => {
                if text_contains(value.as_str(), DEPRECATED_API) {
                    self.tracker.flag();
                }
                None
            },
            _ => None,
        };
        proof {
            lemma_extended_twice(
                start,
                below.fired,
                below.detected,
                fired_at(visited, rules),
                detects(visited),
            );
            lemma_extended_by_nothing(start.extended(below.fired, below.detected));
        }
        if let Some(new_node) = replacement {
            *node = new_node;
        }
    }

    /// Traverses each tree of the list, in order.
    pub fn visit_all(&mut self, nodes: &mut Vec<Node>)
        ensures
            trees_of(final(nodes)@) == visit_each(trees_of(old(nodes)@), old(self)@.rules).trees,
            final(self)@ == old(self)@.registering(
                visit_each(trees_of(old(nodes)@), old(self)@.rules).fired,
                visit_each(trees_of(old(nodes)@), old(self)@.rules).detected,
            ),
        decreases *old(nodes),
    {
        let ghost rules = self@.rules;
        let ghost start = self@.record;
        let ghost given = *nodes;
        let ghost elements = nodes@;
        let ghost trees = trees_of(nodes@);
        let mut i: usize = 0;
        proof {
            lemma_extended_by_nothing(start);
        }
        while i < nodes.len()
            invariant
                i <= nodes.len(),
                nodes.len() == elements.len(),
                given == *old(nodes),
                elements == given@,
                trees == trees_of(elements),
                self@.rules == rules,
                forall|k: int| i <= k < nodes.len() ==> nodes[k] == elements[k],
                trees_of(nodes@).subrange(0, i as int) == visit_each(
                    trees.subrange(0, i as int),
                    rules,
                ).trees,
                self@.record == start.extended(
                    visit_each(trees.subrange(0, i as int), rules).fired,
                    visit_each(trees.subrange(0, i as int), rules).detected,
                ),
            decreases nodes.len() - i,
        {
            let ghost done = visit_each(trees.subrange(0, i as int), rules);
            let ghost step = visit(trees[i as int], rules);
            proof {
                assert(trees.subrange(0, i + 1).drop_last() =~= trees.subrange(0, i as int));
                lemma_extended_twice(start, done.fired, done.detected, step.fired, step.detected);
                axiom_vec_index_decreases(given, i as int);
            }
            self.visit_expr_mut(&mut nodes[i]);
            i += 1;
        }
        proof {
            assert(trees.subrange(0, i as int) =~= trees);
        }
    }
}

} // verus!
