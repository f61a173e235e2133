use vstd::prelude::*;
use crate::node::{lemma_view_subs, notes_of, trees_of, Head, Node, Note, NoteSpec, Tree};
use crate::rule::{family_of, Family, ModernizerRule, RuleSpec};

verus! {

/// The note that every rewrite carries: the rule's id and where the rewrite
/// is documented.
pub open spec fn doc_note(rule: RuleSpec) -> NoteSpec {
    NoteSpec::Doc { rule_id: rule.id, doc_url: rule.doc_url }
}

/// The note that keeps the message of a replaced call: the text itself where
/// the call's one argument is a string literal, a placeholder otherwise.
pub open spec fn message_note(args: Seq<Tree>) -> NoteSpec {
    if args.len() == 1 && args[0].head is StrLit {
        NoteSpec::Message { text: args[0].head->value }
    } else {
        NoteSpec::MessagePlaceholder
    }
}

/// `operand?` with the given notes attached.
pub open spec fn propagation(operand: Tree, notes: Seq<NoteSpec>) -> Tree {
    Tree { head: Head::Try { notes }, subs: seq![operand] }
}

/// The path of the constructor of an explicitly uninitialized value.
pub open spec fn uninit_path() -> Seq<Seq<char>> {
    seq!["std"@, "mem"@, "MaybeUninit"@, "uninit"@]
}

/// `unsafe { std::mem::MaybeUninit::uninit().assume_init() }`: a value is
/// allocated uninitialized and then taken as initialized. The block carries
/// the rule's note and the warning that the initialization must be checked by
/// hand.
pub open spec fn uninit_replacement(rule: RuleSpec) -> Tree {
    let path = Tree { head: Head::Path { segments: uninit_path() }, subs: Seq::empty() };
    let allocate = Tree { head: Head::Call, subs: seq![path] };
    let settled = Tree { head: Head::MethodCall { method: "assume_init"@ }, subs: seq![allocate] };
    Tree {
        head: Head::Unsafe { notes: seq![doc_note(rule), NoteSpec::InitWarning] },
        subs: seq![settled],
    }
}

/// The node that replaces `tree` under `rule`, by the family that the rule's
/// id selects; nothing where the id selects no family or where the node
/// lacks the shape that the family works on.
pub open spec fn instantiate(tree: Tree, rule: RuleSpec) -> Option<Tree> {
    match family_of(rule.id) {
        Some(Family::Unwrap) => match tree.receiver() {
            Some(receiver) => Some(propagation(receiver, seq![doc_note(rule)])),
            None => None,
        },
        Some(Family::Expect) => match tree.receiver() {
            Some(receiver) => Some(
                propagation(receiver, seq![doc_note(rule), message_note(tree.args()->0)]),
            ),
            None => None,
        },
        Some(Family::OkUnwrap) => match tree.receiver() {
            Some(receiver) => match receiver.receiver() {
                Some(inner) => Some(propagation(inner, seq![doc_note(rule)])),
                None => None,
            },
            None => None,
        },
        Some(Family::Uninitialized) => if tree.head is Call && tree.ident() == Some(
            rule.method_name,
        ) && tree.args() == Some(Seq::<Tree>::empty()) {
            Some(uninit_replacement(rule))
        } else {
            None
        },
        None => None,
    }
}

/// The value of an optional node.
pub open spec fn option_tree(node: Option<Node>) -> Option<Tree> {
    match node {
        Some(node) => Some(node@),
        None => None,
    }
}

impl ModernizerRule {
    /// The note that every rewrite under this rule carries.
    pub fn doc_note(&self) -> (note: Note)
        ensures
            note@ == doc_note(self@),
    {
        Note::Doc { rule_id: self.id.clone(), doc_url: self.doc_url.clone() }
    }
}

/// The note that keeps the message of a replaced call with these arguments.
pub fn message_note_for(args: &Vec<Node>) -> (note: Note)
    ensures
        note@ == message_note(trees_of(args@)),
{
    if args.len() == 1 {
        match &args[0] {
            Node::StrLit { value } => Note::Message { text: value.clone() },
            _ => Note::MessagePlaceholder,
        }
    } else {
        Note::MessagePlaceholder
    }
}

/// `operand?` with the given notes attached.
pub fn propagate(operand: Node, notes: Vec<Note>) -> (node: Node)
    ensures
        node@ == propagation(operand@, notes_of(notes@)),
{
    Node::Try { inner: Box::new(operand), notes }
}

/// The replacement for a call of the deprecated constructor under `rule`.
pub fn uninit_block(rule: &ModernizerRule) -> (node: Node)
    ensures
        node@ == uninit_replacement(rule@),
{
    let mut segments: Vec<String> = Vec::new();
    segments.push("std".to_owned());
    segments.push("mem".to_owned());
    segments.push("MaybeUninit".to_owned());
    segments.push("uninit".to_owned());
    let path = Node::Path { segments };
    let allocate = Node::Call { func: Box::new(path), args: Vec::new() };
    let settled = Node::MethodCall {
        receiver: Box::new(allocate),
        method: "assume_init".to_owned(),
        args: Vec::new(),
    };
    let mut notes: Vec<Note> = Vec::new();
    notes.push(rule.doc_note());
    notes.push(Note::InitWarning);
    let node = Node::Unsafe { body: Box::new(settled), notes };
    proof {
        lemma_view_subs(path);
        lemma_view_subs(allocate);
        lemma_view_subs(settled);
        lemma_view_subs(node);
        assert(path@.head->segments =~= uninit_path());
    }
    node
}

} // verus!
