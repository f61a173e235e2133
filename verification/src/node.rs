use vstd::prelude::*;

verus! {

/// An annotation attached to a rewritten node: text for a human reader that
/// has no effect when the program runs.
#[derive(Debug, PartialEq, Eq)]
pub enum Note {
    /// Names the rule that produced the rewrite and where it is documented.
    Doc { rule_id: String, doc_url: String },
    /// The message that the replaced call carried as a string literal.
    Message { text: String },
    /// Stands for a message that could not be read off a string literal.
    MessagePlaceholder,
    /// Says that the initialization of the value must be checked by hand.
    InitWarning,
}

/// The mathematical value of a [`Note`].
#[verifier::ext_equal]
pub enum NoteSpec {
    Doc { rule_id: Seq<char>, doc_url: Seq<char> },
    Message { text: Seq<char> },
    MessagePlaceholder,
    InitWarning,
}

impl View for Note {
    type V = NoteSpec;

    open spec fn view(&self) -> NoteSpec {
        match self {
            Note::Doc { rule_id, doc_url } => NoteSpec::Doc {
                rule_id: rule_id@,
                doc_url: doc_url@,
            },
            Note::Message { text } => NoteSpec::Message { text: text@ },
            Note::MessagePlaceholder => NoteSpec::MessagePlaceholder,
            Note::InitWarning => NoteSpec::InitWarning,
        }
    }
}

impl Clone for Note {
    fn clone(&self) -> (copy: Self)
        ensures
            copy@ == self@,
    {
        match self {
            Note::Doc { rule_id, doc_url } => Note::Doc {
                rule_id: rule_id.clone(),
                doc_url: doc_url.clone(),
            },
            Note::Message { text } => Note::Message { text: text.clone() },
            Note::MessagePlaceholder => Note::MessagePlaceholder,
            Note::InitWarning => Note::InitWarning,
        }
    }
}

/// One element of the syntax tree. Each node owns its sub-nodes.
#[derive(Debug, PartialEq, Eq)]
pub enum Node {
    /// `receiver.method(args)`.
    MethodCall { receiver: Box<Node>, method: String, args: Vec<Node> },
    /// `func(args)`.
    Call { func: Box<Node>, args: Vec<Node> },
    /// A path such as `std::mem::uninitialized`, one string per segment.
    Path { segments: Vec<String> },
    /// A string literal, by the text it denotes.
    StrLit { value: String },
    /// `inner?`: the operand followed by the propagation operator.
    Try { inner: Box<Node>, notes: Vec<Note> },
    /// `unsafe { body }`.
    Unsafe { body: Box<Node>, notes: Vec<Note> },
    /// Any other expression. The engine never changes it, only the
    /// expressions directly inside it, which are its children. `handle` is
    /// the caller's own key for the expression.
    Other { handle: u64, children: Vec<Node> },
}

/// What a node is, apart from its sub-nodes.
#[verifier::ext_equal]
pub enum Head {
    /// A method call. Its first sub-node is the receiver, the rest are the
    /// arguments.
    MethodCall { method: Seq<char> },
    /// A bare call. Its first sub-node is the callee, the rest are the
    /// arguments.
    Call,
    /// A path. It has no sub-nodes.
    Path { segments: Seq<Seq<char>> },
    /// A string literal. It has no sub-nodes.
    StrLit { value: Seq<char> },
    /// A propagation. Its one sub-node is the operand.
    Try { notes: Seq<NoteSpec> },
    /// An unsafe block. Its one sub-node is the body.
    Unsafe { notes: Seq<NoteSpec> },
    /// An opaque expression and the expressions directly inside it.
    Other { handle: u64 },
}

/// The mathematical value of a [`Node`]: what the node is, and its sub-nodes
/// in the order in which a traversal visits them. A tree in which a call has
/// no first sub-node is the value of no `Node`; the functions on trees treat
/// it as a node that matches nothing.
#[verifier::ext_equal]
pub struct Tree {
    pub head: Head,
    pub subs: Seq<Tree>,
}

/// The values of notes, in order.
pub open spec fn notes_of(notes: Seq<Note>) -> Seq<NoteSpec> {
    Seq::new(notes.len(), |i: int| notes[i]@)
}

/// The characters of each string, in order.
pub open spec fn texts_of(texts: Seq<String>) -> Seq<Seq<char>> {
    Seq::new(texts.len(), |i: int| texts[i]@)
}

/// The mathematical value of a node.
pub open spec fn tree_of(node: Node) -> Tree
    decreases node,
{
    match node {
        Node::MethodCall { receiver, method, args } => Tree {
            head: Head::MethodCall { method: method@ },
            subs: seq![tree_of(*receiver)] + Seq::new(
                args.len() as nat,
                |i: int|
                    if 0 <= i < args.len() {
                        tree_of(args[i])
                    } else {
                        Tree::leaf()
                    },
            ),
        },
        Node::Call { func, args } => Tree {
            head: Head::Call,
            subs: seq![tree_of(*func)] + Seq::new(
                args.len() as nat,
                |i: int|
                    if 0 <= i < args.len() {
                        tree_of(args[i])
                    } else {
                        Tree::leaf()
                    },
            ),
        },
        Node::Path { segments } => Tree {
            head: Head::Path { segments: texts_of(segments@) },
            subs: Seq::empty(),
        },
        Node::StrLit { value } => Tree { head: Head::StrLit { value: value@ }, subs: Seq::empty() },
        Node::Try { inner, notes } => Tree {
            head: Head::Try { notes: notes_of(notes@) },
            subs: seq![tree_of(*inner)],
        },
        Node::Unsafe { body, notes } => Tree {
            head: Head::Unsafe { notes: notes_of(notes@) },
            subs: seq![tree_of(*body)],
        },
        Node::Other { handle, children } => Tree {
            head: Head::Other { handle },
            subs: Seq::new(
                children.len() as nat,
                |i: int|
                    if 0 <= i < children.len() {
                        tree_of(children[i])
                    } else {
                        Tree::leaf()
                    },
            ),
        },
    }
}

/// The values of nodes, in order.
pub open spec fn trees_of(nodes: Seq<Node>) -> Seq<Tree> {
    Seq::new(nodes.len(), |i: int| tree_of(nodes[i]))
}

impl View for Node {
    type V = Tree;

    open spec fn view(&self) -> Tree {
        tree_of(*self)
    }
}

/// Copies each string of a list.
fn clone_texts(texts: &Vec<String>) -> (copies: Vec<String>)
    ensures
        texts_of(copies@) == texts_of(texts@),
{
    let mut copies: Vec<String> = Vec::new();
    let mut i: usize = 0;
    while i < texts.len()
        invariant
            i <= texts.len(),
            copies.len() == i,
            forall|k: int| 0 <= k < i ==> copies[k]@ == texts[k]@,
        decreases texts.len() - i,
    {
        copies.push(texts[i].clone());
        i += 1;
    }
    copies
}

/// Copies each note of a list.
fn clone_notes(notes: &Vec<Note>) -> (copies: Vec<Note>)
    ensures
        notes_of(copies@) == notes_of(notes@),
{
    let mut copies: Vec<Note> = Vec::new();
    let mut i: usize = 0;
    while i < notes.len()
        invariant
            i <= notes.len(),
            copies.len() == i,
            forall|k: int| 0 <= k < i ==> copies[k]@ == notes[k]@,
        decreases notes.len() - i,
    {
        copies.push(notes[i].clone());
        i += 1;
    }
    copies
}

/// Copies each node of a list, with everything below it.
fn clone_nodes(nodes: &Vec<Node>) -> (copies: Vec<Node>)
    ensures
        trees_of(copies@) == trees_of(nodes@),
    decreases nodes,
{
    let mut copies: Vec<Node> = Vec::new();
    let mut i: usize = 0;
    while i < nodes.len()
        invariant
            i <= nodes.len(),
            copies.len() == i,
            forall|k: int| 0 <= k < i ==> copies[k]@ == nodes[k]@,
        decreases nodes.len() - i,
    {
        copies.push(nodes[i].clone());
        i += 1;
    }
    copies
}

impl Clone for Node {
    /// A copy of the node with everything below it.
    fn clone(&self) -> (copy: Self)
        ensures
            copy@ == self@,
        decreases self,
    {
        match self {
            Node::MethodCall { receiver, method, args } => {
                let copy = Node::MethodCall {
                    receiver: Box::new((&**receiver).clone()),
                    method: method.clone(),
                    args: clone_nodes(args),
                };
                proof {
                    lemma_view_subs(copy);
                    lemma_view_subs(*self);
                }
                copy
            },
            Node::Call { func, args } => {
                let copy = Node::Call {
                    func: Box::new((&**func).clone()),
                    args: clone_nodes(args),
                };
                proof {
                    lemma_view_subs(copy);
                    lemma_view_subs(*self);
                }
                copy
            },
            Node::Path { segments } => Node::Path { segments: clone_texts(segments) },
            Node::StrLit { value } => Node::StrLit { value: value.clone() },
            Node::Try { inner, notes } => Node::Try {
                inner: Box::new((&**inner).clone()),
                notes: clone_notes(notes),
            },
            Node::Unsafe { body, notes } => Node::Unsafe {
                body: Box::new((&**body).clone()),
                notes: clone_notes(notes),
            },
            Node::Other { handle, children } => {
                let copy = Node::Other { handle: *handle, children: clone_nodes(children) };
                proof {
                    lemma_view_subs(copy);
                    lemma_view_subs(*self);
                }
                copy
            },
        }
    }
}

/// The sub-nodes of a node's value, in terms of the values of the node's
/// own fields.
pub proof fn lemma_view_subs(node: Node)
    ensures
        match node {
            Node::MethodCall { receiver, method, args } => node@.subs == seq![receiver@] + trees_of(
                args@,
            ),
            Node::Call { func, args } => node@.subs == seq![func@] + trees_of(args@),
            Node::Path { .. } => node@.subs == Seq::<Tree>::empty(),
            Node::StrLit { .. } => node@.subs == Seq::<Tree>::empty(),
            Node::Try { inner, .. } => node@.subs == seq![inner@],
            Node::Unsafe { body, .. } => node@.subs == seq![body@],
            Node::Other { children, .. } => node@.subs == trees_of(children@),
        },
{
}

impl Tree {
    /// A path without segments: a node without sub-nodes that matches nothing.
    pub open spec fn leaf() -> Tree {
        Tree { head: Head::Path { segments: Seq::empty() }, subs: Seq::empty() }
    }

    /// The receiver of a method call.
    pub open spec fn receiver(self) -> Option<Tree> {
        if self.head is MethodCall && self.subs.len() >= 1 {
            Some(self.subs[0])
        } else {
            None
        }
    }

    /// The arguments of a method call or of a bare call.
    pub open spec fn args(self) -> Option<Seq<Tree>> {
        if (self.head is MethodCall || self.head is Call) && self.subs.len() >= 1 {
            Some(self.subs.subrange(1, self.subs.len() as int))
        } else {
            None
        }
    }

    /// The identifier that a call is matched by: the method's name, or the
    /// last segment of the path that a bare call names as its callee.
    pub open spec fn ident(self) -> Option<Seq<char>> {
        match self.head {
            Head::MethodCall { method } => if self.subs.len() >= 1 {
                Some(method)
            } else {
                None
            },
            Head::Call => if self.subs.len() >= 1 {
                match self.subs[0].head {
                    Head::Path { segments } => if segments.len() >= 1 {
                        Some(segments.last())
                    } else {
                        None
                    },
                    _ => None,
                }
            } else {
                None
            },
            _ => None,
        }
    }

    /// Whether each node of the tree has the sub-nodes that its kind calls
    /// for: a call at least its receiver or callee, a propagation and an
    /// unsafe block exactly one, a path and a literal none. The value of
    /// every `Node` is such a tree.
    pub open spec fn well_formed(self) -> bool
        decreases self,
    {
        &&& match self.head {
            Head::MethodCall { .. } => self.subs.len() >= 1,
            Head::Call => self.subs.len() >= 1,
            Head::Path { .. } => self.subs.len() == 0,
            Head::StrLit { .. } => self.subs.len() == 0,
            Head::Try { .. } => self.subs.len() == 1,
            Head::Unsafe { .. } => self.subs.len() == 1,
            Head::Other { .. } => true,
        }
        &&& forall|i: int| 0 <= i < self.subs.len() ==> (#[trigger] self.subs[i]).well_formed()
    }

    /// The number of nodes in the tree.
    pub open spec fn size(self) -> nat
        decreases self,
    {
        1 + Tree::total_size(self.subs)
    }

    /// The number of nodes in a sequence of trees.
    pub open spec fn total_size(trees: Seq<Tree>) -> nat
        decreases trees,
    {
        if trees.len() == 0 {
            0
        } else {
            Tree::total_size(trees.drop_last()) + trees.last().size()
        }
    }
}

/// A sub-node is smaller than the node that holds it.
pub proof fn lemma_sub_is_smaller(tree: Tree, index: int)
    requires
        0 <= index < tree.subs.len(),
    ensures
        tree.subs[index].size() < tree.size(),
{
    lemma_total_size_bounds(tree.subs, index);
}

/// Each tree of a sequence is at most as large as the whole sequence.
pub proof fn lemma_total_size_bounds(trees: Seq<Tree>, index: int)
    requires
        0 <= index < trees.len(),
    ensures
        trees[index].size() <= Tree::total_size(trees),
    decreases trees.len(),
{
    if index < trees.len() - 1 {
        lemma_total_size_bounds(trees.drop_last(), index);
    }
}

/// The value of a node is a well-formed tree.
pub proof fn lemma_view_well_formed(node: Node)
    ensures
        node@.well_formed(),
    decreases node,
{
    lemma_view_subs(node);
    match node {
        Node::MethodCall { receiver, args, .. } => {
            lemma_view_well_formed(*receiver);
            assert forall|i: int| 0 <= i < node@.subs.len() implies (#[trigger] node@.subs[
                i
            ]).well_formed() by {
                if i > 0 {
                    lemma_view_well_formed(args[i - 1]);
                }
            }
        },
        Node::Call { func, args } => {
            lemma_view_well_formed(*func);
            assert forall|i: int| 0 <= i < node@.subs.len() implies (#[trigger] node@.subs[
                i
            ]).well_formed() by {
                if i > 0 {
                    lemma_view_well_formed(args[i - 1]);
                }
            }
        },
        Node::Path { .. } => {},
        Node::StrLit { .. } => {},
        Node::Try { inner, .. } => {
            lemma_view_well_formed(*inner);
        },
        Node::Unsafe { body, .. } => {
            lemma_view_well_formed(*body);
        },
        Node::Other { children, .. } => {
            assert forall|i: int| 0 <= i < node@.subs.len() implies (#[trigger] node@.subs[
                i
            ]).well_formed() by {
                lemma_view_well_formed(children[i]);
            }
        },
    }
}

} // verus!
