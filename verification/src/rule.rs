use vstd::prelude::*;
use crate::text::text_eq;

verus! {

/// Rule id of the rewrite of a call without arguments that unwraps its receiver.
pub const UNWRAP_TO_TRY: &'static str = "unwrap_to_try";

/// Rule id of the rewrite of a call that unwraps its receiver with a message.
pub const EXPECT_TO_TRY: &'static str = "expect_to_try";

/// Rule id of the rewrite that collapses an unwrap chained on a conversion call.
pub const OK_UNWRAP_TO_TRY: &'static str = "ok_unwrap_to_try";

/// Rule id of the rewrite of the deprecated constructor of uninitialized memory.
pub const MEM_UNINITIALIZED_TO_MAYBEUNINIT: &'static str = "mem_uninitialized_to_maybeuninit";

/// The `ast_type` of a rule that targets method-call expressions.
pub const AST_METHOD_CALL: &'static str = "ExprMethodCall";

/// The `ast_type` of a rule that targets bare function-call expressions.
pub const AST_CALL: &'static str = "ExprCall";

/// A declarative instruction: which nodes to match and, through its id, how
/// to rewrite them. Rules are data; their order in a list is their priority.
#[derive(Debug, PartialEq, Eq)]
pub struct ModernizerRule {
    /// Identifies the rule in counts and reports, and selects its family.
    pub id: String,
    /// The category of node the rule targets.
    pub ast_type: String,
    /// The method or function identifier that must match exactly.
    pub method_name: String,
    /// The exact number of arguments the call must have.
    pub args_count: u8,
    /// The replacement as text, for reports.
    pub replacement_template: String,
    /// The severity marker shown in reports.
    pub level_icon: String,
    /// Where the rewrite is documented.
    pub doc_url: String,
    /// If present, the receiver must itself be a method call of this name.
    pub nested_method: Option<String>,
}

/// The mathematical value of a [`ModernizerRule`].
pub struct RuleSpec {
    pub id: Seq<char>,
    pub ast_type: Seq<char>,
    pub method_name: Seq<char>,
    pub args_count: nat,
    pub replacement_template: Seq<char>,
    pub level_icon: Seq<char>,
    pub doc_url: Seq<char>,
    pub nested_method: Option<Seq<char>>,
}

impl View for ModernizerRule {
    type V = RuleSpec;

    open spec fn view(&self) -> RuleSpec {
        RuleSpec {
            id: self.id@,
            ast_type: self.ast_type@,
            method_name: self.method_name@,
            args_count: self.args_count as nat,
            replacement_template: self.replacement_template@,
            level_icon: self.level_icon@,
            doc_url: self.doc_url@,
            nested_method: match self.nested_method {
                Some(name) => Some(name@),
                None => None,
            },
        }
    }
}

impl Clone for ModernizerRule {
    fn clone(&self) -> (copy: Self)
        ensures
            copy@ == self@,
    {
        ModernizerRule {
            id: self.id.clone(),
            ast_type: self.ast_type.clone(),
            method_name: self.method_name.clone(),
            args_count: self.args_count,
            replacement_template: self.replacement_template.clone(),
            level_icon: self.level_icon.clone(),
            doc_url: self.doc_url.clone(),
            nested_method: match &self.nested_method {
                Some(name) => Some(name.clone()),
                None => None,
            },
        }
    }
}

/// The mathematical value of a rule list: the values of its rules, in order.
pub open spec fn rules_of(rules: Seq<ModernizerRule>) -> Seq<RuleSpec> {
    Seq::new(rules.len(), |i: int| rules[i]@)
}

/// The rewrites that the engine knows how to build. A rule's id selects one.
#[derive(Clone, Copy, Debug, PartialEq, Eq, Structural)]
pub enum Family {
    /// `receiver.unwrap()` becomes `receiver?`.
    Unwrap,
    /// `receiver.expect(message)` becomes `receiver?`, the message kept as a note.
    Expect,
    /// `inner.ok().unwrap()` becomes `inner?`.
    OkUnwrap,
    /// The deprecated constructor becomes an explicit uninitialized value
    /// that is assumed initialized, inside an unsafe block.
    Uninitialized,
}

/// The family that a rule id selects, if any.
pub open spec fn family_of(id: Seq<char>) -> Option<Family> {
    if id == UNWRAP_TO_TRY@ {
        Some(Family::Unwrap)
    } else if id == EXPECT_TO_TRY@ {
        Some(Family::Expect)
    } else if id == OK_UNWRAP_TO_TRY@ {
        Some(Family::OkUnwrap)
    } else if id == MEM_UNINITIALIZED_TO_MAYBEUNINIT@ {
        Some(Family::Uninitialized)
    } else {
        None
    }
}

impl ModernizerRule {
    /// The family that this rule's id selects, if any.
    pub fn family(&self) -> (family: Option<Family>)
        ensures
            family == family_of(self.id@),
    {
        let id = self.id.as_str();
        if text_eq(id, UNWRAP_TO_TRY) {
            Some(Family::Unwrap)
        } else if text_eq(id, EXPECT_TO_TRY) {
            Some(Family::Expect)
        } else if text_eq(id, OK_UNWRAP_TO_TRY) {
            Some(Family::OkUnwrap)
        } else if text_eq(id, MEM_UNINITIALIZED_TO_MAYBEUNINIT) {
            Some(Family::Uninitialized)
        } else {
            None
        }
    }
}

} // verus!
