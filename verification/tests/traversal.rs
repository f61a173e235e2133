use modernizer::modernizer::Modernizer;
use modernizer::node::{Node, Note};
use modernizer::rule::ModernizerRule;
use modernizer::tracker::RuleCount;

const REF: &str = "https://example.org/traversal";

fn entry(id: &str, ast_type: &str, method: &str, args: u8, nested: Option<&str>) -> ModernizerRule {
    ModernizerRule {
        id: id.to_string(),
        ast_type: ast_type.to_string(),
        method_name: method.to_string(),
        args_count: args,
        replacement_template: String::new(),
        level_icon: String::new(),
        doc_url: REF.to_string(),
        nested_method: nested.map(|name| name.to_string()),
    }
}

fn usual_rules() -> Vec<ModernizerRule> {
    vec![
        entry("ok_unwrap_to_try", "ExprMethodCall", "unwrap", 0, Some("ok")),
        entry("unwrap_to_try", "ExprMethodCall", "unwrap", 0, None),
        entry("expect_to_try", "ExprMethodCall", "expect", 1, None),
        entry("mem_uninitialized_to_maybeuninit", "ExprCall", "uninitialized", 0, None),
    ]
}

fn var(segments: &[&str]) -> Node {
    Node::Path { segments: segments.iter().map(|s| s.to_string()).collect() }
}

fn msg(receiver: Node, method: &str, args: Vec<Node>) -> Node {
    Node::MethodCall { receiver: Box::new(receiver), method: method.to_string(), args }
}

fn app(func: Node, args: Vec<Node>) -> Node {
    Node::Call { func: Box::new(func), args }
}

fn quoted(value: &str) -> Node {
    Node::StrLit { value: value.to_string() }
}

fn block(handle: u64, children: Vec<Node>) -> Node {
    Node::Other { handle, children }
}

fn note(id: &str) -> Note {
    Note::Doc { rule_id: id.to_string(), doc_url: REF.to_string() }
}

fn tried(operand: Node, id: &str) -> Node {
    Node::Try { inner: Box::new(operand), notes: vec![note(id)] }
}

fn counted(id: &str, count: usize) -> RuleCount {
    RuleCount { id: id.to_string(), count }
}

#[test]
fn inner_calls_are_rewritten_before_outer_ones() {
    let mut modernizer = Modernizer::new(usual_rules());
    let mut node = msg(msg(var(&["a"]), "unwrap", vec![]), "unwrap", vec![]);
    modernizer.visit_expr_mut(&mut node);
    assert_eq!(node, tried(tried(var(&["a"]), "unwrap_to_try"), "unwrap_to_try"));
    assert_eq!(modernizer.tracker().count("unwrap_to_try"), 2);
}

#[test]
fn nested_check_sees_the_receiver_as_the_traversal_left_it() {
    // `a.unwrap().ok().unwrap()`: the innermost call is rewritten first, the
    // `ok` call stays a method call, and the chain collapses onto `a?`.
    let mut modernizer = Modernizer::new(usual_rules());
    let mut node = msg(msg(msg(var(&["a"]), "unwrap", vec![]), "ok", vec![]), "unwrap", vec![]);
    modernizer.visit_expr_mut(&mut node);
    assert_eq!(node, tried(tried(var(&["a"]), "unwrap_to_try"), "ok_unwrap_to_try"));
    assert_eq!(
        modernizer.tracker().snapshot().counts,
        vec![counted("unwrap_to_try", 1), counted("ok_unwrap_to_try", 1)]
    );
}

#[test]
fn rewritten_receiver_is_no_method_call_any_more() {
    // A rule that rewrites `ok()` itself: when the outer `unwrap` is looked
    // at, its receiver is a propagation, so the chained rule does not match
    // and the unary rule after it fires.
    let rules = vec![
        entry("unwrap_to_try", "ExprMethodCall", "ok", 0, None),
        entry("ok_unwrap_to_try", "ExprMethodCall", "unwrap", 0, Some("ok")),
        entry("expect_to_try", "ExprMethodCall", "unwrap", 0, None),
    ];
    let mut modernizer = Modernizer::new(rules);
    let mut node = msg(msg(var(&["a"]), "ok", vec![]), "unwrap", vec![]);
    modernizer.visit_expr_mut(&mut node);
    let inner = tried(var(&["a"]), "unwrap_to_try");
    assert_eq!(
        node,
        Node::Try {
            inner: Box::new(inner),
            notes: vec![note("expect_to_try"), Note::MessagePlaceholder],
        }
    );
    assert_eq!(modernizer.tracker().count("ok_unwrap_to_try"), 0);
}

#[test]
fn arguments_callee_and_children_are_all_visited() {
    let mut modernizer = Modernizer::new(usual_rules());
    let mut node = block(
        1,
        vec![
            app(
                msg(var(&["factory"]), "unwrap", vec![]),
                vec![msg(var(&["x"]), "expect", vec![quoted("no x")]), var(&["y"])],
            ),
            msg(
                var(&["list"]),
                "push",
                vec![msg(msg(var(&["z"]), "ok", vec![]), "unwrap", vec![])],
            ),
            block(2, vec![app(var(&["mem", "uninitialized"]), vec![])]),
        ],
    );
    modernizer.visit_expr_mut(&mut node);
    let expected = block(
        1,
        vec![
            app(
                tried(var(&["factory"]), "unwrap_to_try"),
                vec![
                    Node::Try {
                        inner: Box::new(var(&["x"])),
                        notes: vec![
                            note("expect_to_try"),
                            Note::Message { text: "no x".to_string() },
                        ],
                    },
                    var(&["y"]),
                ],
            ),
            msg(var(&["list"]), "push", vec![tried(var(&["z"]), "ok_unwrap_to_try")]),
            block(
                2,
                vec![Node::Unsafe {
                    body: Box::new(msg(
                        app(var(&["std", "mem", "MaybeUninit", "uninit"]), vec![]),
                        "assume_init",
                        vec![],
                    )),
                    notes: vec![note("mem_uninitialized_to_maybeuninit"), Note::InitWarning],
                }],
            ),
        ],
    );
    assert_eq!(node, expected);
    assert_eq!(
        modernizer.tracker().snapshot().counts,
        vec![
            counted("unwrap_to_try", 1),
            counted("expect_to_try", 1),
            counted("ok_unwrap_to_try", 1),
            counted("mem_uninitialized_to_maybeuninit", 1),
        ]
    );
}

#[test]
fn operand_of_a_propagation_and_body_of_an_unsafe_block_are_visited() {
    let mut modernizer = Modernizer::new(usual_rules());
    let mut node = Node::Try {
        inner: Box::new(msg(var(&["a"]), "unwrap", vec![])),
        notes: vec![],
    };
    modernizer.visit_expr_mut(&mut node);
    assert_eq!(
        node,
        Node::Try { inner: Box::new(tried(var(&["a"]), "unwrap_to_try")), notes: vec![] }
    );
    let mut guarded = Node::Unsafe {
        body: Box::new(msg(var(&["b"]), "unwrap", vec![])),
        notes: vec![Note::InitWarning],
    };
    modernizer.visit_expr_mut(&mut guarded);
    assert_eq!(
        guarded,
        Node::Unsafe {
            body: Box::new(tried(var(&["b"]), "unwrap_to_try")),
            notes: vec![Note::InitWarning],
        }
    );
    assert_eq!(modernizer.tracker().count("unwrap_to_try"), 2);
}

#[test]
fn replacement_is_not_traversed_again() {
    // The block that replaces the deprecated constructor holds a call of
    // `assume_init`; a rule for that name does not fire in the same run.
    let rules = vec![
        entry("mem_uninitialized_to_maybeuninit", "ExprCall", "uninitialized", 0, None),
        entry("unwrap_to_try", "ExprMethodCall", "assume_init", 0, None),
    ];
    let mut modernizer = Modernizer::new(rules);
    let mut node = app(var(&["uninitialized"]), vec![]);
    modernizer.visit_expr_mut(&mut node);
    assert!(matches!(node, Node::Unsafe { .. }));
    assert_eq!(modernizer.tracker().count("mem_uninitialized_to_maybeuninit"), 1);
    assert_eq!(modernizer.tracker().count("unwrap_to_try"), 0);
}

#[test]
fn second_run_changes_nothing_for_the_propagating_families() {
    let rules: Vec<ModernizerRule> = usual_rules().into_iter().take(3).collect();
    let mut first = Modernizer::new(rules.clone());
    let mut node = block(
        9,
        vec![
            msg(msg(var(&["a"]), "ok", vec![]), "unwrap", vec![]),
            msg(msg(var(&["b"]), "unwrap", vec![]), "expect", vec![quoted("boom")]),
            app(var(&["f"]), vec![msg(var(&["c"]), "unwrap", vec![])]),
            msg(msg(msg(var(&["d"]), "ok", vec![]), "ok", vec![]), "unwrap", vec![]),
        ],
    );
    first.visit_expr_mut(&mut node);
    assert!(first.tracker().changed());
    let after_first = node.clone();
    let mut second = Modernizer::new(rules);
    second.visit_expr_mut(&mut node);
    assert_eq!(node, after_first);
    assert!(!second.tracker().changed());
    assert!(second.tracker().snapshot().counts.is_empty());
}

#[test]
fn literals_are_never_changed() {
    let rules = vec![
        entry("unwrap_to_try", "ExprLit", "mem::uninitialized", 0, None),
        entry("unwrap_to_try", "ExprMethodCall", "unwrap", 0, None),
        entry("mem_uninitialized_to_maybeuninit", "ExprCall", "uninitialized", 0, None),
    ];
    for value in ["", "unwrap", "mem::uninitialized", "x.unwrap()", "std::mem::uninitialized()"] {
        let mut modernizer = Modernizer::new(rules.clone());
        let mut node = quoted(value);
        modernizer.visit_expr_mut(&mut node);
        assert_eq!(node, quoted(value));
        assert!(modernizer.tracker().snapshot().counts.is_empty());
        assert_eq!(modernizer.tracker().changed(), value.contains("mem::uninitialized"));
    }
}

#[test]
fn detection_looks_for_the_name_anywhere_in_the_text() {
    let detected = |value: &str| {
        let mut modernizer = Modernizer::new(Vec::new());
        let mut node = quoted(value);
        modernizer.visit_expr_mut(&mut node);
        modernizer.tracker().changed()
    };
    assert!(detected("mem::uninitialized"));
    assert!(detected("see std::mem::uninitialized::<T>()"));
    assert!(detected("xmem::uninitializedx"));
    assert!(!detected("mem::uninitialize"));
    assert!(!detected("mem:uninitialized"));
    assert!(!detected("mem :: uninitialized"));
    assert!(!detected("Mem::Uninitialized"));
    assert!(!detected("uninitialized"));
    assert!(!detected(""));
}

#[test]
fn literal_inside_a_tree_sets_the_flag_without_counts() {
    let mut modernizer = Modernizer::new(usual_rules());
    let mut node = app(var(&["log"]), vec![quoted("mem::uninitialized is gone"), var(&["x"])]);
    modernizer.visit_expr_mut(&mut node);
    assert_eq!(node, app(var(&["log"]), vec![quoted("mem::uninitialized is gone"), var(&["x"])]));
    assert!(modernizer.tracker().changed());
    assert!(modernizer.tracker().snapshot().counts.is_empty());
}

#[test]
fn message_that_names_the_deprecated_api_is_reported_before_the_call_is_replaced() {
    let mut modernizer = Modernizer::new(usual_rules());
    let mut node = msg(var(&["v"]), "expect", vec![quoted("mem::uninitialized failed")]);
    modernizer.visit_expr_mut(&mut node);
    assert_eq!(
        node,
        Node::Try {
            inner: Box::new(var(&["v"])),
            notes: vec![
                note("expect_to_try"),
                Note::Message { text: "mem::uninitialized failed".to_string() },
            ],
        }
    );
    assert_eq!(modernizer.tracker().snapshot().counts, vec![counted("expect_to_try", 1)]);
}

#[test]
fn visit_all_traverses_each_tree_in_order() {
    let mut modernizer = Modernizer::new(usual_rules());
    let mut nodes = vec![
        msg(var(&["a"]), "expect", vec![var(&["m"])]),
        var(&["b"]),
        msg(var(&["c"]), "unwrap", vec![]),
    ];
    modernizer.visit_all(&mut nodes);
    assert_eq!(
        nodes,
        vec![
            Node::Try {
                inner: Box::new(var(&["a"])),
                notes: vec![note("expect_to_try"), Note::MessagePlaceholder],
            },
            var(&["b"]),
            tried(var(&["c"]), "unwrap_to_try"),
        ]
    );
    assert_eq!(
        modernizer.tracker().snapshot().counts,
        vec![counted("expect_to_try", 1), counted("unwrap_to_try", 1)]
    );
    let mut none: Vec<Node> = Vec::new();
    modernizer.visit_all(&mut none);
    assert!(none.is_empty());
}

#[test]
fn counts_add_up_over_several_traversals() {
    let mut modernizer = Modernizer::new(usual_rules());
    for _ in 0..3 {
        let mut node = msg(var(&["a"]), "unwrap", vec![]);
        modernizer.visit_expr_mut(&mut node);
    }
    assert_eq!(modernizer.tracker().count("unwrap_to_try"), 3);
    let mut plain = var(&["a"]);
    modernizer.visit_expr_mut(&mut plain);
    assert_eq!(modernizer.tracker().count("unwrap_to_try"), 3);
    assert!(modernizer.tracker().changed());
}

#[test]
fn transform_functions_act_on_their_own_kind_only() {
    let mut modernizer = Modernizer::new(usual_rules());
    let method_call = msg(var(&["a"]), "unwrap", vec![]);
    let bare_call = app(var(&["uninitialized"]), vec![]);
    assert_eq!(modernizer.transform_expr_call(&method_call), None);
    assert_eq!(modernizer.transform_method_call(&bare_call), None);
    assert!(!modernizer.tracker().changed());
    assert_eq!(
        modernizer.transform_method_call(&method_call),
        Some(tried(var(&["a"]), "unwrap_to_try"))
    );
    assert!(matches!(modernizer.transform_expr_call(&bare_call), Some(Node::Unsafe { .. })));
    assert_eq!(modernizer.transform_method_call(&quoted("mem::uninitialized")), None);
    assert_eq!(
        modernizer.tracker().snapshot().counts,
        vec![counted("unwrap_to_try", 1), counted("mem_uninitialized_to_maybeuninit", 1)]
    );
}

#[test]
fn transform_does_not_visit_below_the_node() {
    let mut modernizer = Modernizer::new(usual_rules());
    let node = msg(msg(var(&["a"]), "unwrap", vec![]), "len", vec![]);
    assert_eq!(modernizer.transform_method_call(&node), None);
    assert!(!modernizer.tracker().changed());
}

#[test]
fn engine_keeps_its_rules() {
    let modernizer = Modernizer::new(usual_rules());
    assert_eq!(modernizer.rules(), &usual_rules());
    assert!(!modernizer.tracker().changed());
    assert!(modernizer.tracker().snapshot().counts.is_empty());
}

#[test]
fn rules_with_the_same_id_share_a_count() {
    let rules = vec![
        entry("unwrap_to_try", "ExprMethodCall", "unwrap", 0, None),
        entry("unwrap_to_try", "ExprMethodCall", "take", 0, None),
    ];
    let mut modernizer = Modernizer::new(rules);
    let mut node = msg(msg(var(&["a"]), "take", vec![]), "unwrap", vec![]);
    modernizer.visit_expr_mut(&mut node);
    assert_eq!(node, tried(tried(var(&["a"]), "unwrap_to_try"), "unwrap_to_try"));
    assert_eq!(modernizer.tracker().snapshot().counts, vec![counted("unwrap_to_try", 2)]);
}

#[test]
fn largest_arity_is_matched_exactly() {
    let rule = entry("unwrap_to_try", "ExprMethodCall", "many", 255, None);
    let args = |n: usize| (0..n).map(|_| var(&["x"])).collect::<Vec<Node>>();
    assert!(rule.matches(&msg(var(&["a"]), "many", args(255))));
    assert!(!rule.matches(&msg(var(&["a"]), "many", args(254))));
    assert!(!rule.matches(&msg(var(&["a"]), "many", args(256))));
    assert!(!rule.matches(&msg(var(&["a"]), "many", args(511))));
}

#[test]
fn firings_are_registered_in_visiting_order() {
    let mut modernizer = Modernizer::new(usual_rules());
    let mut node = msg(
        msg(var(&["a"]), "expect", vec![msg(var(&["m"]), "unwrap", vec![])]),
        "unwrap",
        vec![],
    );
    modernizer.visit_expr_mut(&mut node);
    assert_eq!(
        modernizer.tracker().fired(),
        &vec!["unwrap_to_try".to_string(), "expect_to_try".to_string(), "unwrap_to_try".to_string()]
    );
    let mut more = vec![app(var(&["uninitialized"]), vec![]), msg(var(&["b"]), "unwrap", vec![])];
    modernizer.visit_all(&mut more);
    assert_eq!(modernizer.tracker().fired().len(), 5);
    assert_eq!(modernizer.tracker().fired()[3], "mem_uninitialized_to_maybeuninit");
    assert_eq!(modernizer.tracker().fired()[4], "unwrap_to_try");
}
