use codebase_index::{
    chunk_entity, get_language, ingest_entities, jobs_for_entity, CodeEntity, PolicyEntry,
    RetentionPolicy, SyntaxNode,
};

fn leaf(kind: &str, start: usize, end: usize, text: &str) -> SyntaxNode {
    SyntaxNode {
        kind: kind.to_string(),
        start_byte: start,
        end_byte: end,
        text: text.to_string(),
        children: Vec::new(),
    }
}

fn node(kind: &str, start: usize, end: usize, text: &str, children: Vec<SyntaxNode>) -> SyntaxNode {
    SyntaxNode {
        kind: kind.to_string(),
        start_byte: start,
        end_byte: end,
        text: text.to_string(),
        children,
    }
}

fn policy(entries: Vec<(&str, Vec<&str>)>) -> RetentionPolicy {
    RetentionPolicy {
        entries: entries
            .into_iter()
            .map(|(ext, kinds)| PolicyEntry {
                extension: ext.to_string(),
                kinds: kinds.into_iter().map(|k| k.to_string()).collect(),
            })
            .collect(),
    }
}

fn py_module() -> Vec<SyntaxNode> {
    vec![
        node(
            "function_definition",
            0,
            30,
            "def f():\n    return 1\n",
            vec![leaf("identifier", 4, 5, "f"), leaf("parameters", 5, 7, "()")],
        ),
        node(
            "class_definition",
            31,
            70,
            "class C:\n    pass\n",
            vec![leaf("identifier", 37, 38, "C")],
        ),
    ]
}

#[test]
fn python_function_and_class_become_two_super_entities() {
    let p = policy(vec![("py", vec!["function_definition", "class_definition"])]);
    let ext = "py".to_string();
    let entities = ingest_entities(&py_module(), &ext, &p);

    assert_eq!(entities.len(), 2);
    let mut orders: Vec<usize> = entities.iter().map(|e| e.order).collect();
    orders.sort();
    assert_eq!(orders, vec![1, 2]);
    assert!(entities.iter().all(|e| e.is_super));
    assert_eq!(entities[0].entity_type, "function_definition");
    assert_eq!(entities[1].entity_type, "class_definition");
    // identifier/parameters are not retained: leaf entities, no children
    assert!(entities[0].children.is_empty());
    assert!(entities[1].children.is_empty());

    // each super entity is embedded at least once: at least one chunk,
    // hence at least one embedding job
    for e in &entities {
        let chunks = chunk_entity(&e.text);
        assert!(chunks.len() >= 1);
        let jobs = jobs_for_entity(&chunks, &"entity-0".to_string(), 6969);
        assert!(jobs.len() >= 1);
    }
}

#[test]
fn orders_are_contiguous_over_retained_siblings() {
    let p = policy(vec![("rs", vec!["fn_item", "struct_item"])]);
    let ext = "rs".to_string();
    let nodes = vec![
        leaf("fn_item", 0, 5, "fn a"),
        leaf("comment", 5, 10, "// x"),
        leaf("struct_item", 10, 20, "struct S;"),
        leaf("comment", 20, 25, "// y"),
        leaf("fn_item", 25, 30, "fn b"),
    ];
    let entities = ingest_entities(&nodes, &ext, &p);
    let orders: Vec<usize> = entities.iter().map(|e| e.order).collect();
    assert_eq!(orders, vec![1, 2, 3]);
    let kinds: Vec<&str> = entities.iter().map(|e| e.entity_type.as_str()).collect();
    assert_eq!(kinds, vec!["fn_item", "struct_item", "fn_item"]);
}

#[test]
fn nested_sibling_groups_restart_orders_at_one() {
    let p = policy(vec![("rs", vec!["mod_item", "fn_item"])]);
    let ext = "rs".to_string();
    let nodes = vec![node(
        "mod_item",
        0,
        40,
        "mod m { fn a() {} fn b() {} }",
        vec![leaf("fn_item", 8, 17, "fn a() {}"), leaf("fn_item", 18, 27, "fn b() {}")],
    )];
    let entities = ingest_entities(&nodes, &ext, &p);
    assert_eq!(entities.len(), 1);
    assert!(entities[0].is_super);
    let inner: Vec<usize> = entities[0].children.iter().map(|e| e.order).collect();
    assert_eq!(inner, vec![1, 2]);
    assert!(entities[0].children.iter().all(|e| !e.is_super));
}

#[test]
fn extraction_is_deterministic_for_identical_content() {
    let p = policy(vec![("py", vec!["function_definition", "class_definition"])]);
    let ext = "py".to_string();
    let first = ingest_entities(&py_module(), &ext, &p);
    let second = ingest_entities(&py_module(), &ext, &p);
    assert_eq!(first, second);
}

#[test]
fn python_block_children_are_reparented() {
    let p = policy(vec![("py", vec!["function_definition", "return_statement", "pass_statement"])]);
    let ext = "py".to_string();
    let nodes = vec![node(
        "function_definition",
        0,
        40,
        "def f():\n    x = 1\n    return x\n",
        vec![
            leaf("identifier", 4, 5, "f"),
            node(
                "block",
                13,
                40,
                "x = 1\n    return x\n",
                vec![
                    leaf("expression_statement", 13, 18, "x = 1"),
                    leaf("return_statement", 23, 31, "return x"),
                ],
            ),
        ],
    )];
    let entities = ingest_entities(&nodes, &ext, &p);
    assert_eq!(entities.len(), 1);
    let f = &entities[0];
    // the block layer is gone: its retained child hangs off the function
    assert_eq!(f.children.len(), 1);
    assert_eq!(f.children[0].entity_type, "return_statement");
    assert_eq!(f.children[0].order, 1);
    fn no_block(e: &CodeEntity) -> bool {
        e.entity_type != "block" && e.children.iter().all(no_block)
    }
    assert!(entities.iter().all(no_block));
}

#[test]
fn block_of_another_language_is_not_flattened() {
    let p = policy(vec![("rs", vec!["fn_item", "block"])]);
    let ext = "rs".to_string();
    let nodes = vec![node(
        "fn_item",
        0,
        20,
        "fn a() { b(); }",
        vec![node("block", 7, 15, "{ b(); }", vec![leaf("call", 9, 13, "b();")])],
    )];
    let entities = ingest_entities(&nodes, &ext, &p);
    assert_eq!(entities[0].children.len(), 1);
    assert_eq!(entities[0].children[0].entity_type, "block");
}

#[test]
fn pruned_node_hides_its_whole_subtree() {
    let p = policy(vec![("rs", vec!["fn_item"])]);
    let ext = "rs".to_string();
    let nodes = vec![node(
        "impl_item",
        0,
        30,
        "impl T { fn m() {} }",
        vec![leaf("fn_item", 9, 18, "fn m() {}")],
    )];
    let entities = ingest_entities(&nodes, &ext, &p);
    assert!(entities.is_empty());
}

#[test]
fn sentinel_all_retains_every_kind() {
    let p = policy(vec![("txt", vec!["ALL"])]);
    let ext = "txt".to_string();
    let nodes = vec![leaf("anything", 0, 3, "abc"), leaf("whatever", 3, 6, "def")];
    let entities = ingest_entities(&nodes, &ext, &p);
    assert_eq!(entities.len(), 2);
    assert_eq!(entities[0].order, 1);
    assert_eq!(entities[1].order, 2);
}

#[test]
fn extension_absent_from_policy_retains_nothing() {
    let p = policy(vec![("py", vec!["ALL"])]);
    let ext = "md".to_string();
    let nodes = vec![leaf("section", 0, 3, "abc")];
    let entities = ingest_entities(&nodes, &ext, &p);
    assert!(entities.is_empty());
}

#[test]
fn cpp_aliases_normalize_to_one_policy_key() {
    let p = policy(vec![("cpp", vec!["function_definition"])]);
    for ext in ["cc", "cxx", "cpp"] {
        let e = ext.to_string();
        let nodes = vec![leaf("function_definition", 0, 5, "int f")];
        let entities = ingest_entities(&nodes, &e, &p);
        assert_eq!(entities.len(), 1, "extension {ext}");
    }
    let p_c = policy(vec![("c", vec!["declaration"])]);
    let h = "h".to_string();
    let entities = ingest_entities(&vec![leaf("declaration", 0, 5, "int x")], &h, &p_c);
    assert_eq!(entities.len(), 1);
}

#[test]
fn unsupported_extension_has_no_parser() {
    assert_eq!(get_language(&"txt".to_string()), None);
    assert_eq!(get_language(&"md".to_string()), None);
    assert!(get_language(&"py".to_string()).is_some());
    assert!(get_language(&"rs".to_string()).is_some());
    assert!(get_language(&"h".to_string()).is_some());
    assert!(get_language(&"tsx".to_string()).is_some());
}
