use solc_ast::Ast;
use solc_ast::AstError;
use solc_ast::Json;
use solc_ast::Node;
use solc_ast::NodeType;

fn num(s: &str) -> Json {
    Json::Num(s.to_string())
}

fn string(s: &str) -> Json {
    Json::Str(s.to_string())
}

fn obj(entries: Vec<(&str, Json)>) -> Json {
    Json::Obj(entries.into_iter().map(|(k, v)| (k.to_string(), v)).collect())
}

fn minimal_node(id: &str, kind: &str, src: &str) -> Json {
    obj(vec![("id", num(id)), ("nodeType", string(kind)), ("src", string(src))])
}

#[test]
fn parses_minimal_node() {
    let n = Node::from_json(&minimal_node("1", "Block", "0:5:0")).unwrap();
    assert_eq!(n.id, 1);
    assert_eq!(n.node_type, NodeType::Block);
    assert_eq!(n.src.start, 0);
    assert_eq!(n.src.length, Some(5));
    assert_eq!(n.src.index, Some(0));
    assert!(n.nodes.is_empty());
    assert!(n.body.is_none());
    assert!(n.other.is_empty());
}

#[test]
fn unknown_kind_parses_into_fallback() {
    let j = obj(vec![("id", num("1")), ("nodeType", string("MadeUpFutureKind")), (
        "src",
        string("0:1:0"),
    )]);
    let n = Node::from_json(&j).unwrap();
    assert_eq!(n.node_type, NodeType::Other("MadeUpFutureKind".to_string()));
    // and it re-serializes to the identical original string
    match n.to_json() {
        Json::Obj(entries) => {
            let found = entries.iter().find(|e| e.0 == "nodeType").unwrap();
            assert_eq!(found.1, string("MadeUpFutureKind"));
        },
        other => panic!("expected an object, got {:?}", other),
    }
}

#[test]
fn missing_required_fields_fail() {
    let no_id = obj(vec![("nodeType", string("Block")), ("src", string("0:1:0"))]);
    assert_eq!(
        Node::from_json(&no_id),
        Err(AstError::MissingRequiredField("id".to_string(), None))
    );
    let no_kind = obj(vec![("id", num("7")), ("src", string("0:1:0"))]);
    assert_eq!(
        Node::from_json(&no_kind),
        Err(AstError::MissingRequiredField("nodeType".to_string(), Some(7)))
    );
    let no_src = obj(vec![("id", num("7")), ("nodeType", string("Block"))]);
    assert_eq!(
        Node::from_json(&no_src),
        Err(AstError::MissingRequiredField("src".to_string(), Some(7)))
    );
}

#[test]
fn wrongly_shaped_required_fields_fail() {
    let bad_id = obj(vec![("id", string("1")), ("nodeType", string("Block")), (
        "src",
        string("0:1:0"),
    )]);
    assert!(Node::from_json(&bad_id).is_err());
    let negative_id = minimal_node("-1", "Block", "0:1:0");
    assert!(Node::from_json(&negative_id).is_err());
    let bad_src = minimal_node("1", "Block", "nowhere");
    assert_eq!(
        Node::from_json(&bad_src),
        Err(AstError::MalformedLocation("nowhere".to_string()))
    );
}

#[test]
fn missing_field_deep_in_tree_fails_whole_parse() {
    let bad_child = obj(vec![("id", num("3")), ("nodeType", string("Return"))]);
    let j = obj(vec![
        ("id", num("1")),
        ("nodeType", string("Block")),
        ("src", string("0:5:0")),
        ("nodes", Json::Arr(vec![minimal_node("2", "Break", "0:1:0"), bad_child])),
    ]);
    assert_eq!(
        Node::from_json(&j),
        Err(AstError::MissingRequiredField("src".to_string(), Some(3)))
    );
}

#[test]
fn children_and_body_parse_recursively() {
    let j = obj(vec![
        ("id", num("1")),
        ("nodeType", string("ForStatement")),
        ("src", string("0:50:0")),
        ("nodes", Json::Arr(vec![minimal_node("2", "Break", "1:1:0")])),
        ("body", minimal_node("3", "Block", "2:10:0")),
    ]);
    let n = Node::from_json(&j).unwrap();
    assert_eq!(n.nodes.len(), 1);
    assert_eq!(n.nodes[0].id, 2);
    let body = n.body.as_ref().unwrap();
    assert_eq!(body.id, 3);
    assert_eq!(body.node_type, NodeType::Block);
}

#[test]
fn null_body_means_no_body() {
    let j = obj(vec![
        ("id", num("1")),
        ("nodeType", string("Block")),
        ("src", string("0:5:0")),
        ("body", Json::Null),
    ]);
    let n = Node::from_json(&j).unwrap();
    assert!(n.body.is_none());
}

#[test]
fn unmodeled_attributes_survive_the_round_trip() {
    let j = obj(vec![
        ("id", num("1")),
        ("mutability", string("payable")),
        ("nodeType", string("VariableDeclaration")),
        ("src", string("0:5:0")),
        ("typeDescriptions", obj(vec![("typeString", string("uint256"))])),
        ("flag", Json::Bool(true)),
    ]);
    let n = Node::from_json(&j).unwrap();
    assert_eq!(n.other.len(), 3);
    let out = n.to_json();
    match out {
        Json::Obj(entries) => {
            for key in ["mutability", "typeDescriptions", "flag"] {
                let original = match &j {
                    Json::Obj(src_entries) => {
                        &src_entries.iter().find(|e| e.0 == key).unwrap().1
                    },
                    _ => unreachable!(),
                };
                let written = &entries.iter().find(|e| e.0 == key).unwrap().1;
                assert_eq!(*written, *original);
            }
        },
        other => panic!("expected an object, got {:?}", other),
    }
}

#[test]
fn attribute_reads_the_open_bag() {
    let j = obj(vec![
        ("id", num("1")),
        ("name", string("total")),
        ("nodeType", string("VariableDeclaration")),
        ("src", string("0:5:0")),
    ]);
    let n = Node::from_json(&j).unwrap();
    assert_eq!(n.attribute("name"), Some(string("total")));
    assert_eq!(n.attribute("missing"), None);
    // a shape mismatch is the caller's to notice; the lookup itself succeeds
    match n.attribute("name") {
        Some(Json::Num(_)) => panic!("a string is not a number"),
        Some(Json::Str(s)) => assert_eq!(s, "total"),
        other => panic!("expected the stored string, got {:?}", other),
    }
}

fn minimal_ast_entries() -> Vec<(&'static str, Json)> {
    vec![
        ("absolutePath", string("contracts/A.sol")),
        ("id", num("100")),
        ("nodeType", string("SourceUnit")),
        ("src", string("0:500:0")),
    ]
}

#[test]
fn parses_minimal_ast() {
    let a = Ast::from_json(&obj(minimal_ast_entries())).unwrap();
    assert_eq!(a.absolute_path, "contracts/A.sol");
    assert_eq!(a.id, 100);
    assert_eq!(a.node_type, NodeType::SourceUnit);
    assert!(a.exported_symbols.is_empty());
    assert!(a.nodes.is_empty());
}

#[test]
fn missing_absolute_path_fails() {
    let j = obj(vec![("id", num("100")), ("nodeType", string("SourceUnit")), (
        "src",
        string("0:500:0"),
    )]);
    assert_eq!(
        Ast::from_json(&j),
        Err(AstError::MissingRequiredField("absolutePath".to_string(), None))
    );
}

#[test]
fn absent_exported_symbols_is_an_empty_table() {
    let a = Ast::from_json(&obj(minimal_ast_entries())).unwrap();
    assert!(a.exported_symbols.is_empty());
}

#[test]
fn exported_symbols_parse_in_order() {
    let mut entries = minimal_ast_entries();
    entries.insert(
        2,
        ("exportedSymbols", obj(vec![("A", Json::Arr(vec![num("5"), num("7")])), (
            "B",
            Json::Arr(vec![num("9")]),
        )])),
    );
    let a = Ast::from_json(&obj(entries)).unwrap();
    assert_eq!(a.exported_symbols.len(), 2);
    assert_eq!(a.exported_symbols[0], ("A".to_string(), vec![5, 7]));
    assert_eq!(a.exported_symbols[1], ("B".to_string(), vec![9]));
}

#[test]
fn ill_shaped_exported_symbols_fail() {
    let mut entries = minimal_ast_entries();
    entries.insert(2, ("exportedSymbols", obj(vec![("A", string("5"))])));
    assert_eq!(
        Ast::from_json(&obj(entries)),
        Err(AstError::MissingRequiredField("exportedSymbols".to_string(), Some(100)))
    );
}

#[test]
fn ast_round_trips_with_children_and_extras() {
    let j = obj(vec![
        ("absolutePath", string("contracts/A.sol")),
        ("exportedSymbols", obj(vec![("A", Json::Arr(vec![num("1")]))])),
        ("id", num("100")),
        ("license", string("MIT")),
        ("nodeType", string("SourceUnit")),
        ("nodes", Json::Arr(vec![minimal_node("1", "ContractDefinition", "0:40:0")])),
        ("src", string("0:500:0")),
    ]);
    let a = Ast::from_json(&j).unwrap();
    assert_eq!(a.nodes.len(), 1);
    let out = a.to_json();
    match out {
        Json::Obj(entries) => {
            let license = &entries.iter().find(|e| e.0 == "license").unwrap().1;
            assert_eq!(*license, string("MIT"));
            let id = &entries.iter().find(|e| e.0 == "id").unwrap().1;
            assert_eq!(*id, num("100"));
            let src = &entries.iter().find(|e| e.0 == "src").unwrap().1;
            assert_eq!(*src, string("0:500:0"));
            let symbols = &entries.iter().find(|e| e.0 == "exportedSymbols").unwrap().1;
            assert_eq!(
                *symbols,
                obj(vec![("A", Json::Arr(vec![num("1")]))])
            );
        },
        other => panic!("expected an object, got {:?}", other),
    }
}

#[test]
fn can_parse_ast() {
    // a whole compiler document: nested nodes, a symbol table, and fields
    // the typed model does not know
    let contract = obj(vec![
        ("abstract", Json::Bool(false)),
        ("id", num("2")),
        ("name", string("Vault")),
        ("nodeType", string("ContractDefinition")),
        ("nodes", Json::Arr(vec![
            obj(vec![
                ("body", minimal_node("4", "Block", "120:40:0")),
                ("id", num("3")),
                ("nodeType", string("FunctionDefinition")),
                ("src", string("100:60:0")),
            ]),
            minimal_node("5", "EventDefinition", "170:20:0"),
        ])),
        ("src", string("60:200:0")),
    ]);
    let doc = obj(vec![
        ("absolutePath", string("contracts/Vault.sol")),
        ("exportedSymbols", obj(vec![("Vault", Json::Arr(vec![num("2")]))])),
        ("id", num("1")),
        ("license", string("AGPL-3.0")),
        ("nodeType", string("SourceUnit")),
        ("nodes", Json::Arr(vec![minimal_node("6", "PragmaDirective", "0:23:0"), contract])),
        ("src", string("0:260:0")),
    ]);
    let ast = Ast::from_json(&doc).unwrap();
    assert_eq!(ast.absolute_path, "contracts/Vault.sol");
    assert_eq!(ast.nodes.len(), 2);
    assert_eq!(ast.nodes[1].nodes.len(), 2);
    assert!(ast.nodes[1].nodes[0].body.is_some());
    assert_eq!(ast.exported_symbols[0].0, "Vault");
}

#[test]
fn empty_child_list_is_dropped_on_output() {
    let mut entries = minimal_ast_entries();
    entries.push(("nodes", Json::Arr(vec![])));
    let a = Ast::from_json(&obj(entries)).unwrap();
    assert!(a.nodes.is_empty());
    match a.to_json() {
        Json::Obj(out) => assert!(out.iter().find(|e| e.0 == "nodes").is_none()),
        other => panic!("expected an object, got {:?}", other),
    }
}
