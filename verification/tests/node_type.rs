use solc_ast::NodeType;

#[test]
fn classifies_known_names() {
    assert_eq!(NodeType::classify("Assignment"), NodeType::Assignment);
    assert_eq!(NodeType::classify("Block"), NodeType::Block);
    assert_eq!(NodeType::classify("YulSwitch"), NodeType::YulSwitch);
    assert_eq!(NodeType::classify("SourceUnit"), NodeType::SourceUnit);
    assert_eq!(NodeType::classify("ContractDefinition"), NodeType::ContractDefinition);
    assert_eq!(
        NodeType::classify("UserDefinedValueTypeDefinition"),
        NodeType::UserDefinedValueTypeDefinition
    );
}

#[test]
fn unknown_name_falls_back_verbatim() {
    let r = NodeType::classify("MadeUpFutureKind");
    assert_eq!(r, NodeType::Other("MadeUpFutureKind".to_string()));
    assert_eq!(r.name(), "MadeUpFutureKind");
}

#[test]
fn matching_is_byte_exact() {
    assert_eq!(NodeType::classify("assignment"), NodeType::Other("assignment".to_string()));
    assert_eq!(NodeType::classify(" Assignment"), NodeType::Other(" Assignment".to_string()));
    assert_eq!(NodeType::classify(""), NodeType::Other("".to_string()));
}

#[test]
fn name_round_trips_for_every_input() {
    for s in ["Assignment", "Return", "YulLeave", "weird-kind", "", "Blocked"] {
        assert_eq!(NodeType::classify(s).name(), s);
    }
}
