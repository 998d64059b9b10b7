//! The open classification of node kinds: a fixed table of known names,
//! matched byte for byte, and a fallback that keeps any unrecognized name
//! verbatim.

use vstd::prelude::*;
use vstd::string::StringExecFns;

verus! {

/// The kind of one node: a known category, or any other name kept as it
/// came.
#[derive(Debug, Clone, PartialEq, Eq)]
pub enum NodeType {
    // Expressions
    Assignment,
    BinaryOperation,
    Conditional,
    ElementaryTypeNameExpression,
    FunctionCall,
    FunctionCallOptions,
    Identifier,
    IndexAccess,
    IndexRangeAccess,
    Literal,
    MemberAccess,
    NewExpression,
    TupleExpression,
    UnaryOperation,
    // Statements
    Block,
    Break,
    Continue,
    DoWhileStatement,
    EmitStatement,
    ExpressionStatement,
    ForStatement,
    IfStatement,
    InlineAssembly,
    PlaceholderStatement,
    Return,
    RevertStatement,
    TryStatement,
    UncheckedBlock,
    VariableDeclarationStatement,
    VariableDeclaration,
    WhileStatement,
    // Yul statements
    YulAssignment,
    YulBlock,
    YulBreak,
    YulContinue,
    YulExpressionStatement,
    YulLeave,
    YulForLoop,
    YulFunctionDefinition,
    YulIf,
    YulSwitch,
    YulVariableDeclaration,
    // Yul expressions
    YulFunctionCall,
    YulIdentifier,
    YulLiteral,
    // Yul literals
    YulLiteralValue,
    YulHexValue,
    // Definitions
    ContractDefinition,
    FunctionDefinition,
    EventDefinition,
    ErrorDefinition,
    ModifierDefinition,
    StructDefinition,
    EnumDefinition,
    UserDefinedValueTypeDefinition,
    // Directives
    PragmaDirective,
    ImportDirective,
    UsingForDirective,
    // Structural nodes
    SourceUnit,
    InheritanceSpecifier,
    ElementaryTypeName,
    FunctionTypeName,
    ParameterList,
    TryCatchClause,
    ModifierInvocation,
    /// A node kind outside the known table, kept verbatim.
    Other(String),
}

/// The name a kind is written as: the fixed table name, or the kept string.
pub open spec fn spec_name(nt: NodeType) -> Seq<char> {
    match nt {
        NodeType::Assignment => "Assignment"@,
        NodeType::BinaryOperation => "BinaryOperation"@,
        NodeType::Conditional => "Conditional"@,
        NodeType::ElementaryTypeNameExpression => "ElementaryTypeNameExpression"@,
        NodeType::FunctionCall => "FunctionCall"@,
        NodeType::FunctionCallOptions => "FunctionCallOptions"@,
        NodeType::Identifier => "Identifier"@,
        NodeType::IndexAccess => "IndexAccess"@,
        NodeType::IndexRangeAccess => "IndexRangeAccess"@,
        NodeType::Literal => "Literal"@,
        NodeType::MemberAccess => "MemberAccess"@,
        NodeType::NewExpression => "NewExpression"@,
        NodeType::TupleExpression => "TupleExpression"@,
        NodeType::UnaryOperation => "UnaryOperation"@,
        NodeType::Block => "Block"@,
        NodeType::Break => "Break"@,
        NodeType::Continue => "Continue"@,
        NodeType::DoWhileStatement => "DoWhileStatement"@,
        NodeType::EmitStatement => "EmitStatement"@,
        NodeType::ExpressionStatement => "ExpressionStatement"@,
        NodeType::ForStatement => "ForStatement"@,
        NodeType::IfStatement => "IfStatement"@,
        NodeType::InlineAssembly => "InlineAssembly"@,
        NodeType::PlaceholderStatement => "PlaceholderStatement"@,
        NodeType::Return => "Return"@,
        NodeType::RevertStatement => "RevertStatement"@,
        NodeType::TryStatement => "TryStatement"@,
        NodeType::UncheckedBlock => "UncheckedBlock"@,
        NodeType::VariableDeclarationStatement => "VariableDeclarationStatement"@,
        NodeType::VariableDeclaration => "VariableDeclaration"@,
        NodeType::WhileStatement => "WhileStatement"@,
        NodeType::YulAssignment => "YulAssignment"@,
        NodeType::YulBlock => "YulBlock"@,
        NodeType::YulBreak => "YulBreak"@,
        NodeType::YulContinue => "YulContinue"@,
        NodeType::YulExpressionStatement => "YulExpressionStatement"@,
        NodeType::YulLeave => "YulLeave"@,
        NodeType::YulForLoop => "YulForLoop"@,
        NodeType::YulFunctionDefinition => "YulFunctionDefinition"@,
        NodeType::YulIf => "YulIf"@,
        NodeType::YulSwitch => "YulSwitch"@,
        NodeType::YulVariableDeclaration => "YulVariableDeclaration"@,
        NodeType::YulFunctionCall => "YulFunctionCall"@,
        NodeType::YulIdentifier => "YulIdentifier"@,
        NodeType::YulLiteral => "YulLiteral"@,
        NodeType::YulLiteralValue => "YulLiteralValue"@,
        NodeType::YulHexValue => "YulHexValue"@,
        NodeType::ContractDefinition => "ContractDefinition"@,
        NodeType::FunctionDefinition => "FunctionDefinition"@,
        NodeType::EventDefinition => "EventDefinition"@,
        NodeType::ErrorDefinition => "ErrorDefinition"@,
        NodeType::ModifierDefinition => "ModifierDefinition"@,
        NodeType::StructDefinition => "StructDefinition"@,
        NodeType::EnumDefinition => "EnumDefinition"@,
        NodeType::UserDefinedValueTypeDefinition => "UserDefinedValueTypeDefinition"@,
        NodeType::PragmaDirective => "PragmaDirective"@,
        NodeType::ImportDirective => "ImportDirective"@,
        NodeType::UsingForDirective => "UsingForDirective"@,
        NodeType::SourceUnit => "SourceUnit"@,
        NodeType::InheritanceSpecifier => "InheritanceSpecifier"@,
        NodeType::ElementaryTypeName => "ElementaryTypeName"@,
        NodeType::FunctionTypeName => "FunctionTypeName"@,
        NodeType::ParameterList => "ParameterList"@,
        NodeType::TryCatchClause => "TryCatchClause"@,
        NodeType::ModifierInvocation => "ModifierInvocation"@,
        NodeType::Other(s) => s@,
    }
}

/// Is `s` one of the known kind names?
pub open spec fn is_known_name(s: Seq<char>) -> bool {
    ||| s == "Assignment"@
    ||| s == "BinaryOperation"@
    ||| s == "Conditional"@
    ||| s == "ElementaryTypeNameExpression"@
    ||| s == "FunctionCall"@
    ||| s == "FunctionCallOptions"@
    ||| s == "Identifier"@
    ||| s == "IndexAccess"@
    ||| s == "IndexRangeAccess"@
    ||| s == "Literal"@
    ||| s == "MemberAccess"@
    ||| s == "NewExpression"@
    ||| s == "TupleExpression"@
    ||| s == "UnaryOperation"@
    ||| s == "Block"@
    ||| s == "Break"@
    ||| s == "Continue"@
    ||| s == "DoWhileStatement"@
    ||| s == "EmitStatement"@
    ||| s == "ExpressionStatement"@
    ||| s == "ForStatement"@
    ||| s == "IfStatement"@
    ||| s == "InlineAssembly"@
    ||| s == "PlaceholderStatement"@
    ||| s == "Return"@
    ||| s == "RevertStatement"@
    ||| s == "TryStatement"@
    ||| s == "UncheckedBlock"@
    ||| s == "VariableDeclarationStatement"@
    ||| s == "VariableDeclaration"@
    ||| s == "WhileStatement"@
    ||| s == "YulAssignment"@
    ||| s == "YulBlock"@
    ||| s == "YulBreak"@
    ||| s == "YulContinue"@
    ||| s == "YulExpressionStatement"@
    ||| s == "YulLeave"@
    ||| s == "YulForLoop"@
    ||| s == "YulFunctionDefinition"@
    ||| s == "YulIf"@
    ||| s == "YulSwitch"@
    ||| s == "YulVariableDeclaration"@
    ||| s == "YulFunctionCall"@
    ||| s == "YulIdentifier"@
    ||| s == "YulLiteral"@
    ||| s == "YulLiteralValue"@
    ||| s == "YulHexValue"@
    ||| s == "ContractDefinition"@
    ||| s == "FunctionDefinition"@
    ||| s == "EventDefinition"@
    ||| s == "ErrorDefinition"@
    ||| s == "ModifierDefinition"@
    ||| s == "StructDefinition"@
    ||| s == "EnumDefinition"@
    ||| s == "UserDefinedValueTypeDefinition"@
    ||| s == "PragmaDirective"@
    ||| s == "ImportDirective"@
    ||| s == "UsingForDirective"@
    ||| s == "SourceUnit"@
    ||| s == "InheritanceSpecifier"@
    ||| s == "ElementaryTypeName"@
    ||| s == "FunctionTypeName"@
    ||| s == "ParameterList"@
    ||| s == "TryCatchClause"@
    ||| s == "ModifierInvocation"@
}

impl NodeType {
    /// Classify a name: the matching table entry, or the fallback carrying
    /// the name unchanged. Matching is byte-exact; the written name of the
    /// result is always the input, and the fallback is used exactly for
    /// names outside the table.
    pub fn classify(s: &str) -> (r: NodeType)
        ensures
            spec_name(r) == s@,
            r is Other <==> !is_known_name(s@),
    {
        let t = s.to_owned();
        if t == String::from_str("Assignment") {
            NodeType::Assignment
        } else if t == String::from_str("BinaryOperation") {
            NodeType::BinaryOperation
        } else if t == String::from_str("Conditional") {
            NodeType::Conditional
        } else if t == String::from_str("ElementaryTypeNameExpression") {
            NodeType::ElementaryTypeNameExpression
        } else if t == String::from_str("FunctionCall") {
            NodeType::FunctionCall
        } else if t == String::from_str("FunctionCallOptions") {
            NodeType::FunctionCallOptions
        } else if t == String::from_str("Identifier") {
            NodeType::Identifier
        } else if t == String::from_str("IndexAccess") {
            NodeType::IndexAccess
        } else if t == String::from_str("IndexRangeAccess") {
            NodeType::IndexRangeAccess
        } else if t == String::from_str("Literal") {
            NodeType::Literal
        } else if t == String::from_str("MemberAccess") {
            NodeType::MemberAccess
        } else if t == String::from_str("NewExpression") {
            NodeType::NewExpression
        } else if t == String::from_str("TupleExpression") {
            NodeType::TupleExpression
        } else if t == String::from_str("UnaryOperation") {
            NodeType::UnaryOperation
        } else if t == String::from_str("Block") {
            NodeType::Block
        } else if t == String::from_str("Break") {
            NodeType::Break
        } else if t == String::from_str("Continue") {
            NodeType::Continue
        } else if t == String::from_str("DoWhileStatement") {
            NodeType::DoWhileStatement
        } else if t == String::from_str("EmitStatement") {
            NodeType::EmitStatement
        } else if t == String::from_str("ExpressionStatement") {
            NodeType::ExpressionStatement
        } else if t == String::from_str("ForStatement") {
            NodeType::ForStatement
        } else if t == String::from_str("IfStatement") {
            NodeType::IfStatement
        } else if t == String::from_str("InlineAssembly") {
            NodeType::InlineAssembly
        } else if t == String::from_str("PlaceholderStatement") {
            NodeType::PlaceholderStatement
        } else if t == String::from_str("Return") {
            NodeType::Return
        } else if t == String::from_str("RevertStatement") {
            NodeType::RevertStatement
        } else if t == String::from_str("TryStatement") {
            NodeType::TryStatement
        } else if t == String::from_str("UncheckedBlock") {
            NodeType::UncheckedBlock
        } else if t == String::from_str("VariableDeclarationStatement") {
            NodeType::VariableDeclarationStatement
        } else if t == String::from_str("VariableDeclaration") {
            NodeType::VariableDeclaration
        } else if t == String::from_str("WhileStatement") {
            NodeType::WhileStatement
        } else if t == String::from_str("YulAssignment") {
            NodeType::YulAssignment
        } else if t == String::from_str("YulBlock") {
            NodeType::YulBlock
        } else if t == String::from_str("YulBreak") {
            NodeType::YulBreak
        } else if t == String::from_str("YulContinue") {
            NodeType::YulContinue
        } else if t == String::from_str("YulExpressionStatement") {
            NodeType::YulExpressionStatement
        } else if t == String::from_str("YulLeave") {
            NodeType::YulLeave
        } else if t == String::from_str("YulForLoop") {
            NodeType::YulForLoop
        } else if t == String::from_str("YulFunctionDefinition") {
            NodeType::YulFunctionDefinition
        } else if t == String::from_str("YulIf") {
            NodeType::YulIf
        } else if t == String::from_str("YulSwitch") {
            NodeType::YulSwitch
        } else if t == String::from_str("YulVariableDeclaration") {
            NodeType::YulVariableDeclaration
        } else if t == String::from_str("YulFunctionCall") {
            NodeType::YulFunctionCall
        } else if t == String::from_str("YulIdentifier") {
            NodeType::YulIdentifier
        } else if t == String::from_str("YulLiteral") {
            NodeType::YulLiteral
        } else if t == String::from_str("YulLiteralValue") {
            NodeType::YulLiteralValue
        } else if t == String::from_str("YulHexValue") {
            NodeType::YulHexValue
        } else if t == String::from_str("ContractDefinition") {
            NodeType::ContractDefinition
        } else if t == String::from_str("FunctionDefinition") {
            NodeType::FunctionDefinition
        } else if t == String::from_str("EventDefinition") {
            NodeType::EventDefinition
        } else if t == String::from_str("ErrorDefinition") {
            NodeType::ErrorDefinition
        } else if t == String::from_str("ModifierDefinition") {
            NodeType::ModifierDefinition
        } else if t == String::from_str("StructDefinition") {
            NodeType::StructDefinition
        } else if t == String::from_str("EnumDefinition") {
            NodeType::EnumDefinition
        } else if t == String::from_str("UserDefinedValueTypeDefinition") {
            NodeType::UserDefinedValueTypeDefinition
        } else if t == String::from_str("PragmaDirective") {
            NodeType::PragmaDirective
        } else if t == String::from_str("ImportDirective") {
            NodeType::ImportDirective
        } else if t == String::from_str("UsingForDirective") {
            NodeType::UsingForDirective
        } else if t == String::from_str("SourceUnit") {
            NodeType::SourceUnit
        } else if t == String::from_str("InheritanceSpecifier") {
            NodeType::InheritanceSpecifier
        } else if t == String::from_str("ElementaryTypeName") {
            NodeType::ElementaryTypeName
        } else if t == String::from_str("FunctionTypeName") {
            NodeType::FunctionTypeName
        } else if t == String::from_str("ParameterList") {
            NodeType::ParameterList
        } else if t == String::from_str("TryCatchClause") {
            NodeType::TryCatchClause
        } else if t == String::from_str("ModifierInvocation") {
            NodeType::ModifierInvocation
        } else {
            NodeType::Other(t)
        }
    }

    /// Write the kind back as its name.
    pub fn name(&self) -> (r: String)
        ensures
            r@ == spec_name(*self),
    {
        match self {
            NodeType::Assignment => String::from_str("Assignment"),
            NodeType::BinaryOperation => String::from_str("BinaryOperation"),
            NodeType::Conditional => String::from_str("Conditional"),
            NodeType::ElementaryTypeNameExpression => String::from_str("ElementaryTypeNameExpression"),
            NodeType::FunctionCall => String::from_str("FunctionCall"),
            NodeType::FunctionCallOptions => String::from_str("FunctionCallOptions"),
            NodeType::Identifier => String::from_str("Identifier"),
            NodeType::IndexAccess => String::from_str("IndexAccess"),
            NodeType::IndexRangeAccess => String::from_str("IndexRangeAccess"),
            NodeType::Literal => String::from_str("Literal"),
            NodeType::MemberAccess => String::from_str("MemberAccess"),
            NodeType::NewExpression => String::from_str("NewExpression"),
            NodeType::TupleExpression => String::from_str("TupleExpression"),
            NodeType::UnaryOperation => String::from_str("UnaryOperation"),
            NodeType::Block => String::from_str("Block"),
            NodeType::Break => String::from_str("Break"),
            NodeType::Continue => String::from_str("Continue"),
            NodeType::DoWhileStatement => String::from_str("DoWhileStatement"),
            NodeType::EmitStatement => String::from_str("EmitStatement"),
            NodeType::ExpressionStatement => String::from_str("ExpressionStatement"),
            NodeType::ForStatement => String::from_str("ForStatement"),
            NodeType::IfStatement => String::from_str("IfStatement"),
            NodeType::InlineAssembly => String::from_str("InlineAssembly"),
            NodeType::PlaceholderStatement => String::from_str("PlaceholderStatement"),
            NodeType::Return => String::from_str("Return"),
            NodeType::RevertStatement => String::from_str("RevertStatement"),
            NodeType::TryStatement => String::from_str("TryStatement"),
            NodeType::UncheckedBlock => String::from_str("UncheckedBlock"),
            NodeType::VariableDeclarationStatement => String::from_str("VariableDeclarationStatement"),
            NodeType::VariableDeclaration => String::from_str("VariableDeclaration"),
            NodeType::WhileStatement => String::from_str("WhileStatement"),
            NodeType::YulAssignment => String::from_str("YulAssignment"),
            NodeType::YulBlock => String::from_str("YulBlock"),
            NodeType::YulBreak => String::from_str("YulBreak"),
            NodeType::YulContinue => String::from_str("YulContinue"),
            NodeType::YulExpressionStatement => String::from_str("YulExpressionStatement"),
            NodeType::YulLeave => String::from_str("YulLeave"),
            NodeType::YulForLoop => String::from_str("YulForLoop"),
            NodeType::YulFunctionDefinition => String::from_str("YulFunctionDefinition"),
            NodeType::YulIf => String::from_str("YulIf"),
            NodeType::YulSwitch => String::from_str("YulSwitch"),
            NodeType::YulVariableDeclaration => String::from_str("YulVariableDeclaration"),
            NodeType::YulFunctionCall => String::from_str("YulFunctionCall"),
            NodeType::YulIdentifier => String::from_str("YulIdentifier"),
            NodeType::YulLiteral => String::from_str("YulLiteral"),
            NodeType::YulLiteralValue => String::from_str("YulLiteralValue"),
            NodeType::YulHexValue => String::from_str("YulHexValue"),
            NodeType::ContractDefinition => String::from_str("ContractDefinition"),
            NodeType::FunctionDefinition => String::from_str("FunctionDefinition"),
            NodeType::EventDefinition => String::from_str("EventDefinition"),
            NodeType::ErrorDefinition => String::from_str("ErrorDefinition"),
            NodeType::ModifierDefinition => String::from_str("ModifierDefinition"),
            NodeType::StructDefinition => String::from_str("StructDefinition"),
            NodeType::EnumDefinition => String::from_str("EnumDefinition"),
            NodeType::UserDefinedValueTypeDefinition => String::from_str("UserDefinedValueTypeDefinition"),
            NodeType::PragmaDirective => String::from_str("PragmaDirective"),
            NodeType::ImportDirective => String::from_str("ImportDirective"),
            NodeType::UsingForDirective => String::from_str("UsingForDirective"),
            NodeType::SourceUnit => String::from_str("SourceUnit"),
            NodeType::InheritanceSpecifier => String::from_str("InheritanceSpecifier"),
            NodeType::ElementaryTypeName => String::from_str("ElementaryTypeName"),
            NodeType::FunctionTypeName => String::from_str("FunctionTypeName"),
            NodeType::ParameterList => String::from_str("ParameterList"),
            NodeType::TryCatchClause => String::from_str("TryCatchClause"),
            NodeType::ModifierInvocation => String::from_str("ModifierInvocation"),
            NodeType::Other(s) => s.clone(),
        }
    }
}

} // verus!
