//! The per-source-file root of the tree: a path, an id, the exported-symbol
//! index, and the same classified, located, open-bagged shape as any node.

use crate::dec::all_digits;
use crate::dec::dec_of;
use crate::dec::dec_val;
use crate::dec::parse_dec_range;
use crate::dec::push_dec;
use crate::error::AstError;
use crate::error::AstErrorV;
use crate::json::copy_entries;
use crate::json::entries_get;
use crate::json::json_view;
use crate::json::json_view_entries;
use crate::json::json_view_seq;
use crate::json::lemma_json_view_entries;
use crate::json::lemma_json_view_entries_concat;
use crate::json::lemma_json_view_seq;
use crate::json::obj_get;
use crate::json::Json;
use crate::json::JsonV;
use crate::location::fmt_loc;
use crate::location::parse_loc;
use crate::location::SourceLocation;
use crate::node::get_id;
use crate::node::get_str;
use crate::node::lemma_node_view_seq;
use crate::node::lemma_spec_list_to_json;
use crate::node::node_view_seq;
use crate::node::spec_list_to_json;
use crate::node::spec_parse_nodes_field;
use crate::node::Node;
use crate::node::NodeV;
use crate::node_type::spec_name;
use crate::node_type::NodeType;
use vstd::prelude::*;
use vstd::string::StrSliceExecFns;
use vstd::string::StringExecFns;

verus! {

broadcast use
    vstd::std_specs::vec::group_vec_axioms,
    vstd::seq::axiom_seq_index_decreases,
    vstd::seq::axiom_seq_subrange_decreases;

/// The root of one source file's tree.
#[derive(Debug, PartialEq, Eq)]
pub struct Ast {
    /// The canonical path of the source file.
    pub absolute_path: String,
    /// The compiler-assigned identifier of the root.
    pub id: usize,
    /// Exported symbol name to the ids of its defining nodes, in declaration
    /// order; empty when the input carries none.
    pub exported_symbols: Vec<(String, Vec<usize>)>,
    /// The root's kind.
    pub node_type: NodeType,
    /// Where the root stands in its file.
    pub src: SourceLocation,
    /// The child nodes.
    pub nodes: Vec<Node>,
    /// Every attribute not captured by the typed fields, in input order.
    pub other: Vec<(String, Json)>,
}

/// The mathematical shape of an `Ast`.
pub struct AstV {
    pub absolute_path: Seq<char>,
    pub id: nat,
    pub exported_symbols: Seq<(Seq<char>, Seq<usize>)>,
    pub node_type: Seq<char>,
    pub src: SourceLocation,
    pub nodes: Seq<NodeV>,
    pub other: Seq<(Seq<char>, JsonV)>,
}

/// The shape of the exported-symbol table.
pub open spec fn sym_view_seq(s: Seq<(String, Vec<usize>)>) -> Seq<(Seq<char>, Seq<usize>)> {
    Seq::new(s.len(), |i: int| (s[i].0@, s[i].1@))
}

impl View for Ast {
    type V = AstV;

    open spec fn view(&self) -> AstV {
        AstV {
            absolute_path: self.absolute_path@,
            id: self.id as nat,
            exported_symbols: sym_view_seq(self.exported_symbols@),
            node_type: spec_name(self.node_type),
            src: self.src,
            nodes: node_view_seq(self.nodes@),
            other: json_view_entries(self.other@),
        }
    }
}

/// The keys the root captures in typed fields.
pub open spec fn ast_reserved(k: Seq<char>) -> bool {
    k == "absolutePath"@ || k == "id"@ || k == "exportedSymbols"@ || k == "nodeType"@ || k == "src"@
        || k == "nodes"@
}

/// The entries of a root object that fall into the open bag, in order.
pub open spec fn spec_ast_others(entries: Seq<(Seq<char>, JsonV)>) -> Seq<(Seq<char>, JsonV)>
    decreases entries.len(),
{
    if entries.len() == 0 {
        Seq::empty()
    } else if ast_reserved(entries.first().0) {
        spec_ast_others(entries.drop_first())
    } else {
        seq![entries.first()] + spec_ast_others(entries.drop_first())
    }
}

/// What one exported-symbol id list means: every element an unsigned integer
/// that fits the machine.
pub open spec fn spec_id_list(items: Seq<JsonV>) -> Option<Seq<usize>>
    decreases items,
{
    if items.len() == 0 {
        Some(Seq::empty())
    } else {
        match items.first() {
            JsonV::Num(t) => if t.len() > 0 && all_digits(t) && dec_val(t) <= usize::MAX as nat {
                match spec_id_list(items.drop_first()) {
                    Some(rest) => Some(seq![dec_val(t) as usize] + rest),
                    None => None,
                }
            } else {
                None
            },
            _ => None,
        }
    }
}

/// What the exported-symbol table means: each name mapped to an id list.
pub open spec fn spec_symbols(se: Seq<(Seq<char>, JsonV)>) -> Option<
    Seq<(Seq<char>, Seq<usize>)>,
>
    decreases se,
{
    if se.len() == 0 {
        Some(Seq::empty())
    } else {
        match se.first().1 {
            JsonV::Arr(items) => match spec_id_list(items) {
                Some(ids) => match spec_symbols(se.drop_first()) {
                    Some(rest) => Some(seq![(se.first().0, ids)] + rest),
                    None => None,
                },
                None => None,
            },
            _ => None,
        }
    }
}

/// What parsing the `exportedSymbols` entry means: absent is an empty table,
/// an object of id lists parses entry by entry, and anything else is a
/// missing required shape.
pub open spec fn spec_symbols_field(entries: Seq<(Seq<char>, JsonV)>, id: usize) -> Result<
    Seq<(Seq<char>, Seq<usize>)>,
    AstErrorV,
> {
    match entries_get(entries, "exportedSymbols"@) {
        None => Ok(Seq::empty()),
        Some(JsonV::Obj(se)) => match spec_symbols(se) {
            Some(s) => Ok(s),
            None => Err(AstErrorV::MissingRequiredField("exportedSymbols"@, Some(id))),
        },
        Some(_) => Err(AstErrorV::MissingRequiredField("exportedSymbols"@, Some(id))),
    }
}

/// What parsing a root object means. `absolutePath` and `id` are required;
/// `exportedSymbols` defaults to empty; the rest follows a node's rules,
/// except that a root has no body.
pub open spec fn spec_parse_ast(j: JsonV) -> Result<AstV, AstErrorV> {
    match j {
        JsonV::Obj(entries) => match get_str(entries, "absolutePath"@) {
            None => Err(AstErrorV::MissingRequiredField("absolutePath"@, None)),
            Some(path) => match get_id(entries) {
                None => Err(AstErrorV::MissingRequiredField("id"@, None)),
                Some(id) => match spec_symbols_field(entries, id) {
                    Err(e) => Err(e),
                    Ok(symbols) => match get_str(entries, "nodeType"@) {
                        None => Err(AstErrorV::MissingRequiredField("nodeType"@, Some(id))),
                        Some(name) => match get_str(entries, "src"@) {
                            None => Err(AstErrorV::MissingRequiredField("src"@, Some(id))),
                            Some(srctext) => match parse_loc(srctext) {
                                None => Err(AstErrorV::MalformedLocation(srctext)),
                                Some(src) => match spec_parse_nodes_field(entries, id) {
                                    Err(e) => Err(e),
                                    Ok(children) => Ok(
                                        AstV {
                                            absolute_path: path,
                                            id: id as nat,
                                            exported_symbols: symbols,
                                            node_type: name,
                                            src,
                                            nodes: children,
                                            other: spec_ast_others(entries),
                                        },
                                    ),
                                },
                            },
                        },
                    },
                },
            },
        },
        _ => Err(AstErrorV::MissingRequiredField("absolutePath"@, None)),
    }
}

/// What writing the exported-symbol table back means.
pub open spec fn spec_symbols_to_json(s: Seq<(Seq<char>, Seq<usize>)>) -> Seq<
    (Seq<char>, JsonV),
> {
    Seq::new(s.len(), |i: int| (s[i].0, JsonV::Arr(spec_ids_to_json(s[i].1))))
}

/// What writing one id list back means.
pub open spec fn spec_ids_to_json(ids: Seq<usize>) -> Seq<JsonV> {
    Seq::new(ids.len(), |i: int| JsonV::Num(dec_of(ids[i] as nat)))
}

/// What writing the root back means: the typed entries, the children when
/// there are any, then the open bag, verbatim and in order. The symbol table
/// is always written, empty or not.
pub open spec fn spec_ast_to_json(a: AstV) -> JsonV {
    JsonV::Obj(
        seq![
            ("absolutePath"@, JsonV::Str(a.absolute_path)),
            ("id"@, JsonV::Num(dec_of(a.id))),
            ("exportedSymbols"@, JsonV::Obj(spec_symbols_to_json(a.exported_symbols))),
            ("nodeType"@, JsonV::Str(a.node_type)),
            ("src"@, JsonV::Str(fmt_loc(a.src))),
        ] + (if a.nodes.len() == 0 {
            Seq::empty()
        } else {
            seq![("nodes"@, JsonV::Arr(spec_list_to_json(a.nodes)))]
        }) + a.other,
    )
}

/// A root without `absolutePath` fails the whole parse with exactly that
/// field's error.
pub proof fn lemma_missing_absolute_path(j: JsonV)
    requires
        j is Obj,
        get_str(j->Obj_0, "absolutePath"@) is None,
    ensures
        spec_parse_ast(j) == Err::<AstV, AstErrorV>(
            AstErrorV::MissingRequiredField("absolutePath"@, None),
        ),
{
}

/// A root without `exportedSymbols` parses, when the rest of it does, to an
/// empty table rather than to an error.
pub proof fn lemma_absent_symbols_empty(j: JsonV)
    requires
        spec_parse_ast(j) is Ok,
        j is Obj,
        entries_get(j->Obj_0, "exportedSymbols"@) is None,
    ensures
        spec_parse_ast(j)->Ok_0.exported_symbols == Seq::<(Seq<char>, Seq<usize>)>::empty(),
{
}

/// Parse one id list of the exported-symbol table.
#[verifier::loop_isolation(false)]
fn parse_id_list(items: &Vec<Json>) -> (r: Option<Vec<usize>>)
    ensures
        match r {
            Some(v) => spec_id_list(json_view_seq(items@)) == Some(v@),
            None => spec_id_list(json_view_seq(items@)) is None,
        },
{
    let ghost jvs = json_view_seq(items@);
    proof {
        lemma_json_view_seq(items@);
        assert(jvs.skip(0) =~= jvs);
    }
    let n = items.len();
    let mut out: Vec<usize> = Vec::new();
    let mut k: usize = 0;
    proof {
        if spec_id_list(jvs) is Some {
            assert(Seq::<usize>::empty() + spec_id_list(jvs)->Some_0 =~= spec_id_list(jvs)->Some_0);
        }
    }
    while k < n
        invariant
            k <= n,
            out@.len() == k,
            spec_id_list(jvs) == (match spec_id_list(jvs.skip(k as int)) {
                Some(rest) => Some(out@ + rest),
                None => None::<Seq<usize>>,
            }),
        decreases n - k,
    {
        proof {
            assert(jvs.skip(k as int).first() == jvs[k as int]);
            assert(jvs.skip(k as int).drop_first() =~= jvs.skip(k as int + 1));
        }
        match &items[k] {
            Json::Num(t) => {
                let ts = t.as_str();
                match parse_dec_range(ts, 0, ts.unicode_len()) {
                    Some(val) => {
                        proof {
                            assert(ts@.subrange(0, ts@.len() as int) =~= t@);
                            let ghost os = out@;
                            if spec_id_list(jvs.skip(k as int + 1)) is Some {
                                let rest = spec_id_list(jvs.skip(k as int + 1))->Some_0;
                                assert((os + seq![val]) + rest =~= os + (seq![val] + rest));
                            }
                        }
                        out.push(val);
                    },
                    None => {
                        proof {
                            assert(ts@.subrange(0, ts@.len() as int) =~= t@);
                        }
                        return None;
                    },
                }
            },
            _ => {
                return None;
            },
        }
        k = k + 1;
    }
    proof {
        assert(jvs.skip(n as int) =~= Seq::<JsonV>::empty());
        assert(out@ + Seq::<usize>::empty() =~= out@);
    }
    Some(out)
}

/// Parse the exported-symbol table.
#[verifier::loop_isolation(false)]
fn parse_symbols(se: &Vec<(String, Json)>) -> (r: Option<Vec<(String, Vec<usize>)>>)
    ensures
        match r {
            Some(v) => spec_symbols(json_view_entries(se@)) == Some(sym_view_seq(v@)),
            None => spec_symbols(json_view_entries(se@)) is None,
        },
{
    let ghost sev = json_view_entries(se@);
    proof {
        lemma_json_view_entries(se@);
        assert(sev.skip(0) =~= sev);
    }
    let n = se.len();
    let mut out: Vec<(String, Vec<usize>)> = Vec::new();
    let mut k: usize = 0;
    proof {
        assert(sym_view_seq(out@) =~= Seq::<(Seq<char>, Seq<usize>)>::empty());
        if spec_symbols(sev) is Some {
            assert(sym_view_seq(out@) + spec_symbols(sev)->Some_0 =~= spec_symbols(sev)->Some_0);
        }
    }
    while k < n
        invariant
            k <= n,
            out@.len() == k,
            spec_symbols(sev) == (match spec_symbols(sev.skip(k as int)) {
                Some(rest) => Some(sym_view_seq(out@) + rest),
                None => None::<Seq<(Seq<char>, Seq<usize>)>>,
            }),
        decreases n - k,
    {
        proof {
            assert(sev.skip(k as int).first() == sev[k as int]);
            assert(sev.skip(k as int).drop_first() =~= sev.skip(k as int + 1));
        }
        let e = &se[k];
        match &e.1 {
            Json::Arr(items) => match parse_id_list(items) {
                Some(ids) => {
                    let c = (e.0.clone(), ids);
                    let ghost gc = c;
                    let ghost os = out@;
                    out.push(c);
                    proof {
                        assert(out@ == os.push(gc));
                        assert forall|m: int|
                            0 <= m < out@.len() implies sym_view_seq(out@)[m] == (sym_view_seq(os)
                            + seq![(gc.0@, gc.1@)])[m] by {
                            if m < os.len() {
                                assert(out@[m] == os[m]);
                            } else {
                                assert(out@[m] == gc);
                            }
                        }
                        assert(sym_view_seq(out@) =~= sym_view_seq(os) + seq![(gc.0@, gc.1@)]);
                        if spec_symbols(sev.skip(k as int + 1)) is Some {
                            let rest = spec_symbols(sev.skip(k as int + 1))->Some_0;
                            assert((sym_view_seq(os) + seq![(gc.0@, gc.1@)]) + rest =~= sym_view_seq(
                                os,
                            ) + (seq![(gc.0@, gc.1@)] + rest));
                        }
                    }
                },
                None => {
                    return None;
                },
            },
            _ => {
                return None;
            },
        }
        k = k + 1;
    }
    proof {
        assert(sev.skip(n as int) =~= Seq::<(Seq<char>, JsonV)>::empty());
        assert(sym_view_seq(out@) + Seq::<(Seq<char>, Seq<usize>)>::empty() =~= sym_view_seq(out@));
    }
    Some(out)
}

impl Ast {
    /// Parse one JSON value as a root; the result is exactly what
    /// `spec_parse_ast` says of the value's shape.
    #[verifier::loop_isolation(false)]
    pub fn from_json(j: &Json) -> (r: Result<Ast, AstError>)
        ensures
            match r {
                Ok(a) => spec_parse_ast(j@) == Ok::<AstV, AstErrorV>(a@) && (a.node_type is Other
                    <==> !crate::node_type::is_known_name(spec_name(a.node_type)))
                    && crate::node::nodes_kinds_wf(a.nodes@),
                Err(e) => spec_parse_ast(j@) == Err::<AstV, AstErrorV>(e@),
            },
    {
        let entries = match j {
            Json::Obj(entries) => entries,
            _ => {
                return Err(AstError::MissingRequiredField(String::from_str("absolutePath"), None));
            },
        };
        let ghost ev = json_view_entries(entries@);
        let k_path = String::from_str("absolutePath");
        let k_id = String::from_str("id");
        let k_es = String::from_str("exportedSymbols");
        let k_nt = String::from_str("nodeType");
        let k_src = String::from_str("src");
        let k_nodes = String::from_str("nodes");
        // absolutePath
        let absolute_path: String = match obj_get(entries, &k_path) {
            Some(v) => match v {
                Json::Str(s) => s.clone(),
                _ => {
                    return Err(AstError::MissingRequiredField(k_path, None));
                },
            },
            None => {
                return Err(AstError::MissingRequiredField(k_path, None));
            },
        };
        // id
        let id: usize = match obj_get(entries, &k_id) {
            Some(v) => match v {
                Json::Num(t) => {
                    let ts = t.as_str();
                    match parse_dec_range(ts, 0, ts.unicode_len()) {
                        Some(val) => {
                            proof {
                                assert(ts@.subrange(0, ts@.len() as int) =~= t@);
                            }
                            val
                        },
                        None => {
                            proof {
                                assert(ts@.subrange(0, ts@.len() as int) =~= t@);
                            }
                            return Err(AstError::MissingRequiredField(k_id, None));
                        },
                    }
                },
                _ => {
                    return Err(AstError::MissingRequiredField(k_id, None));
                },
            },
            None => {
                return Err(AstError::MissingRequiredField(k_id, None));
            },
        };
        // exportedSymbols
        let exported_symbols: Vec<(String, Vec<usize>)> = match obj_get(entries, &k_es) {
            None => Vec::new(),
            Some(v) => match v {
                Json::Obj(se) => match parse_symbols(se) {
                    Some(table) => table,
                    None => {
                        return Err(AstError::MissingRequiredField(k_es, Some(id)));
                    },
                },
                _ => {
                    return Err(AstError::MissingRequiredField(k_es, Some(id)));
                },
            },
        };
        // nodeType
        let node_type: NodeType = match obj_get(entries, &k_nt) {
            Some(v) => match v {
                Json::Str(s) => NodeType::classify(s.as_str()),
                _ => {
                    return Err(AstError::MissingRequiredField(k_nt, Some(id)));
                },
            },
            None => {
                return Err(AstError::MissingRequiredField(k_nt, Some(id)));
            },
        };
        // src
        let src: SourceLocation = match obj_get(entries, &k_src) {
            Some(v) => match v {
                Json::Str(s) => match SourceLocation::from_str(s.as_str()) {
                    Ok(loc) => loc,
                    Err(e) => {
                        return Err(e);
                    },
                },
                _ => {
                    return Err(AstError::MissingRequiredField(k_src, Some(id)));
                },
            },
            None => {
                return Err(AstError::MissingRequiredField(k_src, Some(id)));
            },
        };
        // nodes
        let mut children: Vec<Node> = Vec::new();
        match obj_get(entries, &k_nodes) {
            None => {},
            Some(v) => match v {
                Json::Arr(items) => {
                    let ghost jvs = json_view_seq(items@);
                    let n = items.len();
                    let mut k: usize = 0;
                    proof {
                        lemma_json_view_seq(items@);
                        assert(jvs.skip(0) =~= jvs);
                        assert(node_view_seq(children@) == Seq::<NodeV>::empty());
                        if crate::node::spec_parse_list(jvs) is Ok {
                            assert(Seq::<NodeV>::empty() + crate::node::spec_parse_list(jvs)->Ok_0
                                =~= crate::node::spec_parse_list(jvs)->Ok_0);
                        }
                    }
                    while k < n
                        invariant
                            k <= n,
                            jvs == json_view_seq(items@),
                            forall|m: int| 0 <= m < k ==> (#[trigger] children@[m]).kinds_wf(),
                            children@.len() == k,
                            crate::node::spec_parse_list(jvs) == (match crate::node::spec_parse_list(
                                jvs.skip(k as int),
                            ) {
                                Ok(rest) => Ok::<Seq<NodeV>, AstErrorV>(
                                    node_view_seq(children@) + rest,
                                ),
                                Err(e) => Err::<Seq<NodeV>, AstErrorV>(e),
                            }),
                        decreases n - k,
                    {
                        proof {
                            assert(jvs.skip(k as int).first() == jvs[k as int]);
                            assert(jvs.skip(k as int).drop_first() =~= jvs.skip(k as int + 1));
                        }
                        match Node::from_json(&items[k]) {
                            Ok(c) => {
                                proof {
                                    let ghost cs = children@;
                                    lemma_node_view_seq(cs);
                                    lemma_node_view_seq(cs.push(c));
                                    assert forall|m: int|
                                        0 <= m < cs.push(c).len() implies node_view_seq(
                                        cs.push(c),
                                    )[m] == (node_view_seq(cs) + seq![
                                        crate::node::node_view(c),
                                    ])[m] by {
                                        if m < cs.len() {
                                            assert(cs.push(c)[m] == cs[m]);
                                        } else {
                                            assert(cs.push(c)[m] == c);
                                        }
                                    }
                                    assert(node_view_seq(cs.push(c)) =~= node_view_seq(cs) + seq![
                                        crate::node::node_view(c),
                                    ]);
                                    if crate::node::spec_parse_list(jvs.skip(k as int + 1)) is Ok {
                                        let rest = crate::node::spec_parse_list(
                                            jvs.skip(k as int + 1),
                                        )->Ok_0;
                                        assert((node_view_seq(cs) + seq![
                                            crate::node::node_view(c),
                                        ]) + rest =~= node_view_seq(cs) + (seq![
                                            crate::node::node_view(c),
                                        ] + rest));
                                    }
                                }
                                children.push(c);
                            },
                            Err(e) => {
                                return Err(e);
                            },
                        }
                        k = k + 1;
                    }
                    proof {
                        lemma_json_view_seq(items@);
                        assert(jvs.skip(n as int) =~= Seq::<JsonV>::empty());
                        assert(node_view_seq(children@) + Seq::<NodeV>::empty() =~= node_view_seq(
                            children@,
                        ));
                    }
                },
                _ => {
                    return Err(AstError::MissingRequiredField(k_nodes, Some(id)));
                },
            },
        };
        // the open bag
        let n = entries.len();
        let mut others: Vec<(String, Json)> = Vec::new();
        let mut i: usize = 0;
        proof {
            assert(ev.skip(0) =~= ev);
            assert(json_view_entries(others@) + spec_ast_others(ev) =~= spec_ast_others(ev));
        }
        while i < n
            invariant
                i <= n == entries@.len(),
                ev == json_view_entries(entries@),
                spec_ast_others(ev) == json_view_entries(others@) + spec_ast_others(
                    ev.skip(i as int),
                ),
            decreases n - i,
        {
            proof {
                lemma_json_view_entries(entries@);
                assert(ev.skip(i as int).first() == ev[i as int]);
                assert(ev.skip(i as int).drop_first() =~= ev.skip(i as int + 1));
            }
            let e = &entries[i];
            let reserved = e.0 == k_path || e.0 == k_id || e.0 == k_es || e.0 == k_nt || e.0
                == k_src || e.0 == k_nodes;
            proof {
                assert(ev[i as int].0 == e.0@);
                assert(reserved == ast_reserved(ev[i as int].0));
            }
            if !reserved {
                let c = (e.0.clone(), e.1.deep_copy());
                let ghost cfull = c;
                let ghost os = others@;
                others.push(c);
                proof {
                    lemma_json_view_entries(os);
                    lemma_json_view_entries(others@);
                    let cv = (cfull.0@, json_view(cfull.1));
                    assert(others@ == os.push(cfull));
                    assert forall|m: int|
                        0 <= m < others@.len() implies json_view_entries(others@)[m] == (
                    json_view_entries(os) + seq![cv])[m] by {
                        if m < os.len() {
                            assert(others@[m] == os[m]);
                        } else {
                            assert(others@[m] == cfull);
                        }
                    }
                    assert(json_view_entries(others@) =~= json_view_entries(os) + seq![cv]);
                    assert(cv == ev[i as int]);
                    assert((json_view_entries(os) + seq![cv]) + spec_ast_others(
                        ev.skip(i as int + 1),
                    ) =~= json_view_entries(os) + (seq![ev[i as int]] + spec_ast_others(
                        ev.skip(i as int + 1),
                    )));
                }
            }
            i = i + 1;
        }
        proof {
            lemma_json_view_entries(entries@);
            assert(ev.skip(n as int) =~= Seq::<(Seq<char>, JsonV)>::empty());
            assert(json_view_entries(others@) + Seq::<(Seq<char>, JsonV)>::empty()
                =~= json_view_entries(others@));
        }
        let ast = Ast {
            absolute_path,
            id,
            exported_symbols,
            node_type,
            src,
            nodes: children,
            other: others,
        };
        proof {
            assert(j@ == JsonV::Obj(ev));
            assert(get_str(ev, "absolutePath"@) == Some(ast@.absolute_path));
            assert(get_id(ev) == Some(id));
            if entries_get(ev, "exportedSymbols"@) is None {
                assert(ast@.exported_symbols =~= Seq::<(Seq<char>, Seq<usize>)>::empty());
            }
            assert(spec_symbols_field(ev, id) == Ok::<Seq<(Seq<char>, Seq<usize>)>, AstErrorV>(
                ast@.exported_symbols,
            ));
            assert(get_str(ev, "nodeType"@) == Some(spec_name(node_type)));
            assert(get_str(ev, "src"@) is Some);
            assert(parse_loc(get_str(ev, "src"@)->Some_0) == Some(src));
            assert(spec_parse_nodes_field(ev, id) == Ok::<Seq<NodeV>, AstErrorV>(
                node_view_seq(ast.nodes@),
            ));
            assert(spec_ast_others(ev) == json_view_entries(ast.other@));
            crate::node::lemma_nodes_kinds_wf(ast.nodes@);
            assert(crate::node::nodes_kinds_wf(ast.nodes@));
            assert(spec_parse_ast(j@) == Ok::<AstV, AstErrorV>(ast@));
        }
        Ok(ast)
    }

    /// Write the root back as a JSON value: exactly the shape
    /// `spec_ast_to_json` describes.
    #[verifier::loop_isolation(false)]
    pub fn to_json(&self) -> (r: Json)
        ensures
            r@ == spec_ast_to_json(self@),
    {
        let mut out: Vec<(String, Json)> = Vec::new();
        let mut idtext = String::new();
        push_dec(&mut idtext, self.id);
        let ntname = self.node_type.name();
        let srctext = self.src.format();
        // the symbol table
        let ns = self.exported_symbols.len();
        let mut table: Vec<(String, Json)> = Vec::new();
        let mut k: usize = 0;
        while k < ns
            invariant
                k <= ns,
                table@.len() == k,
                forall|m: int|
                    0 <= m < k ==> (#[trigger] table@[m]).0@ == self.exported_symbols@[m].0@
                        && json_view(table@[m].1) == JsonV::Arr(
                        spec_ids_to_json(self.exported_symbols@[m].1@),
                    ),
            decreases ns - k,
        {
            let e = &self.exported_symbols[k];
            let nid = e.1.len();
            let mut ids: Vec<Json> = Vec::new();
            let mut w: usize = 0;
            while w < nid
                invariant
                    w <= nid,
                    ids@.len() == w,
                    forall|m: int|
                        0 <= m < w ==> json_view(#[trigger] ids@[m]) == JsonV::Num(
                            dec_of(e.1@[m] as nat),
                        ),
                decreases nid - w,
            {
                let mut t = String::new();
                push_dec(&mut t, e.1[w]);
                proof {
                    assert(t@ =~= dec_of(e.1@[w as int] as nat));
                }
                ids.push(Json::Num(t));
                w = w + 1;
            }
            let ghost idsv = ids@;
            let c = (e.0.clone(), Json::Arr(ids));
            let ghost gc = c;
            let ghost ts = table@;
            table.push(c);
            proof {
                lemma_json_view_seq(idsv);
                assert(gc.1->Arr_0@ == idsv);
                assert forall|m: int|
                    0 <= m < e.1@.len() implies json_view_seq(idsv)[m] == spec_ids_to_json(
                    e.1@,
                )[m] by {
                    assert(json_view(idsv[m]) == JsonV::Num(dec_of(e.1@[m] as nat)));
                }
                assert(json_view_seq(idsv) =~= spec_ids_to_json(e.1@));
                assert(table@ == ts.push(gc));
            }
            k = k + 1;
        }
        let eS = (String::from_str("exportedSymbols"), Json::Obj(table));
        let ghost gS = eS;
        let e0 = (String::from_str("absolutePath"), Json::Str(self.absolute_path.clone()));
        let ghost g0 = e0;
        let e1 = (String::from_str("id"), Json::Num(idtext));
        let ghost g1 = e1;
        let e3 = (String::from_str("nodeType"), Json::Str(ntname));
        let ghost g3 = e3;
        let e4 = (String::from_str("src"), Json::Str(srctext));
        let ghost g4 = e4;
        out.push(e0);
        out.push(e1);
        out.push(eS);
        out.push(e3);
        out.push(e4);
        let ghost head = seq![
            ("absolutePath"@, JsonV::Str(self.absolute_path@)),
            ("id"@, JsonV::Num(dec_of(self.id as nat))),
            ("exportedSymbols"@, JsonV::Obj(spec_symbols_to_json(self@.exported_symbols))),
            ("nodeType"@, JsonV::Str(spec_name(self.node_type))),
            ("src"@, JsonV::Str(fmt_loc(self.src))),
        ];
        proof {
            lemma_json_view_entries(out@);
            assert(out@ =~= seq![g0, g1, gS, g3, g4]);
            lemma_json_view_entries(gS.1->Obj_0@);
            assert forall|m: int|
                0 <= m < spec_symbols_to_json(self@.exported_symbols).len() implies
                json_view_entries(gS.1->Obj_0@)[m] == spec_symbols_to_json(
                self@.exported_symbols,
            )[m] by {
                assert((gS.1->Obj_0@)[m].0@ == self.exported_symbols@[m].0@);
                assert(json_view((gS.1->Obj_0@)[m].1) == JsonV::Arr(
                    spec_ids_to_json(self.exported_symbols@[m].1@),
                ));
            }
            assert(json_view_entries(gS.1->Obj_0@) =~= spec_symbols_to_json(
                self@.exported_symbols,
            ));
            assert(json_view(gS.1) == head[2].1);
            assert(json_view_entries(out@) =~= head);
        }
        if self.nodes.len() > 0 {
            let n = self.nodes.len();
            let mut items: Vec<Json> = Vec::new();
            let mut w: usize = 0;
            while w < n
                invariant
                    w <= n,
                    items@.len() == w,
                    forall|m: int|
                        0 <= m < w ==> json_view(#[trigger] items@[m]) == crate::node::spec_node_to_json(
                            crate::node::node_view(self.nodes@[m]),
                        ),
                decreases n - w,
            {
                let c = self.nodes[w].to_json();
                items.push(c);
                w = w + 1;
            }
            let ghost prev = out@;
            let ghost itemsv = items@;
            let en = (String::from_str("nodes"), Json::Arr(items));
            let ghost gn = en;
            out.push(en);
            proof {
                lemma_json_view_seq(itemsv);
                lemma_node_view_seq(self.nodes@);
                lemma_spec_list_to_json(node_view_seq(self.nodes@));
                assert forall|m: int|
                    0 <= m < n implies json_view_seq(itemsv)[m] == spec_list_to_json(
                    node_view_seq(self.nodes@),
                )[m] by {
                    assert(json_view(itemsv[m]) == crate::node::spec_node_to_json(
                        crate::node::node_view(self.nodes@[m]),
                    ));
                    assert(node_view_seq(self.nodes@)[m] == crate::node::node_view(
                        self.nodes@[m],
                    ));
                }
                assert(json_view_seq(itemsv) =~= spec_list_to_json(node_view_seq(self.nodes@)));
                lemma_json_view_entries(out@);
                lemma_json_view_entries(prev);
                assert(out@ == prev.push(gn));
                assert(gn.0@ == "nodes"@);
                assert(json_view(gn.1) == JsonV::Arr(spec_list_to_json(self@.nodes)));
                assert forall|m: int|
                    0 <= m < out@.len() implies json_view_entries(out@)[m] == (head + seq![
                    ("nodes"@, JsonV::Arr(spec_list_to_json(self@.nodes))),
                ])[m] by {
                    if m < prev.len() {
                        assert(out@[m] == prev[m]);
                    } else {
                        assert(out@[m] == gn);
                    }
                }
                assert(json_view_entries(out@) =~= head + seq![
                    ("nodes"@, JsonV::Arr(spec_list_to_json(self@.nodes))),
                ]);
            }
        } else {
            proof {
                assert(node_view_seq(self.nodes@) == Seq::<NodeV>::empty());
                assert(head + Seq::<(Seq<char>, JsonV)>::empty() =~= head);
            }
        }
        let ghost head2 = json_view_entries(out@);
        let mut bag = copy_entries(&self.other);
        let ghost outpre = out@;
        let ghost bagpre = bag@;
        out.append(&mut bag);
        proof {
            assert(out@ == outpre + bagpre);
            lemma_json_view_entries_concat(outpre, bagpre);
            assert(json_view_entries(out@) == head2 + self@.other);
            assert(json_view_entries(out@) =~= head + (if self@.nodes.len() == 0 {
                Seq::<(Seq<char>, JsonV)>::empty()
            } else {
                seq![("nodes"@, JsonV::Arr(spec_list_to_json(self@.nodes)))]
            }) + self@.other);
        }
        Json::Obj(out)
    }
}

} // verus!
