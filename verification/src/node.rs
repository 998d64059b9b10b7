//! One element of the recursive tree: an id, a kind, a location, ordered
//! children, an optional body, and the open bag of every attribute the typed
//! fields do not capture. Parsing takes a JSON value apart; serializing puts
//! the same value back together.

use crate::dec::all_digits;
use crate::dec::dec_of;
use crate::dec::dec_val;
use crate::dec::parse_dec_range;
use crate::dec::push_dec;
use crate::error::AstError;
use crate::error::AstErrorV;
use crate::json::entries_get;
use crate::json::json_view;
use crate::json::json_view_entries;
use crate::json::json_view_seq;
use crate::json::copy_entries;
use crate::json::lemma_entries_get_decreases;
use crate::json::lemma_json_view_entries_concat;
use crate::json::lemma_json_view_entries;
use crate::json::lemma_json_view_seq;
use crate::json::obj_get;
use crate::json::Json;
use crate::json::JsonV;
use crate::location::fmt_loc;
use crate::location::parse_loc;
use crate::location::SourceLocation;
use crate::node_type::spec_name;
use crate::node_type::NodeType;
use vstd::prelude::*;
use vstd::string::StringExecFns;
use vstd::string::StrSliceExecFns;

verus! {

broadcast use
    vstd::std_specs::vec::group_vec_axioms,
    vstd::seq::axiom_seq_index_decreases,
    vstd::seq::axiom_seq_subrange_decreases;

/// One node of the tree.
#[derive(Debug, PartialEq, Eq)]
pub struct Node {
    /// The compiler-assigned identifier.
    pub id: usize,
    /// The node kind.
    pub node_type: NodeType,
    /// Where the node stands in its source file.
    pub src: SourceLocation,
    /// The child nodes; empty when the input carries none.
    pub nodes: Vec<Node>,
    /// The body node, for the kinds that have one.
    pub body: Option<Box<Node>>,
    /// Every attribute not captured by the typed fields, in input order.
    pub other: Vec<(String, Json)>,
}

/// The mathematical shape of a `Node`. The kind is carried as its written
/// name; the body is empty or a single element.
pub struct NodeV {
    pub id: nat,
    pub node_type: Seq<char>,
    pub src: SourceLocation,
    pub nodes: Seq<NodeV>,
    pub body: Seq<NodeV>,
    pub other: Seq<(Seq<char>, JsonV)>,
}

/// The shape of a node.
pub open spec fn node_view(n: Node) -> NodeV
    decreases n,
{
    NodeV {
        id: n.id as nat,
        node_type: spec_name(n.node_type),
        src: n.src,
        nodes: node_view_seq(n.nodes@),
        body: match n.body {
            Some(b) => seq![node_view(*b)],
            None => Seq::empty(),
        },
        other: json_view_entries(n.other@),
    }
}

/// The shapes of a sequence of nodes.
pub open spec fn node_view_seq(ns: Seq<Node>) -> Seq<NodeV>
    decreases ns,
{
    if ns.len() == 0 {
        Seq::empty()
    } else {
        seq![node_view(ns.first())] + node_view_seq(ns.drop_first())
    }
}

impl View for Node {
    type V = NodeV;

    open spec fn view(&self) -> NodeV {
        node_view(*self)
    }
}

impl Node {
    /// The classification invariant: everywhere in the tree, the fallback
    /// kind is used exactly for names outside the known table.
    pub open spec fn kinds_wf(self) -> bool
        decreases self,
    {
        &&& (self.node_type is Other <==> !crate::node_type::is_known_name(
            spec_name(self.node_type),
        ))
        &&& nodes_kinds_wf(self.nodes@)
        &&& (self.body matches Some(b) ==> (*b).kinds_wf())
    }
}

/// `node_view_seq` maps `node_view` over the elements, index by index.
pub proof fn lemma_node_view_seq(ns: Seq<Node>)
    ensures
        node_view_seq(ns).len() == ns.len(),
        forall|i: int|
            0 <= i < ns.len() ==> node_view_seq(ns)[i] == node_view(#[trigger] ns[i]),
    decreases ns.len(),
{
    if ns.len() > 0 {
        lemma_node_view_seq(ns.drop_first());
        assert forall|i: int|
            0 <= i < ns.len() implies node_view_seq(ns)[i] == node_view(#[trigger] ns[i]) by {
            if i > 0 {
                assert(ns.drop_first()[i - 1] == ns[i]);
            }
        }
    }
}

/// The classification invariant of a sequence of nodes.
pub open spec fn nodes_kinds_wf(ns: Seq<Node>) -> bool
    decreases ns,
{
    ns.len() == 0 || (ns.first().kinds_wf() && nodes_kinds_wf(ns.drop_first()))
}

/// `nodes_kinds_wf` holds exactly when it holds of each element.
pub proof fn lemma_nodes_kinds_wf(ns: Seq<Node>)
    ensures
        nodes_kinds_wf(ns) <==> (forall|i: int| 0 <= i < ns.len() ==> (#[trigger] ns[i]).kinds_wf()),
    decreases ns.len(),
{
    if ns.len() > 0 {
        lemma_nodes_kinds_wf(ns.drop_first());
        assert(ns.first() == ns[0]);
        assert forall|i: int| 1 <= i < ns.len() implies ns.drop_first()[i - 1] == #[trigger] ns[i] by {}
        if forall|i: int| 0 <= i < ns.len() ==> (#[trigger] ns[i]).kinds_wf() {
            assert forall|i: int|
                0 <= i < ns.drop_first().len() implies (#[trigger] ns.drop_first()[i]).kinds_wf() by {
                assert(ns.drop_first()[i] == ns[i + 1]);
            }
        }
    }
}

/// The keys a node captures in typed fields; everything else goes to the
/// open bag.
pub open spec fn node_reserved(k: Seq<char>) -> bool {
    k == "id"@ || k == "nodeType"@ || k == "src"@ || k == "nodes"@ || k == "body"@
}

/// The entries of a node object that fall into the open bag, in order.
pub open spec fn spec_others(entries: Seq<(Seq<char>, JsonV)>) -> Seq<(Seq<char>, JsonV)>
    decreases entries.len(),
{
    if entries.len() == 0 {
        Seq::empty()
    } else if node_reserved(entries.first().0) {
        spec_others(entries.drop_first())
    } else {
        seq![entries.first()] + spec_others(entries.drop_first())
    }
}

/// The node id, when the `id` entry is an unsigned integer that fits the
/// machine.
pub open spec fn get_id(entries: Seq<(Seq<char>, JsonV)>) -> Option<usize> {
    match entries_get(entries, "id"@) {
        Some(JsonV::Num(t)) => if t.len() > 0 && all_digits(t) && dec_val(t) <= usize::MAX as nat {
            Some(dec_val(t) as usize)
        } else {
            None
        },
        _ => None,
    }
}

/// The string at key `k`, when the entry is there and is a string.
pub open spec fn get_str(entries: Seq<(Seq<char>, JsonV)>, k: Seq<char>) -> Option<Seq<char>> {
    match entries_get(entries, k) {
        Some(JsonV::Str(s)) => Some(s),
        _ => None,
    }
}

/// What parsing one node means. Required fields go first: a missing or
/// ill-shaped `id`, `nodeType` or `src` fails, a bad location string fails,
/// and any failure below a child propagates up unchanged; everything else
/// lands in the open bag verbatim.
pub open spec fn spec_parse_node(j: JsonV) -> Result<NodeV, AstErrorV>
    decreases j,
{
    match j {
        JsonV::Obj(entries) => match get_id(entries) {
            None => Err(AstErrorV::MissingRequiredField("id"@, None)),
            Some(id) => match get_str(entries, "nodeType"@) {
                None => Err(AstErrorV::MissingRequiredField("nodeType"@, Some(id))),
                Some(name) => match get_str(entries, "src"@) {
                    None => Err(AstErrorV::MissingRequiredField("src"@, Some(id))),
                    Some(srctext) => match parse_loc(srctext) {
                        None => Err(AstErrorV::MalformedLocation(srctext)),
                        Some(src) => match spec_parse_nodes_field(entries, id) {
                            Err(e) => Err(e),
                            Ok(children) => match spec_parse_body_field(entries) {
                                Err(e) => Err(e),
                                Ok(body) => Ok(
                                    NodeV {
                                        id: id as nat,
                                        node_type: name,
                                        src,
                                        nodes: children,
                                        body,
                                        other: spec_others(entries),
                                    },
                                ),
                            },
                        },
                    },
                },
            },
        },
        _ => Err(AstErrorV::MissingRequiredField("id"@, None)),
    }
}

/// What parsing the `nodes` entry means: absent is an empty list, an array
/// parses element by element, and anything else is a missing required shape.
pub open spec fn spec_parse_nodes_field(entries: Seq<(Seq<char>, JsonV)>, id: usize) -> Result<
    Seq<NodeV>,
    AstErrorV,
>
    decreases entries,
    via spec_parse_nodes_field_dec
{
    match entries_get(entries, "nodes"@) {
        None => Ok(Seq::empty()),
        Some(JsonV::Arr(items)) => spec_parse_list(items),
        Some(_) => Err(AstErrorV::MissingRequiredField("nodes"@, Some(id))),
    }
}

#[via_fn]
proof fn spec_parse_nodes_field_dec(entries: Seq<(Seq<char>, JsonV)>, id: usize) {
    if entries_get(entries, "nodes"@) is Some {
        lemma_entries_get_decreases(entries, "nodes"@);
        let v = entries_get(entries, "nodes"@)->Some_0;
        match v {
            JsonV::Arr(items) => {
                assert(decreases_to!(v => items));
            },
            _ => {},
        }
    }
}

/// What parsing the `body` entry means: absent or `null` is no body, and any
/// other value must parse as a node.
pub open spec fn spec_parse_body_field(entries: Seq<(Seq<char>, JsonV)>) -> Result<
    Seq<NodeV>,
    AstErrorV,
>
    decreases entries,
    via spec_parse_body_field_dec
{
    match entries_get(entries, "body"@) {
        None => Ok(Seq::empty()),
        Some(JsonV::Null) => Ok(Seq::empty()),
        Some(v) => match spec_parse_node(v) {
            Ok(b) => Ok(seq![b]),
            Err(e) => Err(e),
        },
    }
}

#[via_fn]
proof fn spec_parse_body_field_dec(entries: Seq<(Seq<char>, JsonV)>) {
    if entries_get(entries, "body"@) is Some {
        lemma_entries_get_decreases(entries, "body"@);
    }
}

/// What parsing a list of child nodes means: each element in order, the
/// first failure aborting the whole list.
pub open spec fn spec_parse_list(items: Seq<JsonV>) -> Result<Seq<NodeV>, AstErrorV>
    decreases items,
{
    if items.len() == 0 {
        Ok(Seq::empty())
    } else {
        match spec_parse_node(items.first()) {
            Err(e) => Err(e),
            Ok(n) => match spec_parse_list(items.drop_first()) {
                Err(e) => Err(e),
                Ok(rest) => Ok(seq![n] + rest),
            },
        }
    }
}

/// What writing one node back means: the three typed entries, the children
/// when there are any, the body when there is one, then the open bag,
/// verbatim and in order.
pub open spec fn spec_node_to_json(n: NodeV) -> JsonV
    decreases n,
{
    JsonV::Obj(
        seq![
            ("id"@, JsonV::Num(dec_of(n.id))),
            ("nodeType"@, JsonV::Str(n.node_type)),
            ("src"@, JsonV::Str(fmt_loc(n.src))),
        ] + (if n.nodes.len() == 0 {
            Seq::empty()
        } else {
            seq![("nodes"@, JsonV::Arr(spec_list_to_json(n.nodes)))]
        }) + (if n.body.len() == 0 {
            Seq::empty()
        } else {
            seq![("body"@, spec_node_to_json(n.body.first()))]
        }) + n.other,
    )
}

/// What writing a list of nodes back means.
pub open spec fn spec_list_to_json(ns: Seq<NodeV>) -> Seq<JsonV>
    decreases ns,
{
    if ns.len() == 0 {
        Seq::empty()
    } else {
        seq![spec_node_to_json(ns.first())] + spec_list_to_json(ns.drop_first())
    }
}

/// `spec_list_to_json` maps `spec_node_to_json` over the elements, index by
/// index.
pub proof fn lemma_spec_list_to_json(ns: Seq<NodeV>)
    ensures
        spec_list_to_json(ns).len() == ns.len(),
        forall|i: int|
            0 <= i < ns.len() ==> spec_list_to_json(ns)[i] == spec_node_to_json(#[trigger] ns[i]),
    decreases ns.len(),
{
    if ns.len() > 0 {
        lemma_spec_list_to_json(ns.drop_first());
        assert forall|i: int|
            0 <= i < ns.len() implies spec_list_to_json(ns)[i] == spec_node_to_json(
            #[trigger] ns[i],
        ) by {
            if i > 0 {
                assert(ns.drop_first()[i - 1] == ns[i]);
            }
        }
    }
}

/// Filtering the reserved keys out does not change what any other key reads:
/// looking an unreserved key up in the open bag reads what the whole object
/// read.
pub proof fn lemma_others_get(entries: Seq<(Seq<char>, JsonV)>, k: Seq<char>)
    requires
        !node_reserved(k),
    ensures
        entries_get(spec_others(entries), k) == entries_get(entries, k),
    decreases entries.len(),
{
    if entries.len() > 0 {
        lemma_others_get(entries.drop_first(), k);
        let first = entries.first();
        if !node_reserved(first.0) {
            let tail = spec_others(entries.drop_first());
            assert((seq![first] + tail).first() == first);
            assert((seq![first] + tail).drop_first() =~= tail);
        }
    }
}

/// Parsing a node and writing it back keeps every unmodeled attribute
/// exactly: any key outside the typed five reads the same value in the
/// output object as in the input object.
pub proof fn lemma_unmodeled_round_trip(j: JsonV, k: Seq<char>)
    requires
        spec_parse_node(j) is Ok,
        !node_reserved(k),
    ensures
        j is Obj,
        spec_node_to_json(spec_parse_node(j)->Ok_0) matches JsonV::Obj(out) && entries_get(
            out,
            k,
        ) == entries_get(j->Obj_0, k),
{
    let n = spec_parse_node(j)->Ok_0;
    let entries = j->Obj_0;
    assert(n.other == spec_others(entries));
    let head = seq![
        ("id"@, JsonV::Num(dec_of(n.id))),
        ("nodeType"@, JsonV::Str(n.node_type)),
        ("src"@, JsonV::Str(fmt_loc(n.src))),
    ];
    let optn = if n.nodes.len() == 0 {
        Seq::<(Seq<char>, JsonV)>::empty()
    } else {
        seq![("nodes"@, JsonV::Arr(spec_list_to_json(n.nodes)))]
    };
    let optb = if n.body.len() == 0 {
        Seq::<(Seq<char>, JsonV)>::empty()
    } else {
        seq![("body"@, spec_node_to_json(n.body.first()))]
    };
    let pre = head + optn + optb;
    assert(spec_node_to_json(n) == JsonV::Obj(pre + n.other));
    assert forall|m: int| 0 <= m < pre.len() implies (#[trigger] pre[m]).0 != k by {
        assert(node_reserved(pre[m].0));
    }
    crate::json::lemma_entries_get_concat(pre, n.other, k);
    lemma_others_get(entries, k);
}

/// Each required field, absent or of the wrong shape, fails the parse with
/// exactly that field's error; required fields are checked in the order
/// `id`, `nodeType`, `src`.
pub proof fn lemma_missing_required_fails(j: JsonV)
    requires
        j is Obj,
    ensures
        get_id(j->Obj_0) is None ==> spec_parse_node(j) == Err::<NodeV, AstErrorV>(
            AstErrorV::MissingRequiredField("id"@, None),
        ),
        (get_id(j->Obj_0) matches Some(id) && get_str(j->Obj_0, "nodeType"@) is None)
            ==> spec_parse_node(j) == Err::<NodeV, AstErrorV>(
            AstErrorV::MissingRequiredField("nodeType"@, Some(get_id(j->Obj_0)->Some_0)),
        ),
        (get_id(j->Obj_0) matches Some(id) && get_str(j->Obj_0, "nodeType"@) is Some && get_str(
            j->Obj_0,
            "src"@,
        ) is None) ==> spec_parse_node(j) == Err::<NodeV, AstErrorV>(
            AstErrorV::MissingRequiredField("src"@, Some(get_id(j->Obj_0)->Some_0)),
        ),
{
}

/// A parsed list of children means each element parses on its own; so one
/// bad node anywhere below fails the whole parse.
pub proof fn lemma_children_parse(items: Seq<JsonV>)
    requires
        spec_parse_list(items) is Ok,
    ensures
        forall|i: int| 0 <= i < items.len() ==> spec_parse_node(#[trigger] items[i]) is Ok,
    decreases items.len(),
{
    if items.len() > 0 {
        lemma_children_parse(items.drop_first());
        assert forall|i: int|
            0 <= i < items.len() implies spec_parse_node(#[trigger] items[i]) is Ok by {
            if i > 0 {
                assert(items.drop_first()[i - 1] == items[i]);
            }
        }
    }
}

impl Node {
    /// Parse one JSON value as a node; the result is exactly what
    /// `spec_parse_node` says of the value's shape.
    #[verifier::loop_isolation(false)]
    pub fn from_json(j: &Json) -> (r: Result<Node, AstError>)
        ensures
            match r {
                Ok(n) => spec_parse_node(j@) == Ok::<NodeV, AstErrorV>(n@) && n.kinds_wf(),
                Err(e) => spec_parse_node(j@) == Err::<NodeV, AstErrorV>(e@),
            },
        decreases *j,
    {
        let entries = match j {
            Json::Obj(entries) => entries,
            _ => {
                return Err(AstError::MissingRequiredField(String::from_str("id"), None));
            },
        };
        proof {
            assert(decreases_to!(*j => *entries));
        }
        let ghost ev = json_view_entries(entries@);
        let k_id = String::from_str("id");
        let k_nt = String::from_str("nodeType");
        let k_src = String::from_str("src");
        let k_nodes = String::from_str("nodes");
        let k_body = String::from_str("body");
        // id
        let id: usize = match obj_get(entries, &k_id) {
            Some(v) => match v {
                Json::Num(t) => {
                    let ts = t.as_str();
                    match parse_dec_range(ts, 0, ts.unicode_len()) {
                        Some(val) => {
                            proof {
                                assert(ts@.subrange(0, ts@.len() as int) =~= t@);
                            }
                            val
                        },
                        None => {
                            proof {
                                assert(ts@.subrange(0, ts@.len() as int) =~= t@);
                            }
                            return Err(AstError::MissingRequiredField(k_id, None));
                        },
                    }
                },
                _ => {
                    return Err(AstError::MissingRequiredField(k_id, None));
                },
            },
            None => {
                return Err(AstError::MissingRequiredField(k_id, None));
            },
        };
        // nodeType
        let node_type: NodeType = match obj_get(entries, &k_nt) {
            Some(v) => match v {
                Json::Str(s) => NodeType::classify(s.as_str()),
                _ => {
                    return Err(AstError::MissingRequiredField(k_nt, Some(id)));
                },
            },
            None => {
                return Err(AstError::MissingRequiredField(k_nt, Some(id)));
            },
        };
        // src
        let src: SourceLocation = match obj_get(entries, &k_src) {
            Some(v) => match v {
                Json::Str(s) => match SourceLocation::from_str(s.as_str()) {
                    Ok(loc) => loc,
                    Err(e) => {
                        return Err(e);
                    },
                },
                _ => {
                    return Err(AstError::MissingRequiredField(k_src, Some(id)));
                },
            },
            None => {
                return Err(AstError::MissingRequiredField(k_src, Some(id)));
            },
        };
        // nodes
        let mut children: Vec<Node> = Vec::new();
        match obj_get(entries, &k_nodes) {
            None => {},
            Some(v) => match v {
                Json::Arr(items) => {
                    proof {
                        let wi = choose|i: int|
                            0 <= i < entries@.len() && *v == (#[trigger] entries@[i]).1;
                        assert(decreases_to!(*entries => entries@[wi]));
                        assert(decreases_to!(entries@[wi] => entries@[wi].1));
                        assert(decreases_to!(*v => *items));
                    }
                    let ghost jvs = json_view_seq(items@);
                    let n = items.len();
                    let mut k: usize = 0;
                    proof {
                        assert(jvs.skip(0) =~= jvs);
                        assert(node_view_seq(children@) == Seq::<NodeV>::empty());
                        if spec_parse_list(jvs) is Ok {
                            assert(Seq::<NodeV>::empty() + spec_parse_list(jvs)->Ok_0
                                =~= spec_parse_list(jvs)->Ok_0);
                        }
                    }
                    while k < n
                        invariant
                            k <= n == items@.len(),
                            jvs == json_view_seq(items@),
                            decreases_to!(*j => *items),
                            forall|m: int| 0 <= m < k ==> (#[trigger] children@[m]).kinds_wf(),
                            children@.len() == k,
                            spec_parse_list(jvs) == (match spec_parse_list(jvs.skip(k as int)) {
                                Ok(rest) => Ok::<Seq<NodeV>, AstErrorV>(
                                    node_view_seq(children@) + rest,
                                ),
                                Err(e) => Err::<Seq<NodeV>, AstErrorV>(e),
                            }),
                        decreases n - k,
                    {
                        proof {
                            lemma_json_view_seq(items@);
                            assert(decreases_to!(*items => items@[k as int]));
                            assert(jvs.skip(k as int).first() == jvs[k as int]);
                            assert(jvs.skip(k as int).drop_first() =~= jvs.skip(k as int + 1));
                        }
                        match Node::from_json(&items[k]) {
                            Ok(c) => {
                                proof {
                                    let ghost cs = children@;
                                    lemma_node_view_seq(cs);
                                    lemma_node_view_seq(cs.push(c));
                                    assert forall|m: int|
                                        0 <= m < cs.push(c).len() implies node_view_seq(
                                        cs.push(c),
                                    )[m] == (node_view_seq(cs) + seq![node_view(c)])[m] by {
                                        if m < cs.len() {
                                            assert(cs.push(c)[m] == cs[m]);
                                        } else {
                                            assert(cs.push(c)[m] == c);
                                        }
                                    }
                                    assert(node_view_seq(cs.push(c)) =~= node_view_seq(cs)
                                        + seq![node_view(c)]);
                                    if spec_parse_list(jvs.skip(k as int + 1)) is Ok {
                                        let rest = spec_parse_list(jvs.skip(k as int + 1))->Ok_0;
                                        assert((node_view_seq(cs) + seq![node_view(c)]) + rest
                                            =~= node_view_seq(cs) + (seq![node_view(c)] + rest));
                                    }
                                }
                                children.push(c);
                            },
                            Err(e) => {
                                return Err(e);
                            },
                        }
                        k = k + 1;
                    }
                    proof {
                        lemma_json_view_seq(items@);
                        assert(jvs.skip(n as int) =~= Seq::<JsonV>::empty());
                        assert(node_view_seq(children@) + Seq::<NodeV>::empty() =~= node_view_seq(
                            children@,
                        ));
                    }
                },
                _ => {
                    return Err(AstError::MissingRequiredField(k_nodes, Some(id)));
                },
            },
        };
        // body
        let body: Option<Box<Node>> = match obj_get(entries, &k_body) {
            None => None,
            Some(v) => match v {
                Json::Null => None,
                _ => {
                    proof {
                        let wi = choose|i: int|
                            0 <= i < entries@.len() && *v == (#[trigger] entries@[i]).1;
                        assert(decreases_to!(*entries => entries@[wi]));
                        assert(decreases_to!(entries@[wi] => entries@[wi].1));
                    }
                    match Node::from_json(v) {
                        Ok(b) => Some(Box::new(b)),
                        Err(e) => {
                            return Err(e);
                        },
                    }
                },
            },
        };
        // the open bag
        let n = entries.len();
        let mut others: Vec<(String, Json)> = Vec::new();
        let mut i: usize = 0;
        proof {
            assert(ev.skip(0) =~= ev);
            assert(json_view_entries(others@) + spec_others(ev) =~= spec_others(ev));
        }
        while i < n
            invariant
                i <= n == entries@.len(),
                ev == json_view_entries(entries@),
                spec_others(ev) == json_view_entries(others@) + spec_others(ev.skip(i as int)),
            decreases n - i,
        {
            proof {
                lemma_json_view_entries(entries@);
                assert(ev.skip(i as int).first() == ev[i as int]);
                assert(ev.skip(i as int).drop_first() =~= ev.skip(i as int + 1));
            }
            let e = &entries[i];
            let reserved = e.0 == k_id || e.0 == k_nt || e.0 == k_src || e.0 == k_nodes || e.0
                == k_body;
            proof {
                assert(ev[i as int].0 == e.0@);
                assert(reserved == node_reserved(ev[i as int].0));
            }
            if !reserved {
                let c = (e.0.clone(), e.1.deep_copy());
                let ghost cfull = c;
                let ghost os = others@;
                others.push(c);
                proof {
                    lemma_json_view_entries(os);
                    lemma_json_view_entries(others@);
                    let cv = (cfull.0@, json_view(cfull.1));
                    assert(others@ == os.push(cfull));
                    assert forall|m: int|
                        0 <= m < others@.len() implies json_view_entries(others@)[m] == (
                    json_view_entries(os) + seq![cv])[m] by {
                        if m < os.len() {
                            assert(others@[m] == os[m]);
                        } else {
                            assert(others@[m] == cfull);
                        }
                    }
                    assert(json_view_entries(others@) =~= json_view_entries(os) + seq![cv]);
                    assert(cv == ev[i as int]);
                    assert((json_view_entries(os) + seq![cv]) + spec_others(ev.skip(i as int + 1))
                        =~= json_view_entries(os) + (seq![ev[i as int]] + spec_others(
                        ev.skip(i as int + 1),
                    )));
                }
            }
            i = i + 1;
        }
        proof {
            lemma_json_view_entries(entries@);
            assert(ev.skip(n as int) =~= Seq::<(Seq<char>, JsonV)>::empty());
            assert(json_view_entries(others@) + Seq::<(Seq<char>, JsonV)>::empty()
                =~= json_view_entries(others@));
        }
        let node = Node { id, node_type, src, nodes: children, body, other: others };
        proof {
            assert(j@ == JsonV::Obj(ev));
            assert(get_id(ev) == Some(id));
            assert(get_str(ev, "nodeType"@) == Some(spec_name(node_type)));
            assert(get_str(ev, "src"@) is Some);
            assert(parse_loc(get_str(ev, "src"@)->Some_0) == Some(src));
            assert(spec_parse_nodes_field(ev, id) == Ok::<Seq<NodeV>, AstErrorV>(
                node_view_seq(children@),
            ));
            assert(spec_parse_body_field(ev) == Ok::<Seq<NodeV>, AstErrorV>(node@.body));
            assert(spec_others(ev) == json_view_entries(others@));
            assert(node@.nodes == node_view_seq(children@));
            lemma_nodes_kinds_wf(node.nodes@);
            assert(node.kinds_wf());
            assert(spec_parse_node(j@) == Ok::<NodeV, AstErrorV>(node@));
        }
        Ok(node)
    }

    /// Write the node back as a JSON value: exactly the shape
    /// `spec_node_to_json` describes.
    #[verifier::loop_isolation(false)]
    pub fn to_json(&self) -> (r: Json)
        ensures
            r@ == spec_node_to_json(self@),
        decreases *self,
    {
        let mut out: Vec<(String, Json)> = Vec::new();
        let mut idtext = String::new();
        push_dec(&mut idtext, self.id);
        let ntname = self.node_type.name();
        let srctext = self.src.format();
        proof {
            assert(ntname@ == spec_name(self.node_type));
            assert(srctext@ == fmt_loc(self.src));
        }
        let e0 = (String::from_str("id"), Json::Num(idtext));
        let ghost g0 = e0;
        out.push(e0);
        let e1 = (String::from_str("nodeType"), Json::Str(ntname));
        let ghost g1 = e1;
        out.push(e1);
        let e2 = (String::from_str("src"), Json::Str(srctext));
        let ghost g2 = e2;
        out.push(e2);
        let ghost head = seq![
            ("id"@, JsonV::Num(dec_of(self.id as nat))),
            ("nodeType"@, JsonV::Str(spec_name(self.node_type))),
            ("src"@, JsonV::Str(fmt_loc(self.src))),
        ];
        proof {
            lemma_json_view_entries(out@);
            assert(idtext@ =~= dec_of(self.id as nat));
            assert(out@ =~= seq![g0, g1, g2]);
            assert(out@[1] == g1 && out@[2] == g2);
            assert(json_view_entries(out@)[0] == head[0]);
            assert(json_view_entries(out@)[1] == head[1]);
            assert(json_view_entries(out@)[2] == head[2]);
            assert(json_view_entries(out@) =~= head);
        }
        if self.nodes.len() > 0 {
            proof {
                assert(decreases_to!(*self => self.nodes));
            }
            let n = self.nodes.len();
            let mut items: Vec<Json> = Vec::new();
            let mut k: usize = 0;
            while k < n
                invariant
                    k <= n,
                    items@.len() == k,
                    forall|m: int|
                        0 <= m < k ==> json_view(#[trigger] items@[m]) == spec_node_to_json(
                            node_view(self.nodes@[m]),
                        ),
                decreases n - k,
            {
                proof {
                    assert(decreases_to!(self.nodes => self.nodes@[k as int]));
                }
                let c = self.nodes[k].to_json();
                items.push(c);
                k = k + 1;
            }
            let ghost prev = out@;
            let ghost itemsv = items@;
            let en = (String::from_str("nodes"), Json::Arr(items));
            let ghost gn = en;
            out.push(en);
            proof {
                lemma_json_view_seq(itemsv);
                lemma_node_view_seq(self.nodes@);
                lemma_spec_list_to_json(node_view_seq(self.nodes@));
                assert forall|m: int|
                    0 <= m < n implies json_view_seq(itemsv)[m] == spec_list_to_json(
                    node_view_seq(self.nodes@),
                )[m] by {
                    assert(json_view(itemsv[m]) == spec_node_to_json(node_view(self.nodes@[m])));
                    assert(node_view_seq(self.nodes@)[m] == node_view(self.nodes@[m]));
                }
                assert(json_view_seq(itemsv) =~= spec_list_to_json(node_view_seq(self.nodes@)));
                lemma_json_view_entries(out@);
                lemma_json_view_entries(prev);
                assert(out@ == prev.push(gn));
                assert(gn.0@ == "nodes"@);
                assert(json_view(gn.1) == JsonV::Arr(json_view_seq(itemsv)));
                assert forall|m: int|
                    0 <= m < out@.len() implies json_view_entries(out@)[m] == (head + seq![
                    ("nodes"@, JsonV::Arr(spec_list_to_json(self@.nodes))),
                ])[m] by {
                    if m < prev.len() {
                        assert(out@[m] == prev[m]);
                    } else {
                        assert(out@[m] == gn);
                    }
                }
                assert(json_view_entries(out@) =~= head + seq![
                    ("nodes"@, JsonV::Arr(spec_list_to_json(self@.nodes))),
                ]);
            }
        } else {
            proof {
                assert(node_view_seq(self.nodes@) == Seq::<NodeV>::empty());
                assert(head + Seq::<(Seq<char>, JsonV)>::empty() =~= head);
            }
        }
        let ghost head2 = json_view_entries(out@);
        match &self.body {
            Some(b) => {
                proof {
                    assert(decreases_to!(*self => self.body));
                }
                let bj = (&**b).to_json();
                let ghost prev = out@;
                let eb = (String::from_str("body"), bj);
                let ghost gb = eb;
                out.push(eb);
                proof {
                    lemma_json_view_entries(out@);
                    lemma_json_view_entries(prev);
                    assert(out@ == prev.push(gb));
                    assert(gb.0@ == "body"@);
                    assert(json_view(gb.1) == spec_node_to_json(self@.body.first()));
                    assert forall|m: int|
                        0 <= m < out@.len() implies json_view_entries(out@)[m] == (head2 + seq![
                        ("body"@, spec_node_to_json(self@.body.first())),
                    ])[m] by {
                        if m < prev.len() {
                            assert(out@[m] == prev[m]);
                        } else {
                            assert(out@[m] == gb);
                        }
                    }
                    assert(json_view_entries(out@) =~= head2 + seq![
                        ("body"@, spec_node_to_json(self@.body.first())),
                    ]);
                }
            },
            None => {
                proof {
                    assert(head2 + Seq::<(Seq<char>, JsonV)>::empty() =~= head2);
                }
            },
        }
        let ghost head3 = json_view_entries(out@);
        let mut bag = copy_entries(&self.other);
        let ghost outpre = out@;
        let ghost bagpre = bag@;
        out.append(&mut bag);
        proof {
            assert(out@ == outpre + bagpre);
            lemma_json_view_entries_concat(outpre, bagpre);
            assert(json_view_entries(out@) == head3 + self@.other);
            assert(json_view_entries(out@) =~= head + (if self@.nodes.len() == 0 {
                Seq::<(Seq<char>, JsonV)>::empty()
            } else {
                seq![("nodes"@, JsonV::Arr(spec_list_to_json(self@.nodes)))]
            }) + (if self@.body.len() == 0 {
                Seq::<(Seq<char>, JsonV)>::empty()
            } else {
                seq![("body"@, spec_node_to_json(self@.body.first()))]
            }) + self@.other);
        }
        Json::Obj(out)
    }

    /// Look one attribute up in the open bag: the stored value, copied, or
    /// `None` where the bag has no entry of that name.
    pub fn attribute(&self, key: &str) -> (r: Option<Json>)
        ensures
            match r {
                Some(v) => entries_get(self@.other, key@) == Some(v@),
                None => entries_get(self@.other, key@) is None,
            },
    {
        let k = key.to_owned();
        match obj_get(&self.other, &k) {
            Some(v) => Some(v.deep_copy()),
            None => None,
        }
    }
}

} // verus!
