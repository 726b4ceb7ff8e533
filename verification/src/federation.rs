//! The federation graph of a project: every object the federation touches, once, and
//! the directed relations between them, in an order that does not depend on the run.

use vstd::prelude::*;
use crate::json::{get, get_text, text_of_opt, views, JsonValue};
use crate::resource::Envelope;
use crate::text::{append_str, chars_of, lex_lt, lemma_lex_asymmetric, lemma_lex_irreflexive,
    lemma_lex_total, lemma_lex_transitive, seq_eq, string_less, string_of};

verus! {

/// How an object last reported.
#[derive(Debug, Clone, Copy, PartialEq, Eq)]
pub enum NodeHealth {
    /// The object reported `Live`.
    Healthy,
    /// The object reported `Error`.
    Degraded,
    /// The object has not reported yet, or is still converging.
    Unknown,
}

/// What one edge means.
#[derive(Debug, Clone, Copy, PartialEq, Eq)]
pub enum EdgeKind {
    Registers,
    Serves,
    Feeds,
    Consumes,
}

/// What a registration's card shows.
#[derive(Debug)]
pub struct RegistrationCard {
    pub mode: String,
    pub identity: String,
    pub types: Vec<String>,
    pub external: bool,
}

/// One object in the graph.
#[derive(Debug)]
pub struct Node {
    /// `kind/name`.
    pub id: String,
    pub kind: String,
    pub name: String,
    /// The title, one entry per language, in key order.
    pub title: Vec<(String, String)>,
    pub health: NodeHealth,
    pub registration: Option<RegistrationCard>,
}

/// One directed relation between two nodes.
#[derive(Debug)]
pub struct Edge {
    pub from: String,
    pub to: String,
    pub kind: EdgeKind,
    /// The manifest the edge was read from, as `kind/name`.
    pub manifest: String,
}

/// The federation of one project.
#[derive(Debug)]
pub struct FederationGraph {
    pub nodes: Vec<Node>,
    pub edges: Vec<Edge>,
}

pub struct CardView {
    pub mode: Seq<char>,
    pub identity: Seq<char>,
    pub types: Seq<Seq<char>>,
    pub external: bool,
}

pub struct NodeView {
    pub id: Seq<char>,
    pub kind: Seq<char>,
    pub name: Seq<char>,
    pub title: Seq<(Seq<char>, Seq<char>)>,
    pub health: NodeHealth,
    pub registration: Option<CardView>,
}

pub struct EdgeView {
    pub from: Seq<char>,
    pub to: Seq<char>,
    pub kind: EdgeKind,
    pub manifest: Seq<char>,
}

impl View for RegistrationCard {
    type V = CardView;

    open spec fn view(&self) -> CardView {
        CardView {
            mode: self.mode@,
            identity: self.identity@,
            types: views(self.types@),
            external: self.external,
        }
    }
}

pub open spec fn pair_views(s: Seq<(String, String)>) -> Seq<(Seq<char>, Seq<char>)> {
    s.map_values(|p: (String, String)| (p.0@, p.1@))
}

pub open spec fn card_view(c: Option<RegistrationCard>) -> Option<CardView> {
    match c {
        Some(card) => Some(card@),
        None => None,
    }
}

impl View for Node {
    type V = NodeView;

    open spec fn view(&self) -> NodeView {
        NodeView {
            id: self.id@,
            kind: self.kind@,
            name: self.name@,
            title: pair_views(self.title@),
            health: self.health,
            registration: card_view(self.registration),
        }
    }
}

impl View for Edge {
    type V = EdgeView;

    open spec fn view(&self) -> EdgeView {
        EdgeView { from: self.from@, to: self.to@, kind: self.kind, manifest: self.manifest@ }
    }
}

pub open spec fn node_views(s: Seq<Node>) -> Seq<NodeView> {
    s.map_values(|n: Node| n@)
}

pub open spec fn edge_views(s: Seq<Edge>) -> Seq<EdgeView> {
    s.map_values(|e: Edge| e@)
}

/// `kind/name`, the id a node is known by.
pub open spec fn node_id(kind: Seq<char>, name: Seq<char>) -> Seq<char> {
    kind + "/"@ + name
}

pub fn id(kind: &str, name: &str) -> (r: String)
    ensures
        r@ == node_id(kind@, name@),
{
    let mut out = chars_of(kind);
    append_str(&mut out, "/");
    append_str(&mut out, name);
    string_of(out.as_slice())
}

/// The health UI-27 defines, read off the phase the object last reported.
pub open spec fn health_of(phase: Option<Seq<char>>) -> NodeHealth {
    match phase {
        Some(p) => if p == "Live"@ {
            NodeHealth::Healthy
        } else if p == "Error"@ {
            NodeHealth::Degraded
        } else {
            NodeHealth::Unknown
        },
        None => NodeHealth::Unknown,
    }
}

pub open spec fn opt_view(s: Option<String>) -> Option<Seq<char>> {
    match s {
        Some(x) => Some(x@),
        None => None,
    }
}

pub fn health(phase: &Option<String>) -> (h: NodeHealth)
    ensures
        h == health_of(opt_view(*phase)),
{
    match phase {
        Some(p) => {
            if crate::text::str_eq(p.as_str(), "Live") {
                NodeHealth::Healthy
            } else if crate::text::str_eq(p.as_str(), "Error") {
                NodeHealth::Degraded
            } else {
                NodeHealth::Unknown
            }
        },
        None => NodeHealth::Unknown,
    }
}

// ---------------------------------------------------------------------------------------
// The node index: kept in id order, one node per id
// ---------------------------------------------------------------------------------------

/// Ids strictly increasing: every id once, in `String` order.
pub open spec fn ids_sorted(s: Seq<NodeView>) -> bool {
    forall|i: int, j: int| 0 <= i < j < s.len() ==> lex_lt(#[trigger] s[i].id, #[trigger] s[j].id)
}

/// The first position whose id is not below `key`, scanning from `k`.
pub open spec fn position(s: Seq<NodeView>, key: Seq<char>, k: int) -> int
    decreases s.len() - k,
{
    if k >= s.len() || k < 0 {
        s.len() as int
    } else if lex_lt(s[k].id, key) {
        position(s, key, k + 1)
    } else {
        k
    }
}

/// Whether an id is in the index.
pub open spec fn has_id(s: Seq<NodeView>, key: Seq<char>) -> bool {
    exists|i: int| 0 <= i < s.len() && #[trigger] s[i].id == key
}

/// `BTreeMap::insert`: the node under its id, replacing one already there.
pub open spec fn placed(s: Seq<NodeView>, n: NodeView) -> Seq<NodeView> {
    let p = position(s, n.id, 0);
    if p < s.len() && s[p].id == n.id {
        s.update(p, n)
    } else {
        s.insert(p, n)
    }
}

/// `BTreeMap::entry(..).or_insert(..)`: the node under its id unless one is there already.
pub open spec fn kept(s: Seq<NodeView>, n: NodeView) -> Seq<NodeView> {
    if has_id(s, n.id) {
        s
    } else {
        placed(s, n)
    }
}

proof fn lemma_position(s: Seq<NodeView>, key: Seq<char>, k: int)
    requires
        0 <= k <= s.len(),
        ids_sorted(s),
    ensures
        k <= position(s, key, k) <= s.len(),
        forall|i: int| k <= i < position(s, key, k) ==> lex_lt(#[trigger] s[i].id, key),
        forall|i: int| position(s, key, k) <= i < s.len() ==> !lex_lt(#[trigger] s[i].id, key),
    decreases s.len() - k,
{
    if k < s.len() {
        if lex_lt(s[k].id, key) {
            lemma_position(s, key, k + 1);
        } else {
            assert forall|i: int| k <= i < s.len() implies !lex_lt(#[trigger] s[i].id, key) by {
                if i > k {
                    assert(lex_lt(s[k].id, s[i].id));
                    if lex_lt(s[i].id, key) {
                        lemma_lex_transitive(s[k].id, s[i].id, key);
                    }
                }
            }
        }
    }
}

/// After the position, every id is above `key` unless it is `key` itself at the position.
proof fn lemma_above(s: Seq<NodeView>, key: Seq<char>)
    requires
        ids_sorted(s),
    ensures
        forall|i: int|
            position(s, key, 0) <= i < s.len() && s[i].id != key ==> lex_lt(key, #[trigger] s[i].id),
        forall|i: int| position(s, key, 0) < i < s.len() ==> lex_lt(key, #[trigger] s[i].id),
        has_id(s, key) <==> (position(s, key, 0) < s.len() && s[position(s, key, 0)].id == key),
{
    lemma_position(s, key, 0);
    let p = position(s, key, 0);
    assert forall|i: int| p <= i < s.len() && s[i].id != key implies lex_lt(key, #[trigger] s[i].id) by {
        lemma_lex_total(s[i].id, key);
    }
    assert forall|i: int| p < i < s.len() implies lex_lt(key, #[trigger] s[i].id) by {
        lemma_lex_total(s[p].id, key);
        assert(lex_lt(s[p].id, s[i].id));
        if s[p].id != key {
            lemma_lex_transitive(key, s[p].id, s[i].id);
        }
    }
    if has_id(s, key) {
        let i = choose|i: int| 0 <= i < s.len() && #[trigger] s[i].id == key;
        lemma_lex_irreflexive(key);
        if i > p {
            lemma_lex_irreflexive(key);
        }
    }
}

/// Placing a node keeps every id once and in order.
pub proof fn lemma_placed_sorted(s: Seq<NodeView>, n: NodeView)
    requires
        ids_sorted(s),
    ensures
        ids_sorted(placed(s, n)),
        has_id(placed(s, n), n.id),
        forall|k: Seq<char>| k != n.id ==> (has_id(placed(s, n), k) <==> has_id(s, k)),
{
    lemma_position(s, n.id, 0);
    lemma_above(s, n.id);
    let p = position(s, n.id, 0);
    let r = placed(s, n);
    if p < s.len() && s[p].id == n.id {
        assert(r[p].id == n.id);
        assert forall|k: Seq<char>| k != n.id implies (has_id(r, k) <==> has_id(s, k)) by {
            if has_id(r, k) {
                let i = choose|i: int| 0 <= i < r.len() && #[trigger] r[i].id == k;
                assert(s[i].id == k);
            }
            if has_id(s, k) {
                let i = choose|i: int| 0 <= i < s.len() && #[trigger] s[i].id == k;
                assert(r[i].id == k);
            }
        }
    } else {
        assert(r[p].id == n.id);
        assert forall|i: int, j: int| 0 <= i < j < r.len() implies lex_lt(
            #[trigger] r[i].id,
            #[trigger] r[j].id,
        ) by {
            if j < p {
            } else if i < p && j == p {
            } else if i < p && j > p {
                assert(r[j] == s[j - 1]);
                assert(lex_lt(s[i].id, s[j - 1].id));
            } else if i == p {
                assert(r[j] == s[j - 1]);
                assert(s[j - 1].id != n.id || j - 1 > p);
            } else {
                assert(r[i] == s[i - 1]);
                assert(r[j] == s[j - 1]);
            }
        }
        assert forall|k: Seq<char>| k != n.id implies (has_id(r, k) <==> has_id(s, k)) by {
            if has_id(r, k) {
                let i = choose|i: int| 0 <= i < r.len() && #[trigger] r[i].id == k;
                if i < p {
                    assert(s[i].id == k);
                } else {
                    assert(s[i - 1].id == k);
                }
            }
            if has_id(s, k) {
                let i = choose|i: int| 0 <= i < s.len() && #[trigger] s[i].id == k;
                if i < p {
                    assert(r[i].id == k);
                } else {
                    assert(r[i + 1].id == k);
                }
            }
        }
    }
}

// ---------------------------------------------------------------------------------------
// The edges: sorted by (from, to), stable
// ---------------------------------------------------------------------------------------

/// `(a.from, a.to) < (b.from, b.to)`.
pub open spec fn edge_lt(a: EdgeView, b: EdgeView) -> bool {
    lex_lt(a.from, b.from) || (a.from == b.from && lex_lt(a.to, b.to))
}

/// The first position holding an edge that sorts after `e`, scanning from `k`.
pub open spec fn after(s: Seq<EdgeView>, e: EdgeView, k: int) -> int
    decreases s.len() - k,
{
    if k >= s.len() || k < 0 {
        s.len() as int
    } else if edge_lt(e, s[k]) {
        k
    } else {
        after(s, e, k + 1)
    }
}

/// `e` put after every edge that does not sort after it.
pub open spec fn inserted(s: Seq<EdgeView>, e: EdgeView) -> Seq<EdgeView> {
    s.insert(after(s, e, 0), e)
}

/// A stable sort by `(from, to)`: each edge inserted, in turn, after those that do not sort
/// after it.
pub open spec fn sorted_edges(s: Seq<EdgeView>) -> Seq<EdgeView>
    decreases s.len(),
{
    if s.len() == 0 {
        Seq::empty()
    } else {
        inserted(sorted_edges(s.drop_last()), s.last())
    }
}

pub open spec fn edges_in_order(s: Seq<EdgeView>) -> bool {
    forall|i: int, j: int| 0 <= i < j < s.len() ==> !edge_lt(#[trigger] s[j], #[trigger] s[i])
}

proof fn lemma_edge_order(a: EdgeView, b: EdgeView, c: EdgeView)
    ensures
        !(edge_lt(a, b) && edge_lt(b, a)),
        edge_lt(a, b) && edge_lt(b, c) ==> edge_lt(a, c),
        !edge_lt(a, b) && !edge_lt(b, c) ==> !edge_lt(a, c),
        !edge_lt(a, b) ==> edge_lt(b, a) || (a.from == b.from && a.to == b.to),
{
    lemma_lex_asymmetric(a.from, b.from);
    lemma_lex_asymmetric(a.to, b.to);
    lemma_lex_total(a.from, b.from);
    lemma_lex_total(a.to, b.to);
    lemma_lex_total(b.from, c.from);
    lemma_lex_total(b.to, c.to);
    lemma_lex_total(a.from, c.from);
    lemma_lex_total(a.to, c.to);
    lemma_lex_irreflexive(a.from);
    lemma_lex_irreflexive(a.to);
    lemma_lex_irreflexive(b.from);
    if edge_lt(a, b) && edge_lt(b, c) {
        if lex_lt(a.from, b.from) && lex_lt(b.from, c.from) {
            lemma_lex_transitive(a.from, b.from, c.from);
        }
        if a.from == b.from && b.from == c.from {
            lemma_lex_transitive(a.to, b.to, c.to);
        }
    }
    if !edge_lt(a, b) && !edge_lt(b, c) && edge_lt(a, c) {
        if lex_lt(b.from, a.from) && lex_lt(c.from, b.from) {
            lemma_lex_transitive(c.from, b.from, a.from);
            lemma_lex_asymmetric(a.from, c.from);
        }
        if lex_lt(b.from, a.from) && b.from == c.from {
            lemma_lex_asymmetric(a.from, c.from);
        }
        if a.from == b.from && lex_lt(c.from, b.from) {
            lemma_lex_asymmetric(a.from, c.from);
        }
        if a.from == b.from && b.from == c.from {
            lemma_lex_total(b.to, a.to);
            lemma_lex_total(c.to, b.to);
            if lex_lt(b.to, a.to) && lex_lt(c.to, b.to) {
                lemma_lex_transitive(c.to, b.to, a.to);
                lemma_lex_asymmetric(a.to, c.to);
            }
            if lex_lt(b.to, a.to) && c.to == b.to {
                lemma_lex_asymmetric(a.to, c.to);
            }
            if a.to == b.to && lex_lt(c.to, b.to) {
                lemma_lex_asymmetric(a.to, c.to);
            }
            if a.to == b.to && c.to == b.to {
                lemma_lex_irreflexive(a.to);
            }
        }
    }
}

proof fn lemma_after(s: Seq<EdgeView>, e: EdgeView, k: int)
    requires
        0 <= k <= s.len(),
    ensures
        k <= after(s, e, k) <= s.len(),
        forall|i: int| k <= i < after(s, e, k) ==> !edge_lt(e, #[trigger] s[i]),
        after(s, e, k) < s.len() ==> edge_lt(e, s[after(s, e, k)]),
    decreases s.len() - k,
{
    if k < s.len() && !edge_lt(e, s[k]) {
        lemma_after(s, e, k + 1);
    }
}

/// Inserting an edge keeps the order.
pub proof fn lemma_inserted_in_order(s: Seq<EdgeView>, e: EdgeView)
    requires
        edges_in_order(s),
    ensures
        edges_in_order(inserted(s, e)),
        inserted(s, e).to_multiset() == s.to_multiset().insert(e),
{
    lemma_after(s, e, 0);
    let p = after(s, e, 0);
    let r = inserted(s, e);
    assert forall|i: int, j: int| 0 <= i < j < r.len() implies !edge_lt(
        #[trigger] r[j],
        #[trigger] r[i],
    ) by {
        if j < p {
        } else if i < p && j == p {
            lemma_after(s, e, 0);
            assert(!edge_lt(e, s[i]));
        } else if i < p && j > p {
            assert(r[j] == s[j - 1]);
        } else if i == p {
            assert(r[j] == s[j - 1]);
            if j - 1 == p {
                lemma_edge_order(e, s[p], s[p]);
            } else {
                assert(!edge_lt(s[j - 1], s[p]));
                lemma_edge_order(s[j - 1], s[p], e);
                lemma_edge_order(e, s[p], s[j - 1]);
            }
        } else {
            assert(r[i] == s[i - 1]);
            assert(r[j] == s[j - 1]);
        }
    }
    vstd::seq_lib::to_multiset_insert(s, p, e);
}

/// The sort puts the edges in order and neither adds nor drops one.
pub proof fn lemma_sorted_edges(s: Seq<EdgeView>)
    ensures
        edges_in_order(sorted_edges(s)),
        sorted_edges(s).to_multiset() == s.to_multiset(),
    decreases s.len(),
{
    if s.len() > 0 {
        lemma_sorted_edges(s.drop_last());
        lemma_inserted_in_order(sorted_edges(s.drop_last()), s.last());
        assert(s =~= s.drop_last().push(s.last()));
        vstd::seq_lib::to_multiset_build(s.drop_last(), s.last());
    } else {
        assert(sorted_edges(s) =~= s);
    }
}

/// Where `e` goes among sorted edges: after every edge that does not sort after it.
fn edge_slot(out: &Vec<Edge>, e: &Edge) -> (p: usize)
    ensures
        p == after(edge_views(out@), e@, 0),
{
    let ghost s = edge_views(out@);
    let mut p: usize = 0;
    while p < out.len()
        invariant
            p <= out@.len(),
            s == edge_views(out@),
            after(s, e@, 0) == after(s, e@, p as int),
        decreases out.len() - p,
    {
        let later = string_less(&e.from, &out[p].from) || (e.from == out[p].from && string_less(
            &e.to,
            &out[p].to,
        ));
        assert(s[p as int] == out@[p as int]@);
        if later {
            return p;
        }
        p = p + 1;
    }
    p
}

// ---------------------------------------------------------------------------------------
// The builder
// ---------------------------------------------------------------------------------------

/// Collects nodes and edges, keyed so that two manifests naming the same object produce one
/// node and two runs produce the same order.
pub struct Builder {
    nodes: Vec<Node>,
    edges: Vec<Edge>,
}

impl Builder {
    /// The nodes so far, in id order.
    pub closed spec fn node_list(&self) -> Seq<NodeView> {
        node_views(self.nodes@)
    }

    /// The edges so far, in the order they were added.
    pub closed spec fn edge_list(&self) -> Seq<EdgeView> {
        edge_views(self.edges@)
    }

    pub open spec fn wf(&self) -> bool {
        ids_sorted(self.node_list())
    }

    pub fn new() -> (b: Builder)
        ensures
            b.wf(),
            b.node_list() == Seq::<NodeView>::empty(),
            b.edge_list() == Seq::<EdgeView>::empty(),
    {
        let b = Builder { nodes: Vec::new(), edges: Vec::new() };
        assert(b.node_list() =~= Seq::<NodeView>::empty());
        assert(b.edge_list() =~= Seq::<EdgeView>::empty());
        b
    }

    /// Where a node of this id is or would go.
    fn position_of(&self, key: &String) -> (p: usize)
        requires
            self.wf(),
        ensures
            p == position(self.node_list(), key@, 0),
    {
        let ghost s = self.node_list();
        let mut p: usize = 0;
        while p < self.nodes.len()
            invariant
                p <= self.nodes@.len(),
                s == self.node_list(),
                s.len() == self.nodes@.len(),
                position(s, key@, 0) == position(s, key@, p as int),
            decreases self.nodes.len() - p,
        {
            assert(s[p as int].id == self.nodes@[p as int].id@);
            if !string_less(&self.nodes[p].id, key) {
                return p;
            }
            p = p + 1;
        }
        p
    }

    fn place(&mut self, node: Node)
        requires
            old(self).wf(),
        ensures
            final(self).wf(),
            final(self).node_list() == placed(old(self).node_list(), node@),
            final(self).edge_list() == old(self).edge_list(),
    {
        let ghost s = self.node_list();
        proof {
            lemma_placed_sorted(s, node@);
            lemma_position(s, node@.id, 0);
        }
        let p = self.position_of(&node.id);
        if p < self.nodes.len() && self.nodes[p].id == node.id {
            self.nodes.remove(p);
            self.nodes.insert(p, node);
            assert(self.node_list() =~= s.update(p as int, node@));
        } else {
            self.nodes.insert(p, node);
            assert(self.node_list() =~= s.insert(p as int, node@));
        }
    }

    /// A node for a manifest, replacing one of the same id.
    pub fn node(&mut self, env: Envelope, kind: &str, registration: Option<RegistrationCard>)
        requires
            old(self).wf(),
        ensures
            final(self).wf(),
            final(self).node_list() == placed(
                old(self).node_list(),
                NodeView {
                    id: node_id(kind@, env.metadata.name@),
                    kind: kind@,
                    name: env.metadata.name@,
                    title: pair_views(env.metadata.title@),
                    health: health_of(opt_view(env.phase)),
                    registration: card_view(registration),
                },
            ),
            final(self).edge_list() == old(self).edge_list(),
    {
        let node_id = id(kind, env.metadata.name.as_str());
        let health = health(&env.phase);
        let node = Node {
            id: node_id,
            kind: kind.to_owned(),
            name: env.metadata.name,
            title: env.metadata.title,
            health,
            registration,
        };
        self.place(node);
    }

    /// A source outside this platform, unless a node of that id is there already.
    pub fn external(&mut self, id: String, name: String)
        requires
            old(self).wf(),
        ensures
            final(self).wf(),
            final(self).node_list() == kept(
                old(self).node_list(),
                NodeView {
                    id: id@,
                    kind: "ExternalSource"@,
                    name: name@,
                    title: Seq::empty(),
                    health: NodeHealth::Unknown,
                    registration: None,
                },
            ),
            final(self).edge_list() == old(self).edge_list(),
    {
        let ghost s = self.node_list();
        proof {
            lemma_above(s, id@);
        }
        let p = self.position_of(&id);
        if p < self.nodes.len() && self.nodes[p].id == id {
            return;
        }
        let node = Node {
            id,
            kind: "ExternalSource".to_owned(),
            name,
            title: Vec::new(),
            health: NodeHealth::Unknown,
            registration: None,
        };
        assert(pair_views(node.title@) =~= Seq::<(Seq<char>, Seq<char>)>::empty());
        self.place(node);
    }

    /// One more edge.
    pub fn edge(&mut self, from: String, to: String, kind: EdgeKind, manifest: String)
        requires
            old(self).wf(),
        ensures
            final(self).wf(),
            final(self).node_list() == old(self).node_list(),
            final(self).edge_list() == old(self).edge_list().push(
                EdgeView { from: from@, to: to@, kind, manifest: manifest@ },
            ),
    {
        let ghost before = self.edge_list();
        self.edges.push(Edge { from, to, kind, manifest });
        assert(self.edge_list() =~= before.push(
            EdgeView { from: from@, to: to@, kind, manifest: manifest@ },
        ));
    }

    /// The graph: the nodes in id order, the edges sorted by `(from, to)`, ties in the order
    /// they were added.
    pub fn finish(self) -> (g: FederationGraph)
        requires
            self.wf(),
        ensures
            node_views(g.nodes@) == self.node_list(),
            edge_views(g.edges@) == sorted_edges(self.edge_list()),
    {
        let Builder { nodes, mut edges } = self;
        let ghost all = edge_views(edges@);
        let n = edges.len();
        let mut out: Vec<Edge> = Vec::new();
        let mut i: usize = 0;
        assert(edge_views(out@) =~= sorted_edges(all.subrange(0, 0)));
        while i < n
            invariant
                i <= n == all.len(),
                edges@.len() == n - i,
                edge_views(edges@) == all.subrange(i as int, n as int),
                edge_views(out@) == sorted_edges(all.subrange(0, i as int)),
            decreases n - i,
        {
            let ghost before = edge_views(out@);
            assert(edge_views(edges@)[0] == all[i as int]);
            let ghost old_edges = edges@;
            let e = edges.remove(0);
            assert(e@ == all[i as int]);
            assert forall|k: int| 0 <= k < edges@.len() implies #[trigger] edges@[k]@ == all[i + 1 + k] by {
                assert(edges@[k] == old_edges[k + 1]);
                assert(edge_views(old_edges)[k + 1] == all.subrange(i as int, n as int)[k + 1]);
            }
            assert(edge_views(edges@) =~= all.subrange(i + 1, n as int));
            let p = edge_slot(&out, &e);
            proof {
                lemma_after(before, e@, 0);
            }
            out.insert(p, e);
            assert(all.subrange(0, i + 1).drop_last() =~= all.subrange(0, i as int));
            assert(edge_views(out@) =~= before.insert(p as int, all[i as int]));
            i = i + 1;
        }
        assert(all.subrange(0, n as int) =~= all);
        FederationGraph { nodes, edges: out }
    }
}

// ---------------------------------------------------------------------------------------
// Reading a registration
// ---------------------------------------------------------------------------------------

/// A `Ref` is either a bare name or `{ kind, name }`.
pub open spec fn reference_name(reference: Option<JsonValue>) -> Option<Seq<char>> {
    match reference {
        Some(JsonValue::Str(s)) => Some(s@),
        Some(r) => get_text(r, "name"@),
        None => None,
    }
}

pub fn reference_name_of(reference: Option<&JsonValue>) -> (r: Option<String>)
    ensures
        opt_view(r) == reference_name(
            match reference {
                Some(x) => Some(*x),
                None => None,
            },
        ),
{
    match reference {
        Some(JsonValue::Str(s)) => Some(s.clone()),
        Some(other) => match other.text_at("name") {
            Some(s) => Some(s.clone()),
            None => None,
        },
        None => None,
    }
}

/// The string under `key`, or the fallback.
pub open spec fn text_or(value: JsonValue, key: Seq<char>, fallback: Seq<char>) -> Seq<char> {
    match get_text(value, key) {
        Some(t) => t,
        None => fallback,
    }
}

pub fn text(value: &JsonValue, key: &str, fallback: &str) -> (r: String)
    ensures
        r@ == text_or(*value, key@, fallback@),
{
    match value.text_at(key) {
        Some(s) => s.clone(),
        None => fallback.to_owned(),
    }
}

/// The entity types one `information` item claims.
pub open spec fn claims_type(info: JsonValue, t: Seq<char>) -> bool {
    match get(info, "entities"@) {
        Some(JsonValue::Array(es)) => exists|j: int|
            0 <= j < es@.len() && get_text(#[trigger] es@[j], "type"@) == Some(t),
        _ => false,
    }
}

/// Whether a registration claims the entity type `t`.
pub open spec fn registration_claims(spec: JsonValue, t: Seq<char>) -> bool {
    match get(spec, "information"@) {
        Some(JsonValue::Array(infos)) => exists|i: int|
            0 <= i < infos@.len() && claims_type(#[trigger] infos@[i], t),
        _ => false,
    }
}

pub open spec fn strictly_sorted(s: Seq<Seq<char>>) -> bool {
    forall|i: int, j: int| 0 <= i < j < s.len() ==> lex_lt(#[trigger] s[i], #[trigger] s[j])
}

pub fn first_not_below(types: &Vec<String>, t: &String) -> (p: usize)
    ensures
        p <= types@.len(),
        forall|k: int| 0 <= k < p ==> lex_lt(#[trigger] views(types@)[k], t@),
        p < types@.len() ==> !lex_lt(views(types@)[p as int], t@),
{
    let ghost s = views(types@);
    let mut p: usize = 0;
    while p < types.len()
        invariant
            p <= types@.len(),
            s == views(types@),
            forall|k: int| 0 <= k < p ==> lex_lt(#[trigger] s[k], t@),
        decreases types.len() - p,
    {
        if !string_less(&types[p], t) {
            return p;
        }
        p = p + 1;
    }
    p
}

/// Adds `t` to a sorted list of distinct strings, unless it is there.
pub fn add_sorted(types: &mut Vec<String>, t: &String)
    requires
        strictly_sorted(views(old(types)@)),
    ensures
        strictly_sorted(views(final(types)@)),
        forall|x: Seq<char>|
            views(final(types)@).contains(x) <==> (views(old(types)@).contains(x) || x == t@),
{
    let ghost s = views(types@);
    let p = first_not_below(types, t);
    assert forall|k: int| p < k < s.len() implies lex_lt(t@, #[trigger] s[k]) by {
        lemma_lex_total(s[p as int], t@);
        assert(lex_lt(s[p as int], s[k]));
        if s[p as int] == t@ {
        } else {
            lemma_lex_transitive(t@, s[p as int], s[k]);
        }
    }
    if p < types.len() && types[p] == *t {
        assert(s[p as int] == t@);
        return;
    }
    proof {
        if p < s.len() {
            lemma_lex_total(s[p as int], t@);
        }
    }
    types.insert(p, t.clone());
    let ghost r = views(types@);
    assert(r =~= s.insert(p as int, t@));
    assert forall|i: int, j: int| 0 <= i < j < r.len() implies lex_lt(
        #[trigger] r[i],
        #[trigger] r[j],
    ) by {
        if j < p {
        } else if i < p && j == p {
        } else if i < p && j > p {
            assert(r[j] == s[j - 1]);
        } else if i == p {
            assert(r[j] == s[j - 1]);
        } else {
            assert(r[i] == s[i - 1]);
            assert(r[j] == s[j - 1]);
        }
    }
    assert forall|x: Seq<char>| r.contains(x) <==> (s.contains(x) || x == t@) by {
        if r.contains(x) {
            let k = choose|k: int| 0 <= k < r.len() && r[k] == x;
            if k < p {
                assert(s[k] == x);
            } else if k > p {
                assert(s[k - 1] == x);
            }
        }
        if s.contains(x) {
            let k = choose|k: int| 0 <= k < s.len() && s[k] == x;
            if k < p {
                assert(r[k] == x);
            } else {
                assert(r[k + 1] == x);
            }
        }
        if x == t@ {
            assert(r[p as int] == x);
        }
    }
}

/// Whether one of the first `j` entities names type `x`.
pub open spec fn seen_type(es: Seq<JsonValue>, j: int, x: Seq<char>) -> bool {
    exists|m: int| 0 <= m < j && get_text(#[trigger] es[m], "type"@) == Some(x)
}

/// Whether one of the first `i` information items claims type `x`.
pub open spec fn seen_claim(infos: Seq<JsonValue>, i: int, x: Seq<char>) -> bool {
    exists|k: int| 0 <= k < i && claims_type(#[trigger] infos[k], x)
}

proof fn lemma_seen_type_step(es: Seq<JsonValue>, j: int, x: Seq<char>)
    requires
        0 <= j < es.len(),
    ensures
        seen_type(es, j + 1, x) <==> (seen_type(es, j, x) || get_text(es[j], "type"@) == Some(x)),
{
    if seen_type(es, j + 1, x) {
        let m = choose|m: int| 0 <= m < j + 1 && get_text(#[trigger] es[m], "type"@) == Some(x);
        if m < j {
            assert(seen_type(es, j, x));
        }
    }
    if seen_type(es, j, x) {
        let m = choose|m: int| 0 <= m < j && get_text(#[trigger] es[m], "type"@) == Some(x);
        assert(0 <= m < j + 1);
    }
    if get_text(es[j], "type"@) == Some(x) {
        assert(0 <= j < j + 1);
    }
}

proof fn lemma_seen_claim_step(infos: Seq<JsonValue>, i: int, x: Seq<char>)
    requires
        0 <= i < infos.len(),
    ensures
        seen_claim(infos, i + 1, x) <==> (seen_claim(infos, i, x) || claims_type(infos[i], x)),
{
    if seen_claim(infos, i + 1, x) {
        let k = choose|k: int| 0 <= k < i + 1 && claims_type(#[trigger] infos[k], x);
        if k < i {
            assert(seen_claim(infos, i, x));
        }
    }
    if seen_claim(infos, i, x) {
        let k = choose|k: int| 0 <= k < i && claims_type(#[trigger] infos[k], x);
        assert(0 <= k < i + 1);
    }
    if claims_type(infos[i], x) {
        assert(0 <= i < i + 1);
    }
}

/// The types one information item adds to `types`.
fn add_entity_types(types: &mut Vec<String>, es: &Vec<JsonValue>)
    requires
        strictly_sorted(views(old(types)@)),
    ensures
        strictly_sorted(views(final(types)@)),
        forall|x: Seq<char>|
            #[trigger] views(final(types)@).contains(x) <==> (views(old(types)@).contains(x)
                || seen_type(es@, es@.len() as int, x)),
{
    let ghost base = views(types@);
    let mut j: usize = 0;
    while j < es.len()
        invariant
            j <= es@.len(),
            base == views(old(types)@),
            strictly_sorted(views(types@)),
            forall|x: Seq<char>|
                #[trigger] views(types@).contains(x) <==> (base.contains(x) || seen_type(
                    es@,
                    j as int,
                    x,
                )),
        decreases es.len() - j,
    {
        let ghost before = views(types@);
        match es[j].text_at("type") {
            Some(t) => {
                add_sorted(types, t);
                assert forall|x: Seq<char>|
                    #[trigger] views(types@).contains(x) <==> (base.contains(x) || seen_type(
                        es@,
                        j + 1,
                        x,
                    )) by {
                    lemma_seen_type_step(es@, j as int, x);
                    assert(before.contains(x) <==> (base.contains(x) || seen_type(es@, j as int, x)));
                }
            },
            None => {
                assert forall|x: Seq<char>|
                    #[trigger] views(types@).contains(x) <==> (base.contains(x) || seen_type(
                        es@,
                        j + 1,
                        x,
                    )) by {
                    lemma_seen_type_step(es@, j as int, x);
                    assert(before.contains(x) <==> (base.contains(x) || seen_type(es@, j as int, x)));
                }
            },
        }
        j = j + 1;
    }
}

/// The entity types a registration claims, deduplicated and in a stable order.
pub fn entity_types(spec: &JsonValue) -> (types: Vec<String>)
    ensures
        strictly_sorted(views(types@)),
        forall|t: Seq<char>| #[trigger] views(types@).contains(t) <==> registration_claims(*spec, t),
{
    let mut types: Vec<String> = Vec::new();
    assert(views(types@) =~= Seq::<Seq<char>>::empty());
    match spec.get_member("information") {
        Some(JsonValue::Array(infos)) => {
            let mut i: usize = 0;
            while i < infos.len()
                invariant
                    i <= infos@.len(),
                    get(*spec, "information"@) == Some(JsonValue::Array(*infos)),
                    strictly_sorted(views(types@)),
                    forall|t: Seq<char>|
                        #[trigger] views(types@).contains(t) <==> seen_claim(infos@, i as int, t),
                decreases infos.len() - i,
            {
                let ghost before = views(types@);
                match infos[i].get_member("entities") {
                    Some(JsonValue::Array(es)) => {
                        add_entity_types(&mut types, es);
                        assert forall|t: Seq<char>|
                            #[trigger] views(types@).contains(t) <==> seen_claim(infos@, i + 1, t) by {
                            lemma_seen_claim_step(infos@, i as int, t);
                            assert(before.contains(t) <==> seen_claim(infos@, i as int, t));
                            if seen_type(es@, es@.len() as int, t) {
                                let m = choose|m: int|
                                    0 <= m < es@.len() && get_text(#[trigger] es@[m], "type"@) == Some(t);
                                assert(claims_type(infos@[i as int], t));
                            }
                            if claims_type(infos@[i as int], t) {
                                let m = choose|m: int|
                                    0 <= m < es@.len() && get_text(#[trigger] es@[m], "type"@) == Some(t);
                                assert(seen_type(es@, es@.len() as int, t));
                            }
                        }
                    },
                    _ => {
                        assert forall|t: Seq<char>|
                            #[trigger] views(types@).contains(t) <==> seen_claim(infos@, i + 1, t) by {
                            lemma_seen_claim_step(infos@, i as int, t);
                            assert(before.contains(t) <==> seen_claim(infos@, i as int, t));
                        }
                    },
                }
                i = i + 1;
            }
        },
        _ => {},
    }
    types
}

/// The card of a registration.
pub open spec fn card_of(spec: JsonValue) -> (Seq<char>, Seq<char>) {
    (
        text_or(spec, "mode"@, "inclusive"@),
        match get(spec, "federation"@) {
            Some(f) => text_or(f, "identity"@, "serviceAccount"@),
            None => "serviceAccount"@,
        },
    )
}

/// The registration's own node id.
pub open spec fn registration_id(name: Seq<char>) -> Seq<char> {
    node_id("ContextSourceRegistration"@, name)
}

/// What a registration adds to the graph's edges: the space it registers in, then its target.
pub open spec fn registration_edges(name: Seq<char>, spec: JsonValue) -> Seq<EdgeView> {
    let node = registration_id(name);
    let to_space: Seq<EdgeView> = match reference_name(get(spec, "contextSpaceRef"@)) {
        Some(space) => seq![
            EdgeView {
                from: node,
                to: node_id("ContextSpace"@, space),
                kind: EdgeKind::Registers,
                manifest: node,
            },
        ],
        None => Seq::empty(),
    };
    let target = match reference_name(get(spec, "endpointRef"@)) {
        Some(endpoint) => node_id("Endpoint"@, endpoint),
        None => node_id("ExternalSource"@, name),
    };
    to_space.push(EdgeView { from: node, to: target, kind: EdgeKind::Registers, manifest: node })
}

/// A registration's node, with an edge to the space it registers in and an edge out to what it
/// reaches (an external source, named after the registration, when no endpoint is named).
pub fn registration(graph: &mut Builder, csr: Envelope)
    requires
        old(graph).wf(),
    ensures
        final(graph).wf(),
        final(graph).edge_list() == old(graph).edge_list() + registration_edges(
            csr.metadata.name@,
            csr.spec,
        ),
        has_id(final(graph).node_list(), registration_id(csr.metadata.name@)),
        reference_name(get(csr.spec, "endpointRef"@)) is None ==> has_id(
            final(graph).node_list(),
            node_id("ExternalSource"@, csr.metadata.name@),
        ),
        forall|k: Seq<char>|
            has_id(old(graph).node_list(), k) ==> has_id(final(graph).node_list(), k),
        exists|card: CardView|
            card.mode == card_of(csr.spec).0 && card.identity == card_of(csr.spec).1
                && card.external == (get(csr.spec, "endpointRef"@) is None) && #[trigger]
                final(graph).node_list().contains(
                NodeView {
                    id: registration_id(csr.metadata.name@),
                    kind: "ContextSourceRegistration"@,
                    name: csr.metadata.name@,
                    title: pair_views(csr.metadata.title@),
                    health: health_of(opt_view(csr.phase)),
                    registration: Some(card),
                },
            ),
{
    let ghost start_edges = graph.edge_list();
    let ghost start_nodes = graph.node_list();
    let name = csr.metadata.name.clone();
    let node = id("ContextSourceRegistration", name.as_str());

    if let Some(space) = reference_name_of(csr.spec.get_member("contextSpaceRef")) {
        graph.edge(
            node.clone(),
            id("ContextSpace", space.as_str()),
            EdgeKind::Registers,
            node.clone(),
        );
    }
    let ghost mid_edges = graph.edge_list();
    let external = csr.spec.get_member("endpointRef").is_none();
    let target = match reference_name_of(csr.spec.get_member("endpointRef")) {
        Some(endpoint) => id("Endpoint", endpoint.as_str()),
        None => {
            let target = id("ExternalSource", name.as_str());
            let ghost before = graph.node_list();
            proof {
                lemma_above(before, target@);
                lemma_placed_sorted(
                    before,
                    NodeView {
                        id: target@,
                        kind: "ExternalSource"@,
                        name: name@,
                        title: Seq::empty(),
                        health: NodeHealth::Unknown,
                        registration: None,
                    },
                );
            }
            graph.external(target.clone(), name.clone());
            target
        },
    };
    graph.edge(node.clone(), target, EdgeKind::Registers, node);
    assert(graph.edge_list() =~= start_edges + registration_edges(name@, csr.spec));
    let ghost with_external = graph.node_list();

    let mode = text(&csr.spec, "mode", "inclusive");
    let identity = match csr.spec.get_member("federation") {
        Some(f) => text(f, "identity", "serviceAccount"),
        None => "serviceAccount".to_owned(),
    };
    let types = entity_types(&csr.spec);
    let card = RegistrationCard { mode, identity, types, external };
    let ghost cv = card@;
    let ghost title = pair_views(csr.metadata.title@);
    let ghost phase = opt_view(csr.phase);
    let ghost nv = NodeView {
        id: registration_id(name@),
        kind: "ContextSourceRegistration"@,
        name: name@,
        title: title,
        health: health_of(phase),
        registration: Some(cv),
    };
    proof {
        lemma_placed_sorted(with_external, nv);
        lemma_position(with_external, nv.id, 0);
        lemma_above(with_external, nv.id);
    }
    graph.node(csr, "ContextSourceRegistration", Some(card));
    proof {
        let r = graph.node_list();
        let p = position(with_external, nv.id, 0);
        assert(r[p] == nv);
        assert(r.contains(nv));
    }
}

} // verus!
