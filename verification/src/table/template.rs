//! The template expander.
//!
//! A template is the tree obtained by expanding the flat unexpanded
//! descriptor list of section 3 against a table bundle. The tree is
//! held as an arena: a vector of nodes, each storing the handle of its
//! parent (absent for the synthetic root) and the ordered handles of
//! its children. A child's handle is always greater than its parent's,
//! so traversal terminates, and the arena carries no reference cycles.

use vstd::prelude::*;
use crate::BufrKitError;
use crate::table::descriptor::{
    ID,
    Fxy,
    Descriptor,
    ElementDescriptor,
    ReplicationDescriptor,
    OperatorDescriptor,
    SequenceDescriptor,
    spec_y,
};
use crate::table::table::{TableGroup, TableGroupId, Entry, assoc_find, spec_wild_key};
use crate::table::descriptor::spec_id_string;

verus! {

/// How deep an expansion may recurse before it is rejected: sequence
/// descriptors may name other sequences, and a cyclic table must not
/// expand forever. Real templates nest a handful of levels at most,
/// so the bound is generous; only a table whose sequences form a
/// cycle can reach it.
pub const MAX_EXPANSION_DEPTH: usize = 64;

/// One node of the template tree: a resolved descriptor, the handle
/// of its parent, and the ordered handles of its children.
#[derive(Debug)]
pub struct Node {
    pub descriptor: Descriptor,
    pub parent: Option<usize>,
    pub children: Vec<usize>,
}

/// Every child handle of node `i` points past `i`, into the arena,
/// and back to `i` as its parent.
pub open spec fn child_links_ok(nodes: Seq<Node>, i: int) -> bool {
    &&& forall|k: int|
        0 <= k < nodes[i].children@.len() ==> {
            &&& i < #[trigger] nodes[i].children@[k] < nodes.len()
            &&& nodes[nodes[i].children@[k] as int].parent == Option::Some(
                i as usize,
            )
        }
    &&& forall|k1: int, k2: int|
        #![trigger nodes[i].children@[k1], nodes[i].children@[k2]]
        0 <= k1 < k2 < nodes[i].children@.len() ==> nodes[i].children@[k1]
            < nodes[i].children@[k2]
}

/// The parent handle of node `i` points before `i`, to a node whose
/// children include `i`; only the root carries no parent.
pub open spec fn parent_link_ok(nodes: Seq<Node>, i: int) -> bool {
    match nodes[i].parent {
        Option::Some(p) => 0 <= p < i && nodes[p as int].children@.contains(i as usize),
        Option::None => i == 0,
    }
}

/// The arena invariant: one root without a parent, every link
/// mirrored on both sides, and every non-root descriptor's kind tag
/// agreeing with the F field of its id.
pub open spec fn template_nodes_wf(nodes: Seq<Node>) -> bool {
    &&& nodes.len() >= 1
    &&& nodes[0].parent is None
    &&& nodes[0].descriptor matches Descriptor::Sequence(_)
    &&& forall|i: int| 0 <= i < nodes.len() ==> #[trigger] child_links_ok(nodes, i)
    &&& forall|i: int| 0 <= i < nodes.len() ==> #[trigger] parent_link_ok(nodes, i)
    &&& forall|i: int| 1 <= i < nodes.len() ==> (#[trigger] nodes[i].descriptor).kind_matches_id()
}

/// True iff a descriptor carries what its table row holds: an
/// element its Table B layout, an operator its metadata C name
/// (exact or wildcard), a sequence its Table D name. Replication
/// descriptors are synthetic and carry only their id.
pub open spec fn descriptor_from_tables(table_group: &TableGroup, d: Descriptor) -> bool {
    match d {
        Descriptor::Element(e) => match assoc_find(table_group.spec_b(), e.id) {
            Option::Some(be) => {
                &&& e.name@ == be.name@
                &&& e.unit@ == be.unit@
                &&& e.scale == be.scale
                &&& e.refval == be.refval
                &&& e.nbits == be.nbits
            },
            Option::None => false,
        },
        Descriptor::Operator(o) => match assoc_find(
            table_group.spec_mc(),
            spec_id_string(o.id as int),
        ) {
            Option::Some(ce) => o.name@ == ce.name@,
            Option::None => match assoc_find(table_group.spec_mc(), spec_wild_key(o.id as int)) {
                Option::Some(ce) => o.name@ == ce.name@,
                Option::None => false,
            },
        },
        Descriptor::Sequence(q) => match assoc_find(table_group.spec_d(), q.id) {
            Option::Some(de) => q.name@ == de.name@,
            Option::None => false,
        },
        Descriptor::Replication(_) => true,
    }
}

/// The expansion of the first id of `ids` (and, for a replication,
/// of its body drawn from the same list): how many ids it consumes,
/// and the (descriptor id, parent handle) of every node it appends,
/// in arena order, the first one under `parent` at index `base`.
/// `None` is an expansion failure: a malformed or unresolved id, a
/// replication body longer than what remains of the list, or nesting
/// deeper than `depth`.
pub open spec fn spec_expand_one(
    table_group: &TableGroup,
    ids: Seq<ID>,
    parent: int,
    base: int,
    depth: nat,
) -> Option<(int, Seq<(int, int)>)>
    decreases depth, ids.len(), 0int,
{
    if ids.len() == 0 {
        Option::None
    } else {
        let id = ids[0];
        if id < 0 {
            Option::None
        } else {
            let f = crate::table::descriptor::spec_f(id as int);
            if f == 0 {
                if assoc_find(table_group.spec_b(), id) is Some {
                    Option::Some((1, seq![(id as int, parent)]))
                } else {
                    Option::None
                }
            } else if f == 2 {
                if assoc_find(table_group.spec_mc(), spec_id_string(id as int)) is Some
                    || assoc_find(table_group.spec_mc(), spec_wild_key(id as int)) is Some {
                    Option::Some((1, seq![(id as int, parent)]))
                } else {
                    Option::None
                }
            } else if f == 3 {
                match assoc_find(table_group.spec_d(), id) {
                    Option::Some(de) => if depth == 0 {
                        Option::None
                    } else {
                        match spec_expand_list(
                            table_group,
                            de.members@,
                            base,
                            base + 1,
                            (depth - 1) as nat,
                        ) {
                            Option::Some(app) => Option::Some(
                                (1, seq![(id as int, parent)] + app),
                            ),
                            Option::None => Option::None,
                        }
                    },
                    Option::None => Option::None,
                }
            } else if f == 1 {
                let n = crate::table::descriptor::spec_x(id as int) + (if spec_y(id as int) == 0 {
                    1int
                } else {
                    0int
                });
                if depth == 0 {
                    Option::None
                } else {
                    match spec_expand_count(
                        table_group,
                        ids.skip(1),
                        n,
                        base,
                        base + 1,
                        (depth - 1) as nat,
                    ) {
                        Option::Some((k2, app)) => Option::Some(
                            (1 + k2, seq![(id as int, parent)] + app),
                        ),
                        Option::None => Option::None,
                    }
                }
            } else {
                Option::None
            }
        }
    }
}

/// The expansion of every id of `ids` in turn under `parent`, the
/// appended nodes starting at index `base`.
pub open spec fn spec_expand_list(
    table_group: &TableGroup,
    ids: Seq<ID>,
    parent: int,
    base: int,
    depth: nat,
) -> Option<Seq<(int, int)>>
    decreases depth, ids.len(), 1int,
{
    if ids.len() == 0 {
        Option::Some(Seq::empty())
    } else {
        match spec_expand_one(table_group, ids, parent, base, depth) {
            Option::Some((k, app)) => if k < 1 || k > ids.len() {
                Option::None
            } else {
                match spec_expand_list(
                    table_group,
                    ids.skip(k),
                    parent,
                    base + app.len(),
                    depth,
                ) {
                    Option::Some(rest) => Option::Some(app + rest),
                    Option::None => Option::None,
                }
            },
            Option::None => Option::None,
        }
    }
}

/// The expansion of exactly `n` members drawn from the front of
/// `ids`: a replication body. Each member expansion may itself
/// consume followers from the same list; running out of ids before
/// `n` members are expanded is the "insufficient IDs" failure.
pub open spec fn spec_expand_count(
    table_group: &TableGroup,
    ids: Seq<ID>,
    n: int,
    parent: int,
    base: int,
    depth: nat,
) -> Option<(int, Seq<(int, int)>)>
    decreases depth, ids.len(), 1int,
{
    if n <= 0 {
        Option::Some((0, Seq::empty()))
    } else if ids.len() == 0 {
        Option::None
    } else {
        match spec_expand_one(table_group, ids, parent, base, depth) {
            Option::Some((k, app)) => if k < 1 || k > ids.len() {
                Option::None
            } else {
                match spec_expand_count(
                    table_group,
                    ids.skip(k),
                    n - 1,
                    parent,
                    base + app.len(),
                    depth,
                ) {
                    Option::Some((k2, rest)) => Option::Some((k + k2, app + rest)),
                    Option::None => Option::None,
                }
            },
            Option::None => Option::None,
        }
    }
}

/// True iff a descriptor list expands without error against the
/// bundle: exactly when `Template::new` succeeds on it.
pub open spec fn spec_expansion_ok(table_group: &TableGroup, ids: Seq<ID>) -> bool {
    spec_expand_list(table_group, ids, 0, 1, MAX_EXPANSION_DEPTH as nat) is Some
}

/// The (descriptor id, parent handle) of every node from index `from`
/// on, in arena order; a missing parent shows as -1.
pub open spec fn arena_pairs(nodes: Seq<Node>, from: int) -> Seq<(int, int)> {
    Seq::new(
        (nodes.len() - from) as nat,
        |j: int|
            (
                nodes[from + j].descriptor.spec_descriptor_id(),
                match nodes[from + j].parent {
                    Option::Some(p) => p as int,
                    Option::None => -1,
                },
            ),
    )
}

/// Every delayed replication node (Y = 0) that has children starts
/// with an element-kind child: the replication factor that carries
/// the actual repeat count at decode time. Expansion does not enforce
/// this — a delayed replication whose first member is, say, an
/// operator still expands — so it is no consequence of
/// `Template::new`; `replication_factors_ok` decides it and
/// traversal requires it.
pub open spec fn delayed_factors_ok(nodes: Seq<Node>) -> bool {
    forall|i: int|
        0 <= i < nodes.len() ==> match (#[trigger] nodes[i].descriptor) {
            Descriptor::Replication(d) => (spec_y(d.id as int) == 0 && nodes[i].children@.len() > 0)
                ==> (nodes[nodes[i].children@[0] as int].descriptor matches Descriptor::Element(_)),
            _ => true,
        }
}

/// A pushed element keeps everything already contained.
proof fn lemma_push_preserves_contains<T>(s: Seq<T>, x: T, y: T)
    requires
        s.contains(y),
    ensures
        s.push(x).contains(y),
{
    let j = choose|j: int| 0 <= j < s.len() && s[j] == y;
    assert(s.push(x)[j] == y);
}

/// The expanded template of one message: the unexpanded descriptor
/// ids it came from, the id of the bundle that resolved them, and the
/// arena rooted at a synthetic sequence node named "ROOT".
#[derive(Debug)]
pub struct Template {
    ids: Vec<ID>,
    table_group_id: TableGroupId,
    nodes: Vec<Node>,
}

/// One visitor callback, as the traversal contract records it: which
/// callback ran, and the id of the descriptor it was shown.
pub enum VisitEvent {
    Element(ID),
    Replication(ID),
    Operator(ID),
    Sequence(ID),
    ReplicationFactor(ID),
}

/// The callbacks a traversal of the subtree at `i` performs, in
/// order: the node's own callback, then, depth-first, its children;
/// a delayed replication's first child goes through the distinguished
/// replication-factor callback.
pub open spec fn spec_node_events(nodes: Seq<Node>, i: int) -> Seq<VisitEvent>
    decreases nodes.len() - i, nodes[i].children@.len() + 1,
{
    if !(0 <= i < nodes.len()) {
        Seq::empty()
    } else {
        match nodes[i].descriptor {
            Descriptor::Element(d) => seq![VisitEvent::Element(d.id)],
            Descriptor::Operator(d) => seq![VisitEvent::Operator(d.id)],
            Descriptor::Sequence(d) => seq![VisitEvent::Sequence(d.id)] + spec_children_events(
                nodes,
                i,
                0,
                false,
            ),
            Descriptor::Replication(d) => seq![VisitEvent::Replication(d.id)]
                + spec_children_events(nodes, i, 0, spec_y(d.id as int) == 0),
        }
    }
}

/// The callbacks for the children of node `i` from position `k` on;
/// with `delayed`, the first child is the replication factor.
pub open spec fn spec_children_events(
    nodes: Seq<Node>,
    i: int,
    k: int,
    delayed: bool,
) -> Seq<VisitEvent>
    decreases nodes.len() - i, nodes[i].children@.len() - k,
{
    if !(0 <= i < nodes.len()) || !(0 <= k < nodes[i].children@.len()) {
        Seq::empty()
    } else {
        let c = nodes[i].children@[k] as int;
        let head = if !(i < c < nodes.len()) {
            Seq::empty()
        } else if delayed && k == 0 {
            match nodes[c].descriptor {
                Descriptor::Element(d) => seq![VisitEvent::ReplicationFactor(d.id)],
                _ => Seq::empty(),
            }
        } else {
            spec_node_events(nodes, c)
        };
        head + spec_children_events(nodes, i, k + 1, delayed)
    }
}

/// The callbacks a full traversal performs: those of the root's
/// children in order; the synthetic root itself triggers none.
pub open spec fn spec_template_events(nodes: Seq<Node>) -> Seq<VisitEvent> {
    spec_children_events(nodes, 0, 0, false)
}

/// The traversal protocol over a template, depth-first. A delayed
/// replication's first child arrives through the distinguished
/// `visit_replication_factor` callback; replication and sequence
/// nodes receive their children handles so a consumer can replay
/// them. Each callback records exactly its own event in the
/// visitor's event history.
pub trait Visitor {
    /// The callbacks received so far, in order; a visitor that does
    /// not track them reports none.
    open spec fn events(&self) -> Seq<VisitEvent> {
        Seq::empty()
    }

    fn visit_element_descriptor(&mut self, descriptor: &ElementDescriptor)
        ensures
            final(self).events() == old(self).events().push(VisitEvent::Element(descriptor.id)),
    ;

    fn visit_replication_descriptor(
        &mut self,
        descriptor: &ReplicationDescriptor,
        children: &Vec<usize>,
    )
        ensures
            final(self).events() == old(self).events().push(
                VisitEvent::Replication(descriptor.id),
            ),
    ;

    fn visit_operator_descriptor(&mut self, descriptor: &OperatorDescriptor)
        ensures
            final(self).events() == old(self).events().push(VisitEvent::Operator(descriptor.id)),
    ;

    fn visit_sequence_descriptor(
        &mut self,
        descriptor: &SequenceDescriptor,
        children: &Vec<usize>,
    )
        ensures
            final(self).events() == old(self).events().push(VisitEvent::Sequence(descriptor.id)),
    ;

    fn visit_replication_factor(&mut self, descriptor: &ElementDescriptor)
        ensures
            final(self).events() == old(self).events().push(
                VisitEvent::ReplicationFactor(descriptor.id),
            ),
    ;
}

/// The descriptor id an event carries.
pub open spec fn spec_event_id(e: VisitEvent) -> ID {
    match e {
        VisitEvent::Element(id) => id,
        VisitEvent::Replication(id) => id,
        VisitEvent::Operator(id) => id,
        VisitEvent::Sequence(id) => id,
        VisitEvent::ReplicationFactor(id) => id,
    }
}

/// A visitor that collects the id of every descriptor it is shown, in
/// visiting order, tagging the replication factor's id like any other
/// element.
pub struct CollectVisitor {
    pub ids: Vec<ID>,
    pub history: Ghost<Seq<VisitEvent>>,
}

impl CollectVisitor {
    /// The collected ids are exactly the ids of the recorded events.
    pub open spec fn wf(&self) -> bool {
        self.ids@ == self.history@.map_values(|e: VisitEvent| spec_event_id(e))
    }

    pub fn new() -> (r: CollectVisitor)
        ensures
            r.ids@.len() == 0,
            r.events().len() == 0,
            r.wf(),
    {
        let r = CollectVisitor { ids: Vec::new(), history: Ghost(Seq::empty()) };
        proof {
            assert(r.ids@ =~= r.history@.map_values(|e: VisitEvent| spec_event_id(e)));
        }
        r
    }
}

impl Visitor for CollectVisitor {
    open spec fn events(&self) -> Seq<VisitEvent> {
        self.history@
    }

    fn visit_element_descriptor(&mut self, descriptor: &ElementDescriptor)
        ensures
            old(self).wf() ==> final(self).wf(),
    {
        self.ids.push(descriptor.id);
        proof {
            self.history@ = self.history@.push(VisitEvent::Element(descriptor.id));
            if old(self).wf() {
                assert(self.ids@ =~= self.history@.map_values(
                    |e: VisitEvent| spec_event_id(e),
                ));
            }
        }
    }

    fn visit_replication_descriptor(
        &mut self,
        descriptor: &ReplicationDescriptor,
        children: &Vec<usize>,
    )
        ensures
            old(self).wf() ==> final(self).wf(),
    {
        self.ids.push(descriptor.id);
        proof {
            self.history@ = self.history@.push(VisitEvent::Replication(descriptor.id));
            if old(self).wf() {
                assert(self.ids@ =~= self.history@.map_values(
                    |e: VisitEvent| spec_event_id(e),
                ));
            }
        }
    }

    fn visit_operator_descriptor(&mut self, descriptor: &OperatorDescriptor)
        ensures
            old(self).wf() ==> final(self).wf(),
    {
        self.ids.push(descriptor.id);
        proof {
            self.history@ = self.history@.push(VisitEvent::Operator(descriptor.id));
            if old(self).wf() {
                assert(self.ids@ =~= self.history@.map_values(
                    |e: VisitEvent| spec_event_id(e),
                ));
            }
        }
    }

    fn visit_sequence_descriptor(
        &mut self,
        descriptor: &SequenceDescriptor,
        children: &Vec<usize>,
    )
        ensures
            old(self).wf() ==> final(self).wf(),
    {
        self.ids.push(descriptor.id);
        proof {
            self.history@ = self.history@.push(VisitEvent::Sequence(descriptor.id));
            if old(self).wf() {
                assert(self.ids@ =~= self.history@.map_values(
                    |e: VisitEvent| spec_event_id(e),
                ));
            }
        }
    }

    fn visit_replication_factor(&mut self, descriptor: &ElementDescriptor)
        ensures
            old(self).wf() ==> final(self).wf(),
    {
        self.ids.push(descriptor.id);
        proof {
            self.history@ = self.history@.push(VisitEvent::ReplicationFactor(descriptor.id));
            if old(self).wf() {
                assert(self.ids@ =~= self.history@.map_values(
                    |e: VisitEvent| spec_event_id(e),
                ));
            }
        }
    }
}

impl Template {
    /// The arena.
    pub closed spec fn spec_nodes(&self) -> Seq<Node> {
        self.nodes@
    }

    /// The unexpanded descriptor ids the template was built from.
    pub closed spec fn spec_ids(&self) -> Seq<ID> {
        self.ids@
    }

    /// The id of the bundle the template was resolved against.
    pub closed spec fn spec_table_group_id(&self) -> TableGroupId {
        self.table_group_id
    }

    /// The arena invariant; see `template_nodes_wf`.
    pub open spec fn wf(&self) -> bool {
        template_nodes_wf(self.spec_nodes())
    }

    /// Expand `unexpanded_descriptors` against `table_group` into a
    /// template: it succeeds exactly when the list expands
    /// (`spec_expansion_ok`), and the arena then holds, after the
    /// root, precisely the nodes of that expansion in order, each
    /// under its right parent. It fails on a malformed or unresolved
    /// id, on insufficient ids while filling a replication body, and
    /// on an expansion nested deeper than `MAX_EXPANSION_DEPTH`.
    pub fn new(table_group: &TableGroup, unexpanded_descriptors: &[ID]) -> (r: Result<
        Template,
        BufrKitError,
    >)
        ensures
            r is Ok <==> spec_expansion_ok(table_group, unexpanded_descriptors@),
            match r {
                Ok(t) => {
                    &&& t.wf()
                    &&& t.spec_ids() == unexpanded_descriptors@
                    &&& t.spec_table_group_id()@ == table_group.spec_id()@
                    &&& t.spec_nodes()[0].descriptor matches Descriptor::Sequence(d) && d.id == 0
                        && d.name@ == "ROOT"@
                    &&& forall|i: int|
                        1 <= i < t.spec_nodes().len() ==> descriptor_from_tables(
                            table_group,
                            (#[trigger] t.spec_nodes()[i]).descriptor,
                        )
                    &&& unexpanded_descriptors@.len() > 0 ==> t.spec_nodes().len() >= 2
                    &&& match spec_expand_list(
                        table_group,
                        unexpanded_descriptors@,
                        0,
                        1,
                        MAX_EXPANSION_DEPTH as nat,
                    ) {
                        Option::Some(app) => t.spec_nodes().len() == 1 + app.len() && arena_pairs(
                            t.spec_nodes(),
                            1,
                        ) == app,
                        Option::None => false,
                    }
                },
                Err(_) => true,
            },
    {
        let root = Node {
            descriptor: Descriptor::Sequence(
                SequenceDescriptor { id: 0, name: String::from_str("ROOT") },
            ),
            parent: None,
            children: Vec::new(),
        };
        let mut nodes: Vec<Node> = Vec::new();
        nodes.push(root);
        expand_members(table_group, &mut nodes, 0, unexpanded_descriptors, MAX_EXPANSION_DEPTH)?;
        let ids = vstd::slice::slice_to_vec(unexpanded_descriptors);
        Ok(Template { ids, table_group_id: table_group.id().duplicate(), nodes })
    }

    /// The unexpanded descriptor ids the template was built from.
    pub fn ids(&self) -> (r: &Vec<ID>)
        ensures
            r@ == self.spec_ids(),
    {
        &self.ids
    }

    /// How many nodes the arena holds, the root included.
    pub fn node_count(&self) -> (r: usize)
        ensures
            r == self.spec_nodes().len(),
    {
        self.nodes.len()
    }

    /// The node behind a handle.
    pub fn node(&self, i: usize) -> (r: &Node)
        requires
            i < self.spec_nodes().len(),
        ensures
            *r == self.spec_nodes()[i as int],
    {
        &self.nodes[i]
    }

    /// True iff every delayed replication node's first child is an
    /// element descriptor, so that a traversal finds its replication
    /// factor where it expects one.
    #[verifier::loop_isolation(false)]
    pub fn replication_factors_ok(&self) -> (r: bool)
        requires
            self.wf(),
        ensures
            r == delayed_factors_ok(self.spec_nodes()),
    {
        let mut i: usize = 0;
        while i < self.nodes.len()
            invariant
                i <= self.nodes@.len(),
                forall|j: int|
                    0 <= j < i ==> match (#[trigger] self.nodes@[j].descriptor) {
                        Descriptor::Replication(d) => (spec_y(d.id as int) == 0
                            && self.nodes@[j].children@.len() > 0) ==> (
                        self.nodes@[self.nodes@[j].children@[0] as int].descriptor
                            matches Descriptor::Element(_)),
                        _ => true,
                    },
            decreases self.nodes@.len() - i,
        {
            let node = &self.nodes[i];
            if let Descriptor::Replication(d) = &node.descriptor {
                proof {
                    assert(i >= 1);
                    assert(self.nodes@[i as int].descriptor.kind_matches_id());
                }
                if d.y() == 0 && node.children.len() > 0 {
                    proof {
                        assert(child_links_ok(self.nodes@, i as int));
                        assert(i < self.nodes@[i as int].children@[0] < self.nodes@.len());
                    }
                    let c = node.children[0];
                    if !matches!(&self.nodes[c].descriptor, Descriptor::Element(_)) {
                        return false;
                    }
                }
            }
            i = i + 1;
        }
        true
    }

    /// Drive a visitor over the whole template, depth-first, starting
    /// at the root's children: the visitor receives exactly the
    /// events of `spec_template_events`, in order; the synthetic root
    /// itself triggers no callback.
    #[verifier::loop_isolation(false)]
    pub fn accept<V: Visitor>(&self, visitor: &mut V)
        requires
            self.wf(),
            delayed_factors_ok(self.spec_nodes()),
        ensures
            final(visitor).events() == old(visitor).events() + spec_template_events(
                self.spec_nodes(),
            ),
    {
        let ghost events0 = visitor.events();
        let root_children = self.nodes[0].children.len();
        let mut k: usize = 0;
        proof {
            assert(events0 + spec_children_events(self.spec_nodes(), 0, 0, false) =~= visitor.events()
                + spec_children_events(self.spec_nodes(), 0, 0, false));
        }
        while k < root_children
            invariant
                k <= root_children,
                events0 + spec_children_events(self.spec_nodes(), 0, 0, false) == visitor.events()
                    + spec_children_events(self.spec_nodes(), 0, k as int, false),
            decreases root_children - k,
        {
            proof {
                assert(child_links_ok(self.spec_nodes(), 0));
                assert(0 < self.spec_nodes()[0].children@[k as int] < self.spec_nodes().len());
            }
            let ghost ev_pre = visitor.events();
            let c = self.nodes[0].children[k];
            self.accept_node(c, visitor);
            proof {
                assert(spec_children_events(self.spec_nodes(), 0, k as int, false)
                    == spec_node_events(self.spec_nodes(), c as int) + spec_children_events(
                    self.spec_nodes(),
                    0,
                    k + 1,
                    false,
                ));
                assert(ev_pre + (spec_node_events(self.spec_nodes(), c as int)
                    + spec_children_events(self.spec_nodes(), 0, k + 1, false)) =~= visitor.events()
                    + spec_children_events(self.spec_nodes(), 0, k + 1, false));
            }
            k = k + 1;
        }
        proof {
            assert(spec_children_events(self.spec_nodes(), 0, root_children as int, false)
                =~= Seq::<VisitEvent>::empty());
            assert(visitor.events() + Seq::<VisitEvent>::empty() =~= visitor.events());
            assert(events0 + spec_template_events(self.spec_nodes()) =~= visitor.events());
        }
    }

    /// Visit the node behind handle `i` and, depth-first, everything
    /// below it: the visitor receives exactly the events of
    /// `spec_node_events` for `i`, in order.
    #[verifier::loop_isolation(false)]
    #[verifier::rlimit(50)]
    pub fn accept_node<V: Visitor>(&self, i: usize, visitor: &mut V)
        requires
            self.wf(),
            delayed_factors_ok(self.spec_nodes()),
            1 <= i < self.spec_nodes().len(),
        ensures
            final(visitor).events() == old(visitor).events() + spec_node_events(
                self.spec_nodes(),
                i as int,
            ),
        decreases self.spec_nodes().len() - i,
    {
        let ghost events0 = visitor.events();
        let node = &self.nodes[i];
        match &node.descriptor {
            Descriptor::Element(descriptor) => {
                visitor.visit_element_descriptor(descriptor);
                proof {
                    assert(visitor.events() =~= events0 + spec_node_events(
                        self.spec_nodes(),
                        i as int,
                    ));
                }
            },
            Descriptor::Replication(descriptor) => {
                proof {
                    assert(self.spec_nodes()[i as int].descriptor.kind_matches_id());
                }
                visitor.visit_replication_descriptor(descriptor, &node.children);
                let ghost head = seq![VisitEvent::Replication(descriptor.id)];
                let n = node.children.len();
                let delayed = descriptor.y() == 0;
                let mut k: usize = 0;
                proof {
                    assert(visitor.events() =~= events0 + head);
                    assert((events0 + head) + spec_children_events(
                        self.spec_nodes(),
                        i as int,
                        0,
                        delayed,
                    ) =~= visitor.events() + spec_children_events(
                        self.spec_nodes(),
                        i as int,
                        0,
                        delayed,
                    ));
                }
                while k < n
                    invariant
                        k <= n,
                        (events0 + head) + spec_children_events(
                            self.spec_nodes(),
                            i as int,
                            0,
                            delayed,
                        ) == visitor.events() + spec_children_events(
                            self.spec_nodes(),
                            i as int,
                            k as int,
                            delayed,
                        ),
                    decreases n - k,
                {
                    proof {
                        assert(child_links_ok(self.spec_nodes(), i as int));
                        assert(i < self.spec_nodes()[i as int].children@[k as int]
                            < self.spec_nodes().len());
                    }
                    let ghost ev_pre = visitor.events();
                    let c = self.nodes[i].children[k];
                    if delayed && k == 0 {
                        proof {
                            assert(self.spec_nodes()[self.spec_nodes()[i as int].children@[0] as int].descriptor
                                matches Descriptor::Element(_));
                        }
                        self.accept_replication_factor(c, visitor);
                        proof {
                            match self.spec_nodes()[c as int].descriptor {
                                Descriptor::Element(d) => {
                                    assert(spec_children_events(
                                        self.spec_nodes(),
                                        i as int,
                                        k as int,
                                        delayed,
                                    ) == seq![VisitEvent::ReplicationFactor(d.id)]
                                        + spec_children_events(
                                        self.spec_nodes(),
                                        i as int,
                                        k + 1,
                                        delayed,
                                    ));
                                    assert(ev_pre + (seq![VisitEvent::ReplicationFactor(d.id)]
                                        + spec_children_events(
                                        self.spec_nodes(),
                                        i as int,
                                        k + 1,
                                        delayed,
                                    )) =~= visitor.events() + spec_children_events(
                                        self.spec_nodes(),
                                        i as int,
                                        k + 1,
                                        delayed,
                                    ));
                                },
                                _ => {
                                    assert(false);
                                },
                            }
                        }
                    } else {
                        self.accept_node(c, visitor);
                        proof {
                            assert(spec_children_events(
                                self.spec_nodes(),
                                i as int,
                                k as int,
                                delayed,
                            ) == spec_node_events(self.spec_nodes(), c as int)
                                + spec_children_events(
                                self.spec_nodes(),
                                i as int,
                                k + 1,
                                delayed,
                            ));
                            assert(ev_pre + (spec_node_events(self.spec_nodes(), c as int)
                                + spec_children_events(
                                self.spec_nodes(),
                                i as int,
                                k + 1,
                                delayed,
                            )) =~= visitor.events() + spec_children_events(
                                self.spec_nodes(),
                                i as int,
                                k + 1,
                                delayed,
                            ));
                        }
                    }
                    k = k + 1;
                }
                proof {
                    assert(spec_children_events(self.spec_nodes(), i as int, n as int, delayed)
                        =~= Seq::<VisitEvent>::empty());
                    assert(visitor.events() + Seq::<VisitEvent>::empty() =~= visitor.events());
                    assert(visitor.events() =~= events0 + spec_node_events(
                        self.spec_nodes(),
                        i as int,
                    ));
                }
            },
            Descriptor::Operator(descriptor) => {
                visitor.visit_operator_descriptor(descriptor);
                proof {
                    assert(visitor.events() =~= events0 + spec_node_events(
                        self.spec_nodes(),
                        i as int,
                    ));
                }
            },
            Descriptor::Sequence(descriptor) => {
                visitor.visit_sequence_descriptor(descriptor, &node.children);
                let ghost head = seq![VisitEvent::Sequence(descriptor.id)];
                let n = node.children.len();
                let mut k: usize = 0;
                proof {
                    assert(visitor.events() =~= events0 + head);
                    assert((events0 + head) + spec_children_events(
                        self.spec_nodes(),
                        i as int,
                        0,
                        false,
                    ) =~= visitor.events() + spec_children_events(
                        self.spec_nodes(),
                        i as int,
                        0,
                        false,
                    ));
                }
                while k < n
                    invariant
                        k <= n,
                        (events0 + head) + spec_children_events(
                            self.spec_nodes(),
                            i as int,
                            0,
                            false,
                        ) == visitor.events() + spec_children_events(
                            self.spec_nodes(),
                            i as int,
                            k as int,
                            false,
                        ),
                    decreases n - k,
                {
                    proof {
                        assert(child_links_ok(self.spec_nodes(), i as int));
                        assert(i < self.spec_nodes()[i as int].children@[k as int]
                            < self.spec_nodes().len());
                    }
                    let ghost ev_pre = visitor.events();
                    let c = self.nodes[i].children[k];
                    self.accept_node(c, visitor);
                    proof {
                        assert(spec_children_events(self.spec_nodes(), i as int, k as int, false)
                            == spec_node_events(self.spec_nodes(), c as int) + spec_children_events(
                            self.spec_nodes(),
                            i as int,
                            k + 1,
                            false,
                        ));
                        assert(ev_pre + (spec_node_events(self.spec_nodes(), c as int)
                            + spec_children_events(self.spec_nodes(), i as int, k + 1, false))
                            =~= visitor.events() + spec_children_events(
                            self.spec_nodes(),
                            i as int,
                            k + 1,
                            false,
                        ));
                    }
                    k = k + 1;
                }
                proof {
                    assert(spec_children_events(self.spec_nodes(), i as int, n as int, false)
                        =~= Seq::<VisitEvent>::empty());
                    assert(visitor.events() + Seq::<VisitEvent>::empty() =~= visitor.events());
                    assert(visitor.events() =~= events0 + spec_node_events(
                        self.spec_nodes(),
                        i as int,
                    ));
                }
            },
        }
    }

    /// Hand the replication factor element behind handle `c` to the
    /// visitor's distinguished callback: exactly one
    /// replication-factor event, nothing else.
    fn accept_replication_factor<V: Visitor>(&self, c: usize, visitor: &mut V)
        requires
            self.wf(),
            c < self.spec_nodes().len(),
            self.spec_nodes()[c as int].descriptor matches Descriptor::Element(_),
        ensures
            (self.spec_nodes()[c as int].descriptor matches Descriptor::Element(d)
                && final(visitor).events() == old(visitor).events().push(
                VisitEvent::ReplicationFactor(d.id),
            )),
    {
        match &self.nodes[c].descriptor {
            Descriptor::Element(descriptor) => {
                visitor.visit_replication_factor(descriptor);
            },
            _ => {
                proof {
                    assert(false);
                }
            },
        }
    }
}

/// Expand each id of `member_ids` in turn, appending the resulting
/// nodes as children of `parent`. One id may consume followers: a
/// replication body is drawn from the same list.
#[verifier::loop_isolation(false)]
fn expand_members(
    table_group: &TableGroup,
    nodes: &mut Vec<Node>,
    parent: usize,
    member_ids: &[ID],
    depth: usize,
) -> (r: Result<(), BufrKitError>)
    requires
        parent < old(nodes)@.len(),
        template_nodes_wf(old(nodes)@),
    ensures
        template_nodes_wf(final(nodes)@),
        final(nodes)@.len() >= old(nodes)@.len(),
        forall|i: int|
            0 <= i < old(nodes)@.len() ==> {
                &&& (#[trigger] final(nodes)@[i]).descriptor == old(nodes)@[i].descriptor
                &&& final(nodes)@[i].parent == old(nodes)@[i].parent
            },
        forall|i: int|
            0 <= i < old(nodes)@.len() && i != parent ==> #[trigger] final(nodes)@[i] == old(
                nodes,
            )@[i],
        old(nodes)@[parent as int].children@.is_prefix_of(final(nodes)@[parent as int].children@),
        forall|i: int|
            old(nodes)@.len() <= i < final(nodes)@.len() ==> descriptor_from_tables(
                table_group,
                (#[trigger] final(nodes)@[i]).descriptor,
            ),
        r is Ok && member_ids@.len() > 0 ==> final(nodes)@.len() > old(nodes)@.len(),
        match spec_expand_list(
            table_group,
            member_ids@,
            parent as int,
            old(nodes)@.len() as int,
            depth as nat,
        ) {
            Option::Some(app) => {
                &&& r is Ok
                &&& final(nodes)@.len() == old(nodes)@.len() + app.len()
                &&& arena_pairs(final(nodes)@, old(nodes)@.len() as int) == app
            },
            Option::None => r is Err,
        },
    decreases depth, 1int,
{
    let ghost orig = nodes@;
    let ghost full = spec_expand_list(
        table_group,
        member_ids@,
        parent as int,
        orig.len() as int,
        depth as nat,
    );
    let mut pos: usize = 0;
    proof {
        assert(member_ids@.skip(0) =~= member_ids@);
        assert(arena_pairs(orig, orig.len() as int) =~= Seq::<(int, int)>::empty());
        match full {
            Option::Some(app) => {
                assert(arena_pairs(orig, orig.len() as int) + app =~= app);
            },
            Option::None => {},
        }
    }
    while pos < member_ids.len()
        invariant
            parent < nodes@.len(),
            template_nodes_wf(nodes@),
            nodes@.len() >= orig.len(),
            forall|i: int|
                0 <= i < orig.len() ==> {
                    &&& (#[trigger] nodes@[i]).descriptor == orig[i].descriptor
                    &&& nodes@[i].parent == orig[i].parent
                },
            forall|i: int| 0 <= i < orig.len() && i != parent ==> #[trigger] nodes@[i] == orig[i],
            orig[parent as int].children@.is_prefix_of(nodes@[parent as int].children@),
            forall|i: int|
                orig.len() <= i < nodes@.len() ==> descriptor_from_tables(
                    table_group,
                    (#[trigger] nodes@[i]).descriptor,
                ),
            pos > 0 ==> nodes@.len() > orig.len(),
            pos <= member_ids@.len(),
            match spec_expand_list(
                table_group,
                member_ids@.skip(pos as int),
                parent as int,
                nodes@.len() as int,
                depth as nat,
            ) {
                Option::Some(rest) => full == Option::Some(
                    arena_pairs(nodes@, orig.len() as int) + rest,
                ),
                Option::None => full is None,
            },
        decreases member_ids@.len() - pos,
    {
        let ghost pos_pre = pos as int;
        let ghost nodes_pre = nodes@;
        match expand_one(table_group, nodes, parent, member_ids, &mut pos, depth) {
            Ok(_) => {
                proof {
                    let rem_pre = member_ids@.skip(pos_pre);
                    match spec_expand_one(
                        table_group,
                        rem_pre,
                        parent as int,
                        nodes_pre.len() as int,
                        depth as nat,
                    ) {
                        Option::Some((k, app1)) => {
                            assert(1 <= k <= rem_pre.len());
                            assert(member_ids@.skip(pos as int) =~= rem_pre.skip(k));
                            assert(arena_pairs(nodes@, orig.len() as int) =~= arena_pairs(
                                nodes_pre,
                                orig.len() as int,
                            ) + app1);
                            match spec_expand_list(
                                table_group,
                                member_ids@.skip(pos as int),
                                parent as int,
                                nodes@.len() as int,
                                depth as nat,
                            ) {
                                Option::Some(rest2) => {
                                    assert(spec_expand_list(
                                        table_group,
                                        rem_pre,
                                        parent as int,
                                        nodes_pre.len() as int,
                                        depth as nat,
                                    ) == Option::Some(app1 + rest2));
                                    assert(arena_pairs(nodes_pre, orig.len() as int) + (app1
                                        + rest2) =~= arena_pairs(nodes@, orig.len() as int)
                                        + rest2);
                                },
                                Option::None => {
                                    assert(spec_expand_list(
                                        table_group,
                                        rem_pre,
                                        parent as int,
                                        nodes_pre.len() as int,
                                        depth as nat,
                                    ) is None);
                                },
                            }
                        },
                        Option::None => {
                            assert(false);
                        },
                    }
                }
            },
            Err(e) => {
                proof {
                    let rem_pre = member_ids@.skip(pos_pre);
                    assert(spec_expand_one(
                        table_group,
                        rem_pre,
                        parent as int,
                        nodes_pre.len() as int,
                        depth as nat,
                    ) is None);
                    assert(spec_expand_list(
                        table_group,
                        rem_pre,
                        parent as int,
                        nodes_pre.len() as int,
                        depth as nat,
                    ) is None);
                }
                return Err(e);
            },
        }
    }
    proof {
        assert(member_ids@.skip(pos as int) =~= Seq::<ID>::empty());
        match full {
            Option::Some(app) => {
                assert(arena_pairs(nodes@, orig.len() as int) + Seq::<(int, int)>::empty()
                    =~= arena_pairs(nodes@, orig.len() as int));
            },
            Option::None => {},
        }
    }
    Ok(())
}

/// Consume one id (and, for a replication, its body) from
/// `member_ids` at `*pos`, resolve it against the bundle, and append
/// the resulting node, with everything below it, as the next child of
/// `parent`.
#[verifier::loop_isolation(false)]
#[verifier::rlimit(80)]
pub fn expand_one(
    table_group: &TableGroup,
    nodes: &mut Vec<Node>,
    parent: usize,
    member_ids: &[ID],
    pos: &mut usize,
    depth: usize,
) -> (r: Result<usize, BufrKitError>)
    requires
        parent < old(nodes)@.len(),
        template_nodes_wf(old(nodes)@),
        *old(pos) < member_ids@.len(),
    ensures
        template_nodes_wf(final(nodes)@),
        final(nodes)@.len() >= old(nodes)@.len(),
        forall|i: int|
            0 <= i < old(nodes)@.len() ==> {
                &&& (#[trigger] final(nodes)@[i]).descriptor == old(nodes)@[i].descriptor
                &&& final(nodes)@[i].parent == old(nodes)@[i].parent
            },
        forall|i: int|
            0 <= i < old(nodes)@.len() && i != parent ==> #[trigger] final(nodes)@[i] == old(
                nodes,
            )@[i],
        old(nodes)@[parent as int].children@.is_prefix_of(final(nodes)@[parent as int].children@),
        *old(pos) < *final(pos) <= member_ids@.len(),
        forall|i: int|
            old(nodes)@.len() <= i < final(nodes)@.len() ==> descriptor_from_tables(
                table_group,
                (#[trigger] final(nodes)@[i]).descriptor,
            ),
        r is Ok ==> final(nodes)@.len() > old(nodes)@.len(),
        match spec_expand_one(
            table_group,
            member_ids@.skip(*old(pos) as int),
            parent as int,
            old(nodes)@.len() as int,
            depth as nat,
        ) {
            Option::Some(res) => {
                &&& r is Ok
                &&& (r matches Ok(idx) && idx == old(nodes)@.len())
                &&& *final(pos) == *old(pos) + res.0
                &&& final(nodes)@.len() == old(nodes)@.len() + res.1.len()
                &&& arena_pairs(final(nodes)@, old(nodes)@.len() as int) == res.1
            },
            Option::None => r is Err,
        },
    decreases depth, 0int,
{
    let ghost orig = nodes@;
    let ghost pos0 = *old(pos) as int;
    let ghost rem = member_ids@.skip(pos0);
    proof {
        assert(rem.len() == member_ids@.len() - pos0);
        assert(rem[0] == member_ids@[pos0]);
    }
    let id = member_ids[*pos];
    *pos = *pos + 1;

    // Resolve the id, then build the node and note what its own
    // members are: a sequence expands its Table D member list; a
    // replication consumes its body from the same supplier.
    let entry = match table_group.lookup(id) {
        Ok(e) => e,
        Err(e) => {
            proof {
                assert(spec_expand_one(
                    table_group,
                    rem,
                    parent as int,
                    orig.len() as int,
                    depth as nat,
                ) is None);
            }
            return Err(e);
        },
    };
    let idx = nodes.len();
    match entry {
        Entry::B(bentry) => {
            let descriptor = Descriptor::Element(
                ElementDescriptor {
                    id,
                    name: bentry.name.clone(),
                    unit: bentry.unit.clone(),
                    scale: bentry.scale,
                    refval: bentry.refval,
                    nbits: bentry.nbits,
                },
            );
            push_linked_node(nodes, parent, descriptor);
            proof {
                assert(arena_pairs(nodes@, orig.len() as int) =~= seq![
                    (id as int, parent as int),
                ]);
            }
            Ok(idx)
        },
        Entry::C(centry) => {
            let descriptor = Descriptor::Operator(
                OperatorDescriptor { id, name: centry.name.clone() },
            );
            push_linked_node(nodes, parent, descriptor);
            proof {
                assert(arena_pairs(nodes@, orig.len() as int) =~= seq![
                    (id as int, parent as int),
                ]);
            }
            Ok(idx)
        },
        Entry::D(dentry) => {
            let descriptor = Descriptor::Sequence(
                SequenceDescriptor { id, name: dentry.name.clone() },
            );
            push_linked_node(nodes, parent, descriptor);
            if depth == 0 {
                return Err(too_deep_error());
            }
            let ghost mid = nodes@;
            match expand_members(table_group, nodes, idx, dentry.members.as_slice(), depth - 1) {
                Ok(_) => {
                    proof {
                        match spec_expand_list(
                            table_group,
                            dentry.members@,
                            idx as int,
                            mid.len() as int,
                            (depth - 1) as nat,
                        ) {
                            Option::Some(app) => {
                                assert(arena_pairs(nodes@, orig.len() as int) =~= seq![
                                    (id as int, parent as int),
                                ] + app);
                            },
                            Option::None => {
                                assert(false);
                            },
                        }
                    }
                    Ok(idx)
                },
                Err(e) => {
                    proof {
                        assert(spec_expand_one(
                            table_group,
                            rem,
                            parent as int,
                            orig.len() as int,
                            depth as nat,
                        ) is None);
                    }
                    Err(e)
                },
            }
        },
        Entry::R(rentry) => {
            let descriptor = Descriptor::Replication(ReplicationDescriptor { id });
            let n_repeats = rentry.n_repeats();
            let n_members: usize = (rentry.n_members() + if n_repeats == 0 {
                1
            } else {
                0
            }) as usize;
            let ghost spec_n = crate::table::descriptor::spec_x(id as int) + (if spec_y(
                id as int,
            ) == 0 {
                1int
            } else {
                0int
            });
            assert(n_members as int == spec_n);
            push_linked_node(nodes, parent, descriptor);
            if depth == 0 {
                return Err(too_deep_error());
            }
            let ghost mid = nodes@;
            let ghost body_start = *pos as int;
            let ghost cnt_full = spec_expand_count(
                table_group,
                rem.skip(1),
                spec_n,
                idx as int,
                mid.len() as int,
                (depth - 1) as nat,
            );
            let mut k: usize = 0;
            proof {
                assert(member_ids@.skip(body_start) =~= rem.skip(1));
                assert(arena_pairs(nodes@, mid.len() as int) =~= Seq::<(int, int)>::empty());
                match cnt_full {
                    Option::Some((kf, appf)) => {
                        assert(Seq::<(int, int)>::empty() + appf =~= appf);
                    },
                    Option::None => {},
                }
            }
            while k < n_members
                invariant
                    k <= n_members,
                    body_start == pos0 + 1,
                    body_start <= *pos <= member_ids@.len(),
                    idx < mid.len() <= nodes@.len(),
                    template_nodes_wf(nodes@),
                    forall|i: int|
                        0 <= i < mid.len() ==> {
                            &&& (#[trigger] nodes@[i]).descriptor == mid[i].descriptor
                            &&& nodes@[i].parent == mid[i].parent
                        },
                    forall|i: int|
                        0 <= i < mid.len() && i != idx ==> #[trigger] nodes@[i] == mid[i],
                    mid[idx as int].children@.is_prefix_of(nodes@[idx as int].children@),
                    forall|i: int|
                        orig.len() <= i < nodes@.len() ==> descriptor_from_tables(
                            table_group,
                            (#[trigger] nodes@[i]).descriptor,
                        ),
                    match spec_expand_count(
                        table_group,
                        member_ids@.skip(*pos as int),
                        spec_n - k,
                        idx as int,
                        nodes@.len() as int,
                        (depth - 1) as nat,
                    ) {
                        Option::Some((k2, rest)) => cnt_full == Option::Some(
                            (
                                (*pos - body_start) + k2,
                                arena_pairs(nodes@, mid.len() as int) + rest,
                            ),
                        ),
                        Option::None => cnt_full is None,
                    },
                decreases n_members - k,
            {
                if *pos >= member_ids.len() {
                    proof {
                        assert(member_ids@.skip(*pos as int) =~= Seq::<ID>::empty());
                        assert(spec_expand_one(
                            table_group,
                            rem,
                            parent as int,
                            orig.len() as int,
                            depth as nat,
                        ) is None);
                    }
                    return Err(insufficient_ids_error());
                }
                let ghost pos_pre = *pos as int;
                let ghost nodes_pre = nodes@;
                match expand_one(table_group, nodes, idx, member_ids, pos, depth - 1) {
                    Ok(_) => {
                        proof {
                            let rem_pre = member_ids@.skip(pos_pre);
                            match spec_expand_one(
                                table_group,
                                rem_pre,
                                idx as int,
                                nodes_pre.len() as int,
                                (depth - 1) as nat,
                            ) {
                                Option::Some((k1, app1)) => {
                                    assert(1 <= k1 <= rem_pre.len());
                                    assert(member_ids@.skip(*pos as int) =~= rem_pre.skip(k1));
                                    assert(arena_pairs(nodes@, mid.len() as int) =~= arena_pairs(
                                        nodes_pre,
                                        mid.len() as int,
                                    ) + app1);
                                    match spec_expand_count(
                                        table_group,
                                        member_ids@.skip(*pos as int),
                                        spec_n - (k + 1),
                                        idx as int,
                                        nodes@.len() as int,
                                        (depth - 1) as nat,
                                    ) {
                                        Option::Some((k2, rest2)) => {
                                            assert(spec_expand_count(
                                                table_group,
                                                rem_pre,
                                                spec_n - k,
                                                idx as int,
                                                nodes_pre.len() as int,
                                                (depth - 1) as nat,
                                            ) == Option::Some((k1 + k2, app1 + rest2)));
                                            assert(arena_pairs(nodes_pre, mid.len() as int) + (
                                            app1 + rest2) =~= arena_pairs(
                                                nodes@,
                                                mid.len() as int,
                                            ) + rest2);
                                        },
                                        Option::None => {
                                            assert(spec_expand_count(
                                                table_group,
                                                rem_pre,
                                                spec_n - k,
                                                idx as int,
                                                nodes_pre.len() as int,
                                                (depth - 1) as nat,
                                            ) is None);
                                        },
                                    }
                                },
                                Option::None => {
                                    assert(false);
                                },
                            }
                        }
                    },
                    Err(e) => {
                        proof {
                            let rem_pre = member_ids@.skip(pos_pre);
                            assert(spec_expand_one(
                                table_group,
                                rem_pre,
                                idx as int,
                                nodes_pre.len() as int,
                                (depth - 1) as nat,
                            ) is None);
                            assert(spec_expand_count(
                                table_group,
                                rem_pre,
                                spec_n - k,
                                idx as int,
                                nodes_pre.len() as int,
                                (depth - 1) as nat,
                            ) is None);
                            assert(spec_expand_one(
                                table_group,
                                rem,
                                parent as int,
                                orig.len() as int,
                                depth as nat,
                            ) is None);
                        }
                        return Err(e);
                    },
                }
                k = k + 1;
            }
            proof {
                match spec_expand_count(
                    table_group,
                    member_ids@.skip(*pos as int),
                    0,
                    idx as int,
                    nodes@.len() as int,
                    (depth - 1) as nat,
                ) {
                    Option::Some((k2, rest)) => {
                        assert(k2 == 0 && rest =~= Seq::<(int, int)>::empty());
                        assert(arena_pairs(nodes@, mid.len() as int) + rest =~= arena_pairs(
                            nodes@,
                            mid.len() as int,
                        ));
                    },
                    Option::None => {
                        assert(false);
                    },
                }
                match cnt_full {
                    Option::Some((kf, appf)) => {
                        assert(arena_pairs(nodes@, orig.len() as int) =~= seq![
                            (id as int, parent as int),
                        ] + appf);
                    },
                    Option::None => {
                        assert(false);
                    },
                }
            }
            Ok(idx)
        },
    }
}

/// Append a fresh leaf node for `descriptor` under `parent`: the node
/// joins the arena and, at once, its parent's child list, so the
/// arena invariant never lapses.
fn push_linked_node(nodes: &mut Vec<Node>, parent: usize, descriptor: Descriptor)
    requires
        parent < old(nodes)@.len(),
        template_nodes_wf(old(nodes)@),
        descriptor.kind_matches_id(),
    ensures
        template_nodes_wf(final(nodes)@),
        final(nodes)@.len() == old(nodes)@.len() + 1,
        forall|i: int|
            0 <= i < old(nodes)@.len() ==> {
                &&& (#[trigger] final(nodes)@[i]).descriptor == old(nodes)@[i].descriptor
                &&& final(nodes)@[i].parent == old(nodes)@[i].parent
            },
        forall|i: int|
            0 <= i < old(nodes)@.len() && i != parent ==> #[trigger] final(nodes)@[i] == old(
                nodes,
            )@[i],
        final(nodes)@[parent as int].children@ == old(nodes)@[parent as int].children@.push(
            old(nodes)@.len() as usize,
        ),
        final(nodes)@.last().descriptor == descriptor,
        final(nodes)@.last().parent == Option::Some(parent),
        final(nodes)@.last().children@.len() == 0,
{
    let ghost orig = nodes@;
    let idx = nodes.len();
    let node = Node { descriptor, parent: Some(parent), children: Vec::new() };
    nodes.push(node);
    nodes[parent].children.push(idx);
    proof {
        let fin = nodes@;
        assert(fin.len() == orig.len() + 1);
        assert(fin[idx as int].parent == Option::Some(parent));
        assert(fin[parent as int].children@ == orig[parent as int].children@.push(idx));
        assert forall|i: int| 0 <= i < fin.len() implies #[trigger] child_links_ok(fin, i) by {
            if i == parent {
                assert forall|k: int| 0 <= k < fin[i].children@.len() implies {
                    &&& i < #[trigger] fin[i].children@[k] < fin.len()
                    &&& fin[fin[i].children@[k] as int].parent == Option::Some(i as usize)
                } by {
                    if k < fin[i].children@.len() - 1 {
                        assert(fin[i].children@[k] == orig[i].children@[k]);
                        assert(child_links_ok(orig, i));
                        let c = orig[i].children@[k];
                        assert(i < c < orig.len());
                        assert(fin[c as int].parent == orig[c as int].parent);
                    } else {
                        assert(fin[i].children@[k] == idx);
                    }
                }
                assert forall|k1: int, k2: int|
                    #![trigger fin[i].children@[k1], fin[i].children@[k2]]
                    0 <= k1 < k2 < fin[i].children@.len() implies fin[i].children@[k1]
                    < fin[i].children@[k2] by {
                    assert(child_links_ok(orig, i));
                    if k2 < fin[i].children@.len() - 1 {
                        assert(fin[i].children@[k1] == orig[i].children@[k1]);
                        assert(fin[i].children@[k2] == orig[i].children@[k2]);
                    } else {
                        assert(fin[i].children@[k1] == orig[i].children@[k1]);
                        assert(orig[i].children@[k1] < orig.len());
                        assert(fin[i].children@[k2] == idx);
                    }
                }
            } else if i == idx {
                assert(fin[i].children@.len() == 0);
            } else {
                assert(child_links_ok(orig, i));
                assert(fin[i].children@ == orig[i].children@);
                assert forall|k: int| 0 <= k < fin[i].children@.len() implies {
                    &&& i < #[trigger] fin[i].children@[k] < fin.len()
                    &&& fin[fin[i].children@[k] as int].parent == Option::Some(i as usize)
                } by {
                    let c = orig[i].children@[k];
                    assert(i < c < orig.len());
                    assert(fin[c as int].parent == orig[c as int].parent);
                }
            }
        }
        assert forall|i: int| 0 <= i < fin.len() implies #[trigger] parent_link_ok(fin, i) by {
            if i == idx {
                assert(fin[parent as int].children@.last() == idx);
                assert(fin[parent as int].children@.contains(i as usize));
            } else {
                assert(parent_link_ok(orig, i));
                match orig[i].parent {
                    Option::Some(p) => {
                        assert(orig[p as int].children@.contains(i as usize));
                        if p == parent {
                            lemma_push_preserves_contains(
                                orig[p as int].children@,
                                idx,
                                i as usize,
                            );
                        } else {
                            assert(fin[p as int].children@ == orig[p as int].children@);
                        }
                        assert(fin[p as int].children@.contains(i as usize));
                    },
                    Option::None => {},
                }
            }
        }
    }
}

/// The error for an expansion that nests deeper than
/// `MAX_EXPANSION_DEPTH`.
fn too_deep_error() -> (r: BufrKitError) {
    proof {
        reveal_strlit("descriptor expansion nested too deeply");
    }
    BufrKitError::new(String::from_str("descriptor expansion nested too deeply"))
}

/// The error for a replication body that runs out of ids.
fn insufficient_ids_error() -> (r: BufrKitError) {
    proof {
        reveal_strlit("insufficient IDs");
    }
    BufrKitError::new(String::from_str("insufficient IDs"))
}

} // verus!
