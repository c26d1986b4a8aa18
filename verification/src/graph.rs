//! A minimal undirected weighted graph: an adjacency table from node names to
//! lists of (neighbour, weight) pairs, behind a small graph capability trait.
//!
//! The table is an association list in insertion order with unique keys; each
//! undirected edge is recorded once in the row of each endpoint.

use vstd::prelude::*;

verus! {

broadcast use vstd::string::group_string_axioms;

/// The mathematical value of an adjacency table: for each node in insertion
/// order, its name and its list of (neighbour name, weight) pairs.
pub type TableView = Seq<(Seq<char>, Seq<(Seq<char>, int)>)>;

/// The error value for operations that look up a node the graph does not
/// hold.
#[derive(Debug, Clone)]
pub struct NodeNotInGraph;

impl NodeNotInGraph {
    /// The diagnostic text this error renders as.
    pub fn message(&self) -> (r: String)
        ensures
            r@ == "accessing a node that is not in the graph"@,
    {
        "accessing a node that is not in the graph".to_string()
    }
}

/// An adjacency table: one row per node, holding the node's name and its
/// list of (neighbour, weight) pairs, in insertion order.
pub struct AdjacencyTable {
    pub entries: Vec<(String, Vec<(String, i32)>)>,
}

impl View for AdjacencyTable {
    type V = TableView;

    open spec fn view(&self) -> TableView {
        self.entries@.map(
            |i: int, e: (String, Vec<(String, i32)>)|
                (e.0@, e.1@.map(|j: int, p: (String, i32)| (p.0@, p.1 as int))),
        )
    }
}

/// The table holds a row for a node of this name.
pub open spec fn table_contains(t: TableView, name: Seq<char>) -> bool {
    exists|i: int| 0 <= i < t.len() && (#[trigger] t[i].0) == name
}

/// The index of the row of this name (any such index: with unique keys there
/// is at most one).
pub open spec fn index_of(t: TableView, name: Seq<char>) -> int {
    choose|i: int| 0 <= i < t.len() && (#[trigger] t[i].0) == name
}

impl AdjacencyTable {
    /// Well-formedness: no two rows share a name.
    pub open spec fn wf(&self) -> bool {
        forall|i: int, j: int|
            0 <= i < j < self@.len() ==> (#[trigger] self@[i].0) != (#[trigger] self@[j].0)
    }

    /// The empty table.
    pub fn new() -> (t: Self)
        ensures
            t.wf(),
            t@ == TableView::empty(),
    {
        let t = AdjacencyTable { entries: Vec::new() };
        proof {
            assert(t@ =~= TableView::empty());
        }
        t
    }

    /// The index of the row named `name`, if the table has one.
    fn find(&self, name: &String) -> (r: Option<usize>)
        ensures
            match r {
                Some(i) => i < self@.len() && self@[i as int].0 == name@,
                None => !table_contains(self@, name@),
            },
    {
        let mut i: usize = 0;
        while i < self.entries.len()
            invariant
                i <= self.entries@.len(),
                forall|k: int| 0 <= k < i ==> (#[trigger] self@[k].0) != name@,
            decreases self.entries@.len() - i,
        {
            if self.entries[i].0 == *name {
                return Some(i);
            }
            i = i + 1;
        }
        None
    }

    /// Appends a row for `name` with no neighbours yet. The name must be
    /// absent, so that keys stay unique.
    fn push_row(&mut self, name: String)
        requires
            old(self).wf(),
            !table_contains(old(self)@, name@),
        ensures
            final(self).wf(),
            final(self)@ == old(self)@.push((name@, Seq::<(Seq<char>, int)>::empty())),
    {
        self.entries.push((name, Vec::new()));
        proof {
            assert(self@ =~~= old(self)@.push((name@, Seq::<(Seq<char>, int)>::empty())));
            assert forall|i: int, j: int| 0 <= i < j < self@.len() implies (#[trigger] self@[i].0)
                != (#[trigger] self@[j].0) by {
                if j == old(self)@.len() {
                    assert(self@[i].0 == old(self)@[i].0);
                }
            }
        }
    }

    /// Appends the pair `(nb, w)` to the row at index `i`.
    fn push_neighbor(&mut self, i: usize, nb: String, w: i32)
        requires
            old(self).wf(),
            i < old(self)@.len(),
        ensures
            final(self).wf(),
            final(self)@ == old(self)@.update(
                i as int,
                (old(self)@[i as int].0, old(self)@[i as int].1.push((nb@, w as int))),
            ),
    {
        self.entries[i].1.push((nb, w));
        proof {
            assert(self@ =~~= old(self)@.update(
                i as int,
                (old(self)@[i as int].0, old(self)@[i as int].1.push((nb@, w as int))),
            ));
            assert forall|k: int, l: int| 0 <= k < l < self@.len() implies (#[trigger] self@[k].0)
                != (#[trigger] self@[l].0) by {
                assert(self@[k].0 == old(self)@[k].0);
                assert(self@[l].0 == old(self)@[l].0);
            }
        }
    }
}

/// `t` with a row for `name` appended if it has none.
pub open spec fn spec_ensure_node(t: TableView, name: Seq<char>) -> TableView {
    if table_contains(t, name) {
        t
    } else {
        t.push((name, Seq::<(Seq<char>, int)>::empty()))
    }
}

/// `t` with `(nb, w)` appended to the row of `name` (which must be present).
pub open spec fn spec_push_neighbor(t: TableView, name: Seq<char>, nb: Seq<char>, w: int) -> TableView {
    let i = index_of(t, name);
    t.update(i, (t[i].0, t[i].1.push((nb, w))))
}

/// The table after inserting the undirected edge `(from, to, w)`: both
/// endpoints are ensured present, then the pair is recorded in the row of
/// each endpoint.
pub open spec fn spec_add_edge(t: TableView, from: Seq<char>, to: Seq<char>, w: int) -> TableView {
    let ensured = spec_ensure_node(spec_ensure_node(t, from), to);
    spec_push_neighbor(spec_push_neighbor(ensured, from, to, w), to, from, w)
}

/// The (name, neighbour, weight) triples recorded in one row.
pub open spec fn row_edges(e: (Seq<char>, Seq<(Seq<char>, int)>)) -> Seq<(Seq<char>, Seq<char>, int)> {
    e.1.map(|j: int, p: (Seq<char>, int)| (e.0, p.0, p.1))
}

/// Every triple of the table, row by row in insertion order.
pub open spec fn edges_of(t: TableView) -> Seq<(Seq<char>, Seq<char>, int)>
    decreases t.len(),
{
    if t.len() == 0 {
        Seq::empty()
    } else {
        row_edges(t[0]) + edges_of(t.skip(1))
    }
}

/// The mathematical value of a vector of (from, to, weight) triples.
pub open spec fn triples_view(s: Seq<(String, String, i32)>) -> Seq<(Seq<char>, Seq<char>, int)> {
    s.map(|k: int, e: (String, String, i32)| (e.0@, e.1@, e.2 as int))
}

/// Ensuring a node makes the table hold it, and keeps every node the table
/// already held.
proof fn lemma_ensure_node_contains(t: TableView, name: Seq<char>, other: Seq<char>)
    ensures
        table_contains(spec_ensure_node(t, name), name),
        table_contains(t, other) ==> table_contains(spec_ensure_node(t, name), other),
{
    if !table_contains(t, name) {
        assert(t.push((name, Seq::<(Seq<char>, int)>::empty()))[t.len() as int].0 == name);
    }
    if table_contains(t, other) {
        let i = choose|i: int| 0 <= i < t.len() && (#[trigger] t[i].0) == other;
        assert(spec_ensure_node(t, name)[i].0 == other);
    }
}

/// Appending a row appends its triples after those of the rows before it.
proof fn lemma_edges_of_push(t: TableView, e: (Seq<char>, Seq<(Seq<char>, int)>))
    ensures
        edges_of(t.push(e)) == edges_of(t) + row_edges(e),
    decreases t.len(),
{
    if t.len() == 0 {
        assert(t.push(e)[0] == e);
        assert(t.push(e).skip(1) =~= TableView::empty());
        assert(edges_of(t) =~= Seq::<(Seq<char>, Seq<char>, int)>::empty());
        assert(edges_of(t.push(e).skip(1)) =~= Seq::<(Seq<char>, Seq<char>, int)>::empty());
        assert(edges_of(t.push(e)) == row_edges(t.push(e)[0]) + edges_of(t.push(e).skip(1)));
        assert(edges_of(t.push(e)) =~= edges_of(t) + row_edges(e));
    } else {
        lemma_edges_of_push(t.skip(1), e);
        assert(t.push(e).skip(1) =~= t.skip(1).push(e));
        assert(t.push(e)[0] == t[0]);
        assert(edges_of(t.push(e)) =~= edges_of(t) + row_edges(e));
    }
}

/// The graph capability: node insertion, undirected weighted edge insertion,
/// membership, and enumeration of nodes and edges, backed by an adjacency
/// table.
pub trait Graph: Sized {
    /// The backing adjacency table, for specification purposes.
    spec fn table(&self) -> AdjacencyTable;

    /// A graph with an empty adjacency table.
    fn new() -> (g: Self)
        ensures
            g.table().wf(),
            g.table()@ == TableView::empty(),
    ;

    /// Shared access to the backing adjacency table.
    fn adjacency_table(&self) -> (t: &AdjacencyTable)
        ensures
            *t == self.table(),
    ;

    /// Exclusive access to the backing adjacency table.
    fn adjacency_table_mutable(&mut self) -> (t: &mut AdjacencyTable)
        ensures
            *t == old(self).table(),
            final(self).table() == *final(t),
    ;

    /// Adds a node named `node` with no neighbours and reports whether it was
    /// added; when the name is already present nothing changes.
    fn add_node(&mut self, node: &str) -> (added: bool)
        requires
            old(self).table().wf(),
        ensures
            final(self).table().wf(),
            added == !table_contains(old(self).table()@, node@),
            final(self).table()@ == spec_ensure_node(old(self).table()@, node@),
    ;

    /// Inserts the undirected edge `(from, to, weight)`: both endpoints are
    /// added if missing, then the pair is recorded in the row of each.
    fn add_edge(&mut self, edge: (&str, &str, i32))
        requires
            old(self).table().wf(),
        ensures
            final(self).table().wf(),
            final(self).table()@ == spec_add_edge(
                old(self).table()@,
                edge.0@,
                edge.1@,
                edge.2 as int,
            ),
    ;

    /// Whether the graph holds a node of this name.
    fn contains(&self, node: &str) -> (r: bool)
        ensures
            r == table_contains(self.table()@, node@),
    ;

    /// The names of all nodes, in insertion order.
    fn nodes(&self) -> (r: Vec<String>)
        ensures
            r@.len() == self.table()@.len(),
            forall|i: int| 0 <= i < r@.len() ==> (#[trigger] r@[i]@) == self.table()@[i].0,
    ;

    /// Every recorded (from, to, weight) triple, row by row in insertion
    /// order; an undirected edge appears once in the row of each endpoint.
    fn edges(&self) -> (r: Vec<(String, String, i32)>)
        ensures
            triples_view(r@) == edges_of(self.table()@),
    ;
}

/// An undirected weighted graph backed by one adjacency table.
pub struct UndirectedGraph {
    pub adjacency_table: AdjacencyTable,
}

impl Graph for UndirectedGraph {
    open spec fn table(&self) -> AdjacencyTable {
        self.adjacency_table
    }

    fn new() -> (g: UndirectedGraph) {
        UndirectedGraph { adjacency_table: AdjacencyTable::new() }
    }

    fn adjacency_table(&self) -> (t: &AdjacencyTable) {
        &self.adjacency_table
    }

    fn adjacency_table_mutable(&mut self) -> (t: &mut AdjacencyTable) {
        &mut self.adjacency_table
    }

    fn add_node(&mut self, node: &str) -> (added: bool) {
        let key = node.to_string();
        match self.adjacency_table.find(&key) {
            Some(_) => false,
            None => {
                self.adjacency_table.push_row(key);
                true
            },
        }
    }

    fn add_edge(&mut self, edge: (&str, &str, i32)) {
        let (from, to, weight) = edge;
        let ghost t0 = self.adjacency_table@;
        self.add_node(from);
        let ghost t1 = self.adjacency_table@;
        self.add_node(to);
        let ghost ensured = self.adjacency_table@;
        proof {
            lemma_ensure_node_contains(t0, from@, from@);
            lemma_ensure_node_contains(t1, to@, from@);
            lemma_ensure_node_contains(t1, to@, to@);
        }

        let from_key = from.to_string();
        let i_from = match self.adjacency_table.find(&from_key) {
            Some(i) => i,
            None => {
                proof {
                    assert(false);
                }
                vstd::pervasive::unreached()
            },
        };
        proof {
            lemma_index_of_agrees(self.adjacency_table@, from@, i_from as int);
        }
        self.adjacency_table.push_neighbor(i_from, to.to_string(), weight);
        proof {
            assert(self.adjacency_table@ == spec_push_neighbor(ensured, from@, to@, weight as int));
            let k = choose|k: int| 0 <= k < ensured.len() && (#[trigger] ensured[k].0) == to@;
            assert(self.adjacency_table@[k].0 == to@);
            assert(table_contains(self.adjacency_table@, to@));
        }

        let to_key = to.to_string();
        let i_to = match self.adjacency_table.find(&to_key) {
            Some(i) => i,
            None => {
                proof {
                    assert(false);
                }
                vstd::pervasive::unreached()
            },
        };
        proof {
            lemma_index_of_agrees(self.adjacency_table@, to@, i_to as int);
        }
        self.adjacency_table.push_neighbor(i_to, from.to_string(), weight);
        proof {
            assert(self.adjacency_table@ == spec_push_neighbor(
                spec_push_neighbor(ensured, from@, to@, weight as int),
                to@,
                from@,
                weight as int,
            ));
        }
    }

    fn contains(&self, node: &str) -> (r: bool) {
        let key = node.to_string();
        match self.adjacency_table.find(&key) {
            Some(_) => true,
            None => false,
        }
    }

    fn nodes(&self) -> (r: Vec<String>) {
        let mut result: Vec<String> = Vec::new();
        let mut i: usize = 0;
        while i < self.adjacency_table.entries.len()
            invariant
                i <= self.adjacency_table.entries@.len(),
                result@.len() == i,
                forall|k: int|
                    0 <= k < i ==> (#[trigger] result@[k]@) == self.adjacency_table@[k].0,
            decreases self.adjacency_table.entries@.len() - i,
        {
            result.push(self.adjacency_table.entries[i].0.clone());
            i = i + 1;
        }
        result
    }

    fn edges(&self) -> (r: Vec<(String, String, i32)>) {
        let mut result: Vec<(String, String, i32)> = Vec::new();
        proof {
            assert(self.adjacency_table@.take(0) =~= TableView::empty());
            assert(triples_view(result@) =~= edges_of(self.adjacency_table@.take(0)));
        }
        let mut i: usize = 0;
        while i < self.adjacency_table.entries.len()
            invariant
                i <= self.adjacency_table.entries@.len(),
                triples_view(result@) == edges_of(self.adjacency_table@.take(i as int)),
            decreases self.adjacency_table.entries@.len() - i,
        {
            let ghost row = self.adjacency_table@[i as int];
            let mut j: usize = 0;
            while j < self.adjacency_table.entries[i].1.len()
                invariant
                    i < self.adjacency_table.entries@.len(),
                    row == self.adjacency_table@[i as int],
                    j <= self.adjacency_table@[i as int].1.len(),
                    triples_view(result@) == edges_of(self.adjacency_table@.take(i as int))
                        + row_edges(self.adjacency_table@[i as int]).take(j as int),
                decreases self.adjacency_table@[i as int].1.len() - j,
            {
                let ghost pre = result@;
                let from_name = self.adjacency_table.entries[i].0.clone();
                let pair = &self.adjacency_table.entries[i].1[j];
                let to_name = pair.0.clone();
                let w = pair.1;
                result.push((from_name, to_name, w));
                proof {
                    assert(triples_view(result@) =~= triples_view(pre) + seq![
                        (row.0, row.1[j as int].0, row.1[j as int].1),
                    ]);
                    assert(row_edges(row)[j as int] == (row.0, row.1[j as int].0, row.1[
                        j as int].1));
                    assert(row_edges(row).take(j + 1) =~= row_edges(row).take(j as int) + seq![
                        row_edges(row)[j as int],
                    ]);
                    assert(triples_view(result@) =~= edges_of(self.adjacency_table@.take(i as int))
                        + row_edges(self.adjacency_table@[i as int]).take(j + 1));
                }
                j = j + 1;
            }
            proof {
                assert(row_edges(row).take(row.1.len() as int) =~= row_edges(row));
                assert(self.adjacency_table@.take(i + 1) =~= self.adjacency_table@.take(
                    i as int,
                ).push(row));
                lemma_edges_of_push(self.adjacency_table@.take(i as int), row);
                assert(triples_view(result@) =~= edges_of(self.adjacency_table@.take(i + 1)));
            }
            i = i + 1;
        }
        proof {
            assert(self.adjacency_table@.take(self.adjacency_table@.len() as int)
                =~= self.adjacency_table@);
        }
        result
    }
}

/// With unique keys, any row index whose name matches is the one `index_of`
/// names.
proof fn lemma_index_of_agrees(t: TableView, name: Seq<char>, i: int)
    requires
        forall|k: int, l: int| 0 <= k < l < t.len() ==> (#[trigger] t[k].0) != (#[trigger] t[l].0),
        0 <= i < t.len(),
        t[i].0 == name,
    ensures
        index_of(t, name) == i,
{
    assert(table_contains(t, name));
    let j = index_of(t, name);
    assert(0 <= j < t.len() && t[j].0 == name);
    if j < i {
        assert(t[j].0 != t[i].0);
    } else if i < j {
        assert(t[i].0 != t[j].0);
    }
}

} // verus!
