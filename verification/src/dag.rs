//! A build graph of two kinds of vertices.
//!
//! Nodes are actions and values are artifacts. A node lists the values it
//! reads and the values it makes, in the order in which they were declared.
//! There is no edge from node to node or from value to value: two nodes are
//! related only through a value that both of them list.
//!
//! The graph knows nothing about its payloads but how to render them: a node
//! as a shell command, a value as a file path. From these it writes a makefile,
//! one rule for each node.

use vstd::prelude::*;

verus! {

/// An action that can be written down as one line of shell.
pub trait ToShellString {
    /// The command line of this action.
    spec fn shell_view(&self) -> Seq<char>;

    /// Renders the command line of this action.
    fn to_shell_string(&self) -> (s: String)
        ensures
            s@ == self.shell_view(),
    ;
}

/// An artifact that lives in a file.
pub trait ToFilePath {
    /// The path of the file.
    spec fn path_view(&self) -> Seq<char>;

    /// Renders the path of the file.
    fn to_file_path(&self) -> (s: String)
        ensures
            s@ == self.path_view(),
    ;
}

/// A string is its own command line.
impl ToShellString for String {
    open spec fn shell_view(&self) -> Seq<char> {
        self@
    }

    fn to_shell_string(&self) -> (s: String) {
        self.clone()
    }
}

/// A string is its own path.
impl ToFilePath for String {
    open spec fn path_view(&self) -> Seq<char> {
        self@
    }

    fn to_file_path(&self) -> (s: String) {
        self.clone()
    }
}

/// The handle of a value of one graph.
#[derive(Copy, Clone, Debug, PartialEq, Eq, PartialOrd, Ord, Hash)]
pub struct DagValueId(usize);

/// The handle of a node of one graph.
#[derive(Copy, Clone, Debug, PartialEq, Eq, PartialOrd, Ord, Hash)]
pub struct DagNodeId(usize);

impl DagValueId {
    /// The place of the value among the values of its graph, counted in the
    /// order in which they were added.
    pub closed spec fn index(self) -> nat {
        self.0 as nat
    }
}

impl DagNodeId {
    /// The place of the node among the nodes of its graph, counted in the
    /// order in which they were added.
    pub closed spec fn index(self) -> nat {
        self.0 as nat
    }
}

/// A node as stored: its payload and the values it lists.
struct Node<T> {
    payload: T,
    inputs: Vec<DagValueId>,
    outputs: Vec<DagValueId>,
}

/// What a graph holds of one node.
pub ghost struct NodeView<T> {
    pub payload: T,
    pub inputs: Seq<DagValueId>,
    pub outputs: Seq<DagValueId>,
}

/// What a graph holds: its nodes and its values, each in the order in which
/// they were added.
pub ghost struct DagView<T, I> {
    pub nodes: Seq<NodeView<T>>,
    pub values: Seq<I>,
}

impl<T, I> DagView<T, I> {
    /// Whether `node` is the handle of a node of this graph.
    pub open spec fn has_node(self, node: DagNodeId) -> bool {
        node.index() < self.nodes.len()
    }

    /// Whether `value` is the handle of a value of this graph.
    pub open spec fn has_value(self, value: DagValueId) -> bool {
        value.index() < self.values.len()
    }

    /// Whether every value that a node lists is a value of this graph.
    pub open spec fn closed_under_references(self) -> bool {
        forall|n: int, k: int|
            #![trigger self.nodes[n].inputs[k]]
            #![trigger self.nodes[n].outputs[k]]
            0 <= n < self.nodes.len() ==> {
                &&& (0 <= k < self.nodes[n].inputs.len() ==> self.has_value(
                    self.nodes[n].inputs[k],
                ))
                &&& (0 <= k < self.nodes[n].outputs.len() ==> self.has_value(
                    self.nodes[n].outputs[k],
                ))
            }
    }
}

/// The file paths of the values `ids`, each followed by a space.
pub open spec fn paths_text<I: ToFilePath>(values: Seq<I>, ids: Seq<DagValueId>) -> Seq<char>
    decreases ids.len(),
{
    if ids.len() == 0 {
        Seq::empty()
    } else {
        paths_text(values, ids.drop_last()) + values[ids.last().index() as int].path_view()
            + seq![' ']
    }
}

/// The rule of one node: a line of targets and prerequisites, and below it,
/// behind a tab, the command.
pub open spec fn rule_text<T: ToShellString, I: ToFilePath>(
    node: NodeView<T>,
    values: Seq<I>,
) -> Seq<char> {
    paths_text(values, node.outputs) + seq![':', ' '] + paths_text(values, node.inputs)
        + seq!['\n', '\t'] + node.payload.shell_view() + seq!['\n']
}

/// The rules of `nodes`, one after the other.
pub open spec fn rules_text<T: ToShellString, I: ToFilePath>(
    nodes: Seq<NodeView<T>>,
    values: Seq<I>,
) -> Seq<char>
    decreases nodes.len(),
{
    if nodes.len() == 0 {
        Seq::empty()
    } else {
        rules_text(nodes.drop_last(), values) + rule_text(nodes.last(), values)
    }
}

/// A build graph with node payloads of type `T` and value payloads of type
/// `I`.
pub struct Dag<T, I> {
    nodes: Vec<Node<T>>,
    values: Vec<I>,
}

impl<T> Node<T> {
    spec fn view(&self) -> NodeView<T> {
        NodeView { payload: self.payload, inputs: self.inputs@, outputs: self.outputs@ }
    }
}

impl<T, I> View for Dag<T, I> {
    type V = DagView<T, I>;

    closed spec fn view(&self) -> DagView<T, I> {
        DagView {
            nodes: Seq::new(self.nodes@.len(), |n: int| self.nodes@[n].view()),
            values: self.values@,
        }
    }
}

impl<T, I> Dag<T, I> {
    /// The invariant of a graph: its nodes list only its own values. `new`
    /// establishes it and every method keeps it.
    pub open spec fn wf(&self) -> bool {
        self@.closed_under_references()
    }

    /// A graph without nodes and without values.
    pub fn new() -> (dag: Self)
        ensures
            dag.wf(),
            dag@.nodes.len() == 0,
            dag@.values.len() == 0,
    {
        Dag { nodes: Vec::new(), values: Vec::new() }
    }

    /// Adds a value and returns its handle. Nodes and earlier values stay as
    /// they are.
    pub fn add_value(&mut self, v: I) -> (id: DagValueId)
        requires
            old(self).wf(),
        ensures
            final(self).wf(),
            id.index() == old(self)@.values.len(),
            final(self)@.values == old(self)@.values.push(v),
            final(self)@.nodes == old(self)@.nodes,
    {
        let id = DagValueId(self.values.len());
        self.values.push(v);
        assert(self@.nodes =~= old(self)@.nodes);
        id
    }

    /// Adds a node that lists no value yet and returns its handle. Values and
    /// earlier nodes stay as they are.
    pub fn add_node(&mut self, v: T) -> (id: DagNodeId)
        requires
            old(self).wf(),
        ensures
            final(self).wf(),
            id.index() == old(self)@.nodes.len(),
            final(self)@.nodes == old(self)@.nodes.push(
                NodeView { payload: v, inputs: Seq::empty(), outputs: Seq::empty() },
            ),
            final(self)@.values == old(self)@.values,
    {
        let id = DagNodeId(self.nodes.len());
        self.nodes.push(Node { payload: v, inputs: Vec::new(), outputs: Vec::new() });
        assert(self@.nodes =~= old(self)@.nodes.push(
            NodeView { payload: v, inputs: Seq::empty(), outputs: Seq::empty() },
        ));
        id
    }

    /// Declares that `node` reads `input`: the value goes to the end of the
    /// node's inputs. Both handles must come from this graph.
    pub fn add_input(&mut self, node: DagNodeId, input: DagValueId)
        requires
            old(self).wf(),
            old(self)@.has_node(node),
            old(self)@.has_value(input),
        ensures
            final(self).wf(),
            final(self)@.values == old(self)@.values,
            final(self)@.nodes == old(self)@.nodes.update(
                node.index() as int,
                NodeView {
                    inputs: old(self)@.nodes[node.index() as int].inputs.push(input),
                    ..old(self)@.nodes[node.index() as int]
                },
            ),
    {
        self.nodes[node.0].inputs.push(input);
        assert(self@.nodes =~= old(self)@.nodes.update(
            node.index() as int,
            NodeView {
                inputs: old(self)@.nodes[node.index() as int].inputs.push(input),
                ..old(self)@.nodes[node.index() as int]
            },
        ));
    }

    /// Declares that `node` makes `output`: the value goes to the end of the
    /// node's outputs. Both handles must come from this graph.
    pub fn add_output(&mut self, node: DagNodeId, output: DagValueId)
        requires
            old(self).wf(),
            old(self)@.has_node(node),
            old(self)@.has_value(output),
        ensures
            final(self).wf(),
            final(self)@.values == old(self)@.values,
            final(self)@.nodes == old(self)@.nodes.update(
                node.index() as int,
                NodeView {
                    outputs: old(self)@.nodes[node.index() as int].outputs.push(output),
                    ..old(self)@.nodes[node.index() as int]
                },
            ),
    {
        self.nodes[node.0].outputs.push(output);
        assert(self@.nodes =~= old(self)@.nodes.update(
            node.index() as int,
            NodeView {
                outputs: old(self)@.nodes[node.index() as int].outputs.push(output),
                ..old(self)@.nodes[node.index() as int]
            },
        ));
    }
}

impl<T: ToShellString, I: ToFilePath> DagView<T, I> {
    /// The makefile of this graph: the rule of each node, in the order in which
    /// the nodes were added.
    pub open spec fn makefile_text(self) -> Seq<char> {
        rules_text(self.nodes, self.values)
    }
}

impl<T: ToShellString, I: ToFilePath> Dag<T, I> {
    /// Appends to `out` the paths of the values `ids`, each followed by a space.
    fn write_paths(&self, ids: &Vec<DagValueId>, out: &mut String)
        requires
            forall|k: int| 0 <= k < ids@.len() ==> self@.has_value(#[trigger] ids@[k]),
        ensures
            final(out)@ == old(out)@ + paths_text(self@.values, ids@),
    {
        let mut k: usize = 0;
        while k < ids.len()
            invariant
                k <= ids.len(),
                forall|j: int| 0 <= j < ids@.len() ==> self@.has_value(#[trigger] ids@[j]),
                out@ == old(out)@ + paths_text(self@.values, ids@.take(k as int)),
            decreases ids.len() - k,
        {
            let id = ids[k];
            assert(self@.has_value(ids@[k as int]));
            let path = self.values[id.0].to_file_path();
            out.append(path.as_str());
            out.append(" ");
            proof {
                reveal_strlit(" ");
                let next = ids@.take(k + 1);
                assert(next.drop_last() =~= ids@.take(k as int));
                assert(next.last() == id);
                assert(out@ =~= old(out)@ + paths_text(self@.values, next));
            }
            k = k + 1;
        }
        assert(ids@.take(ids.len() as int) =~= ids@);
    }

    /// Appends the makefile of this graph to `out`.
    ///
    /// Each node gives one rule, and the rules stand in the order in which the
    /// nodes were added. The first line of a rule holds the paths of the
    /// node's outputs, a colon, and the paths of its inputs, each list in the
    /// order of declaration and each path followed by a space. The second line
    /// holds a tab and the node's command.
    pub fn write_makefile(&self, out: &mut String)
        requires
            self.wf(),
        ensures
            final(out)@ == old(out)@ + self@.makefile_text(),
    {
        let mut n: usize = 0;
        while n < self.nodes.len()
            invariant
                self.wf(),
                n <= self.nodes.len(),
                out@ == old(out)@ + rules_text(self@.nodes.take(n as int), self@.values),
            decreases self.nodes.len() - n,
        {
            let ghost before = out@;
            let node = &self.nodes[n];
            proof {
                assert(self@.nodes[n as int] == node.view());
                assert forall|k: int| 0 <= k < node.outputs@.len() implies self@.has_value(
                    #[trigger] node.outputs@[k],
                ) by {
                    assert(self@.has_value(self@.nodes[n as int].outputs[k]));
                }
                assert forall|k: int| 0 <= k < node.inputs@.len() implies self@.has_value(
                    #[trigger] node.inputs@[k],
                ) by {
                    assert(self@.has_value(self@.nodes[n as int].inputs[k]));
                }
            }
            self.write_paths(&node.outputs, out);
            out.append(": ");
            self.write_paths(&node.inputs, out);
            out.append("\n\t");
            let command = node.payload.to_shell_string();
            out.append(command.as_str());
            out.append("\n");
            proof {
                reveal_strlit(": ");
                reveal_strlit("\n\t");
                reveal_strlit("\n");
                let next = self@.nodes.take(n + 1);
                assert(next.drop_last() =~= self@.nodes.take(n as int));
                assert(next.last() == node.view());
                assert(out@ =~= before + rule_text(node.view(), self@.values));
            }
            n = n + 1;
        }
        assert(self@.nodes.take(self.nodes.len() as int) =~= self@.nodes);
    }
}

} // verus!
