//! The static side of a model: which component drives which signal, whether
//! every reference resolves, and which combinatorial component depends on
//! which.

use vstd::prelude::*;
use petgraph::graph::Graph;
use petgraph::Directed;
use crate::common::{Fault, Id, Input, InputView, OutputType, Ports, PortsView, Signal};
use crate::graph::{graph_add_edge, graph_add_node, graph_edges, graph_new, graph_nodes};

verus! {

/// Why a model cannot be simulated. Components, inputs and fields are
/// named by their position: a component by its index in the store, an input
/// by its index among the component's inputs, a field by its index among the
/// component's outputs.
#[derive(Clone, Copy, Debug, PartialEq, Eq, Structural)]
pub enum ModelError {
    /// The component has the id of an earlier component.
    DuplicateId(usize),
    /// The field of the component has the name of an earlier field of it.
    DuplicateField(usize, usize),
    /// The input of the component names no output of any component.
    UnresolvedInput(usize, usize),
    /// The model has more components or more dependencies than the
    /// dependency graph can number.
    TooLarge,
    /// The component lies on a cycle of combinatorial dependencies.
    CombinatorialCycle(usize),
    /// The component met the fault in the first cycle.
    Fault(usize, Fault),
}

/// The index of the first occurrence of `x` in `s`, or the length of `s`
/// if `x` does not occur.
pub open spec fn position<T>(s: Seq<T>, x: T) -> int
    decreases s.len(),
{
    if s.len() == 0 {
        0
    } else if s.first() == x {
        0
    } else {
        1 + position(s.drop_first(), x)
    }
}

/// `position` is in range, nothing before it is `x`, and `x` is there.
pub proof fn lemma_position<T>(s: Seq<T>, x: T)
    ensures
        0 <= position(s, x) <= s.len(),
        forall|j: int| 0 <= j < position(s, x) ==> s[j] != x,
        position(s, x) < s.len() ==> s[position(s, x)] == x,
    decreases s.len(),
{
    if s.len() != 0 && s.first() != x {
        let rest = s.drop_first();
        lemma_position(rest, x);
        assert forall|j: int| 0 <= j < position(s, x) implies s[j] != x by {
            if j > 0 {
                assert(s[j] == rest[j - 1]);
            }
        }
    }
}

/// An index with nothing equal to `x` before it, and with `x` at it unless
/// it is the length, is the `position` of `x`.
pub proof fn lemma_position_is<T>(s: Seq<T>, x: T, i: int)
    requires
        0 <= i <= s.len(),
        forall|j: int| 0 <= j < i ==> s[j] != x,
        i < s.len() ==> s[i] == x,
    ensures
        position(s, x) == i,
{
    lemma_position(s, x);
}

/// The ids and the ports of the components of a model, in store order.
pub struct Netlist {
    pub ids: Seq<Seq<char>>,
    pub ports: Seq<PortsView>,
}

impl Netlist {
    /// The number of components.
    pub open spec fn len(self) -> int {
        self.ids.len() as int
    }

    /// Each component has its ports.
    pub open spec fn wf(self) -> bool {
        self.ids.len() == self.ports.len()
    }

    /// The index of the signal of the first output of component `i`: the
    /// outputs of the components lie one after another in store order.
    pub open spec fn start(self, i: int) -> int
        decreases i,
    {
        if i <= 0 {
            0
        } else {
            self.start(i - 1) + self.ports[i - 1].outputs.len()
        }
    }

    /// The number of signals: the outputs of all components.
    pub open spec fn signals(self) -> int {
        self.start(self.len())
    }

    /// The index of the signal that `input` names, if it names one.
    pub open spec fn resolve(self, input: InputView) -> Option<int> {
        let c = position(self.ids, input.id);
        if c < self.len() {
            let k = position(self.ports[c].outputs, input.field);
            if k < self.ports[c].outputs.len() {
                Some(self.start(c) + k)
            } else {
                None
            }
        } else {
            None
        }
    }

    /// What is wrong with the names of component `i`: its id is that of an
    /// earlier component or, else, one of its fields has the name of an
    /// earlier one; the first such field is reported.
    pub open spec fn name_fault(self, i: int) -> Option<ModelError> {
        let outputs = self.ports[i].outputs;
        let k = position(Seq::new(outputs.len(), |k: int| position(outputs, outputs[k]) < k), true);
        if position(self.ids, self.ids[i]) < i {
            Some(ModelError::DuplicateId(i as usize))
        } else if k < outputs.len() {
            Some(ModelError::DuplicateField(i as usize, k as usize))
        } else {
            None
        }
    }

    /// What is wrong with the inputs of component `i`: the first of them
    /// that names no signal.
    pub open spec fn input_fault(self, i: int) -> Option<ModelError> {
        let inputs = self.ports[i].inputs;
        let k = position(Seq::new(inputs.len(), |k: int| self.resolve(inputs[k]) is None), true);
        if k < inputs.len() {
            Some(ModelError::UnresolvedInput(i as usize, k as usize))
        } else {
            None
        }
    }

    /// The name fault of the first component that has one.
    pub open spec fn name_error(self) -> Option<ModelError> {
        let i = position(Seq::new(self.len() as nat, |i: int| self.name_fault(i) is Some), true);
        if i < self.len() {
            self.name_fault(i)
        } else {
            None
        }
    }

    /// The input fault of the first component that has one.
    pub open spec fn input_error(self) -> Option<ModelError> {
        let i = position(Seq::new(self.len() as nat, |i: int| self.input_fault(i) is Some), true);
        if i < self.len() {
            self.input_fault(i)
        } else {
            None
        }
    }

    /// What is wrong with the model's names and references: names are
    /// held against each other before any reference is followed.
    pub open spec fn error(self) -> Option<ModelError> {
        if self.name_error() is Some {
            self.name_error()
        } else {
            self.input_error()
        }
    }

    /// The dependencies of component `i`: for a combinatorial component an
    /// edge from the component that each input names, in the order of the
    /// inputs; for a sequential component none.
    pub open spec fn edges_of(self, i: int) -> Seq<(int, int)> {
        if self.ports[i].out_type == OutputType::Combinatorial {
            Seq::new(self.ports[i].inputs.len(), |k: int| (position(self.ids, self.ports[i].inputs[k].id), i))
        } else {
            Seq::empty()
        }
    }

    /// The dependencies of the first `n` components, in store order.
    pub open spec fn edges_upto(self, n: int) -> Seq<(int, int)>
        decreases n,
    {
        if n <= 0 {
            Seq::empty()
        } else {
            self.edges_upto(n - 1) + self.edges_of(n - 1)
        }
    }

    /// The dependencies of the model.
    pub open spec fn edges(self) -> Seq<(int, int)> {
        self.edges_upto(self.len())
    }

    /// The dependency graph numbers its nodes and its edges with 32 bits,
    /// and keeps the highest number for itself: the model is too large when
    /// it has `u32::MAX` components, or more dependencies than `u32::MAX`.
    pub open spec fn too_large(self) -> bool {
        self.len() >= u32::MAX || self.edges().len() > u32::MAX
    }
}

/// The first signal of a component lies at or after that of an earlier
/// one, and its outputs end at or before the first signal of a later one.
pub proof fn lemma_start_grows(net: Netlist, i: int, j: int)
    requires
        0 <= i <= j,
    ensures
        net.start(i) <= net.start(j),
        i < j ==> net.start(i) + net.ports[i].outputs.len() <= net.start(j),
    decreases j - i,
{
    if i < j {
        lemma_start_grows(net, i, j - 1);
    }
}

/// The ids as sequences of characters.
pub open spec fn names(ids: Seq<Id>) -> Seq<Seq<char>> {
    Seq::new(ids.len(), |i: int| ids[i]@)
}

/// The ports as their mathematical values.
pub open spec fn descriptors(ports: Seq<Ports>) -> Seq<PortsView> {
    Seq::new(ports.len(), |i: int| ports[i]@)
}

/// The netlist of the given ids and ports.
pub open spec fn netlist(ids: Seq<Id>, ports: Seq<Ports>) -> Netlist {
    Netlist { ids: names(ids), ports: descriptors(ports) }
}

/// The index of the first of `ids` that equals `id`, or their number.
pub fn position_of(ids: &Vec<Id>, id: &Id) -> (i: usize)
    ensures
        i == position(names(ids@), id@),
{
    let mut i: usize = 0;
    while i < ids.len()
        invariant
            0 <= i <= ids@.len(),
            forall|j: int| 0 <= j < i ==> names(ids@)[j] != id@,
        decreases ids@.len() - i,
    {
        if ids[i] == *id {
            proof {
                lemma_position_is(names(ids@), id@, i as int);
            }
            return i;
        }
        i += 1;
    }
    proof {
        lemma_position_is(names(ids@), id@, i as int);
    }
    i
}

/// The index of the first of `ids` that equals an earlier one, or their
/// number.
pub fn first_repeat_of(ids: &Vec<Id>) -> (k: usize)
    ensures
        k == position(
            Seq::new(names(ids@).len(), |k: int| position(names(ids@), names(ids@)[k]) < k),
            true,
        ),
{
    let ghost flags = Seq::new(names(ids@).len(), |k: int| position(names(ids@), names(ids@)[k]) < k);
    let mut k: usize = 0;
    while k < ids.len()
        invariant
            0 <= k <= ids@.len(),
            flags == Seq::new(names(ids@).len(), |k: int| position(names(ids@), names(ids@)[k]) < k),
            forall|j: int| 0 <= j < k ==> !flags[j],
        decreases ids@.len() - k,
    {
        let first: usize = position_of(ids, &ids[k]);
        if first < k {
            proof {
                lemma_position_is(flags, true, k as int);
            }
            return k;
        }
        k += 1;
    }
    proof {
        lemma_position_is(flags, true, k as int);
    }
    k
}

/// `n` signals that are 0.
pub open spec fn zeros(n: int) -> Seq<Signal> {
    Seq::new(n as nat, |i: int| 0u32)
}

/// Holds the names of the model against each other and lays out the
/// signals: returns the index of each component's first signal, and all
/// signals at 0, or the first fault among the names.
pub fn layout(ids: &Vec<Id>, ports: &Vec<Ports>) -> (r: Result<(Vec<usize>, Vec<Signal>), ModelError>)
    requires
        ids@.len() == ports@.len(),
    ensures
        match r {
            Ok((starts, signals)) => {
                &&& netlist(ids@, ports@).name_error() is None
                &&& starts@.len() == ids@.len()
                &&& forall|i: int| 0 <= i < starts@.len() ==> starts@[i] == netlist(ids@, ports@).start(i)
                &&& signals@ == zeros(netlist(ids@, ports@).signals())
            },
            Err(e) => netlist(ids@, ports@).name_error() == Some(e),
        },
{
    let ghost net = netlist(ids@, ports@);
    let ghost flags = Seq::new(net.len() as nat, |i: int| net.name_fault(i) is Some);
    let mut starts: Vec<usize> = Vec::new();
    let mut signals: Vec<Signal> = Vec::new();
    let mut i: usize = 0;
    while i < ids.len()
        invariant
            0 <= i <= ids@.len(),
            ids@.len() == ports@.len(),
            net == netlist(ids@, ports@),
            flags == Seq::new(net.len() as nat, |i: int| net.name_fault(i) is Some),
            forall|j: int| 0 <= j < i ==> !flags[j],
            starts@.len() == i,
            forall|j: int| 0 <= j < i ==> starts@[j] == net.start(j),
            signals@ == zeros(net.start(i as int)),
        decreases ids@.len() - i,
    {
        proof {
            lemma_start_grows(net, 0, i as int);
        }
        assert(net.ports[i as int].outputs =~= names(ports@[i as int].outputs@));
        if position_of(ids, &ids[i]) < i {
            proof {
                lemma_position_is(flags, true, i as int);
            }
            return Err(ModelError::DuplicateId(i));
        }
        let outputs: &Vec<Id> = &ports[i].outputs;
        let k: usize = first_repeat_of(outputs);
        if k < outputs.len() {
            proof {
                lemma_position_is(flags, true, i as int);
            }
            return Err(ModelError::DuplicateField(i, k));
        }
        starts.push(signals.len());
        let mut j: usize = 0;
        while j < outputs.len()
            invariant
                0 <= j <= outputs@.len(),
                0 <= net.start(i as int),
                signals@ == zeros(net.start(i as int) + j),
            decreases outputs@.len() - j,
        {
            signals.push(0);
            j += 1;
            assert(signals@ =~= zeros(net.start(i as int) + j));
        }
        i += 1;
    }
    proof {
        lemma_position_is(flags, true, i as int);
    }
    Ok((starts, signals))
}

/// The index of the signal that `input` names, if it names one.
pub fn resolve(ids: &Vec<Id>, ports: &Vec<Ports>, starts: &Vec<usize>, input: &Input) -> (r: Option<usize>)
    requires
        ids@.len() == ports@.len(),
        starts@.len() == ids@.len(),
        forall|i: int| 0 <= i < starts@.len() ==> starts@[i] == netlist(ids@, ports@).start(i),
        netlist(ids@, ports@).signals() <= usize::MAX,
    ensures
        match r {
            Some(index) => netlist(ids@, ports@).resolve(input@) == Some(index as int)
                && index < netlist(ids@, ports@).signals(),
            None => netlist(ids@, ports@).resolve(input@) is None,
        },
{
    let ghost net = netlist(ids@, ports@);
    let c: usize = position_of(ids, &input.id);
    if c >= ids.len() {
        return None;
    }
    let outputs: &Vec<Id> = &ports[c].outputs;
    assert(net.ports[c as int].outputs =~= names(outputs@));
    let k: usize = position_of(outputs, &input.field);
    if k >= outputs.len() {
        return None;
    }
    proof {
        lemma_start_grows(net, c as int, net.len());
    }
    Some(starts[c] + k)
}

/// Follows every reference of the model: returns for each component the
/// indices of the signals that its inputs name, in the order of the inputs,
/// or the first reference that names none.
pub fn resolve_all(ids: &Vec<Id>, ports: &Vec<Ports>, starts: &Vec<usize>) -> (r: Result<Vec<Vec<usize>>, ModelError>)
    requires
        ids@.len() == ports@.len(),
        starts@.len() == ids@.len(),
        forall|i: int| 0 <= i < starts@.len() ==> starts@[i] == netlist(ids@, ports@).start(i),
        netlist(ids@, ports@).signals() <= usize::MAX,
    ensures
        match r {
            Ok(fanin) => {
                &&& netlist(ids@, ports@).input_error() is None
                &&& fanin@.len() == ids@.len()
                &&& forall|i: int| 0 <= i < fanin@.len() ==> resolved(netlist(ids@, ports@), i, #[trigger] fanin@[i]@)
            },
            Err(e) => netlist(ids@, ports@).input_error() == Some(e),
        },
{
    let ghost net = netlist(ids@, ports@);
    let ghost flags = Seq::new(net.len() as nat, |i: int| net.input_fault(i) is Some);
    let mut fanin: Vec<Vec<usize>> = Vec::new();
    let mut i: usize = 0;
    while i < ids.len()
        invariant
            0 <= i <= ids@.len(),
            ids@.len() == ports@.len(),
            starts@.len() == ids@.len(),
            forall|i: int| 0 <= i < starts@.len() ==> starts@[i] == netlist(ids@, ports@).start(i),
            net.signals() <= usize::MAX,
            net == netlist(ids@, ports@),
            flags == Seq::new(net.len() as nat, |i: int| net.input_fault(i) is Some),
            forall|j: int| 0 <= j < i ==> !flags[j],
            fanin@.len() == i,
            forall|j: int| 0 <= j < i ==> resolved(net, j, #[trigger] fanin@[j]@),
        decreases ids@.len() - i,
    {
        let inputs: &Vec<Input> = &ports[i].inputs;
        let ghost missing = Seq::new(net.ports[i as int].inputs.len(), |k: int| net.resolve(net.ports[i as int].inputs[k]) is None);
        let mut indices: Vec<usize> = Vec::new();
        let mut k: usize = 0;
        while k < inputs.len()
            invariant
                0 <= k <= inputs@.len(),
                0 <= i < ids@.len(),
                inputs@ == ports@[i as int].inputs@,
                ids@.len() == ports@.len(),
                starts@.len() == ids@.len(),
                forall|i: int| 0 <= i < starts@.len() ==> starts@[i] == netlist(ids@, ports@).start(i),
                net.signals() <= usize::MAX,
                net == netlist(ids@, ports@),
                flags == Seq::new(net.len() as nat, |i: int| net.input_fault(i) is Some),
                missing == Seq::new(net.ports[i as int].inputs.len(), |k: int| net.resolve(net.ports[i as int].inputs[k]) is None),
                forall|j: int| 0 <= j < i ==> !flags[j],
                forall|j: int| 0 <= j < k ==> !missing[j],
                indices@.len() == k,
                forall|j: int| 0 <= j < k ==> net.resolve(net.ports[i as int].inputs[j]) == Some(#[trigger] indices@[j] as int),
            decreases inputs@.len() - k,
        {
            match resolve(ids, ports, starts, &inputs[k]) {
                Some(index) => {
                    indices.push(index);
                },
                None => {
                    proof {
                        lemma_position_is(missing, true, k as int);
                        lemma_position_is(flags, true, i as int);
                    }
                    return Err(ModelError::UnresolvedInput(i, k));
                },
            }
            k += 1;
        }
        proof {
            lemma_position_is(missing, true, k as int);
        }
        fanin.push(indices);
        i += 1;
    }
    proof {
        lemma_position_is(flags, true, i as int);
    }
    Ok(fanin)
}

/// `indices` are the signals that the inputs of component `i` name.
pub open spec fn resolved(net: Netlist, i: int, indices: Seq<usize>) -> bool {
    &&& indices.len() == net.ports[i].inputs.len()
    &&& forall|k: int| 0 <= k < indices.len() ==> net.resolve(net.ports[i].inputs[k]) == Some(#[trigger] indices[k] as int)
}

/// Every input of a model without input error names an output of a
/// component of the model.
pub proof fn lemma_inputs_resolve(net: Netlist, i: int, k: int)
    requires
        net.wf(),
        net.input_error() is None,
        0 <= i < net.len(),
        0 <= k < net.ports[i].inputs.len(),
    ensures
        net.resolve(net.ports[i].inputs[k]) is Some,
        0 <= position(net.ids, net.ports[i].inputs[k].id) < net.len(),
        0 <= net.resolve(net.ports[i].inputs[k])->0 < net.signals(),
{
    let flags = Seq::new(net.len() as nat, |i: int| net.input_fault(i) is Some);
    lemma_position(flags, true);
    assert(!flags[i]);
    let inputs = net.ports[i].inputs;
    let missing = Seq::new(inputs.len(), |k: int| net.resolve(inputs[k]) is None);
    lemma_position(missing, true);
    assert(!missing[k]);
    let c = position(net.ids, inputs[k].id);
    lemma_position(net.ids, inputs[k].id);
    lemma_position(net.ports[c].outputs, inputs[k].field);
    lemma_start_grows(net, c, net.len());
    lemma_start_grows(net, 0, c);
}

/// The dependencies of the first components are among those of the model.
pub proof fn lemma_edges_grow(net: Netlist, i: int, j: int)
    requires
        0 <= i <= j,
    ensures
        net.edges_upto(i).len() <= net.edges_upto(j).len(),
        i < j ==> net.edges_upto(i).len() + net.edges_of(i).len() <= net.edges_upto(j).len(),
    decreases j - i,
{
    if i < j {
        lemma_edges_grow(net, i, j - 1);
    }
}

/// The dependencies of a model without input error run between its
/// components.
pub proof fn lemma_edges_in_range(net: Netlist, n: int)
    requires
        net.wf(),
        net.input_error() is None,
        0 <= n <= net.len(),
    ensures
        forall|e: int|
            0 <= e < net.edges_upto(n).len() ==> 0 <= (#[trigger] net.edges_upto(n)[e]).0 < net.len() && 0
                <= net.edges_upto(n)[e].1 < net.len(),
    decreases n,
{
    if n > 0 {
        lemma_edges_in_range(net, n - 1);
        let before = net.edges_upto(n - 1);
        assert forall|e: int| 0 <= e < net.edges_upto(n).len() implies 0 <= (#[trigger] net.edges_upto(n)[e]).0
            < net.len() && 0 <= net.edges_upto(n)[e].1 < net.len() by {
            if e >= before.len() {
                lemma_inputs_resolve(net, n - 1, e - before.len());
            }
        }
    }
}

/// Builds the dependency graph of a model: a node for each component, in
/// store order and with the component's id as its weight, and the model's
/// dependencies as edges. There is none for a model that is too large.
pub fn dependency_graph(ids: &Vec<Id>, ports: &Vec<Ports>) -> (r: Option<Graph<String, (), Directed, u32>>)
    requires
        ids@.len() == ports@.len(),
        netlist(ids@, ports@).input_error() is None,
    ensures
        match r {
            Some(g) => {
                &&& !netlist(ids@, ports@).too_large()
                &&& graph_nodes(g) == names(ids@)
                &&& graph_edges(g) == netlist(ids@, ports@).edges()
            },
            None => netlist(ids@, ports@).too_large(),
        },
{
    let ghost net = netlist(ids@, ports@);
    if ids.len() >= 0xffff_ffff {
        return None;
    }
    let mut g = graph_new();
    let mut i: usize = 0;
    while i < ids.len()
        invariant
            0 <= i <= ids@.len(),
            ids@.len() < u32::MAX,
            graph_nodes(g) == names(ids@).take(i as int),
            graph_edges(g) == Seq::<(int, int)>::empty(),
        decreases ids@.len() - i,
    {
        graph_add_node(&mut g, ids[i].clone());
        i += 1;
        assert(graph_nodes(g) =~= names(ids@).take(i as int));
    }
    assert(graph_nodes(g) =~= names(ids@));
    let mut count: usize = 0;
    let mut i: usize = 0;
    while i < ids.len()
        invariant
            0 <= i <= ids@.len(),
            ids@.len() == ports@.len(),
            ids@.len() < u32::MAX,
            net == netlist(ids@, ports@),
            net.input_error() is None,
            graph_nodes(g) == names(ids@),
            graph_edges(g) == net.edges_upto(i as int),
            count == graph_edges(g).len(),
            count <= u32::MAX,
        decreases ids@.len() - i,
    {
        if ports[i].out_type == OutputType::Combinatorial {
            let inputs: &Vec<Input> = &ports[i].inputs;
            let mut k: usize = 0;
            while k < inputs.len()
                invariant
                    0 <= k <= inputs@.len(),
                    0 <= i < ids@.len(),
                    inputs@ == ports@[i as int].inputs@,
                    ports@[i as int].out_type == OutputType::Combinatorial,
                    ids@.len() == ports@.len(),
                    ids@.len() < u32::MAX,
                    net == netlist(ids@, ports@),
                    net.input_error() is None,
                    graph_nodes(g) == names(ids@),
                    graph_edges(g) == net.edges_upto(i as int) + net.edges_of(i as int).take(k as int),
                    count == graph_edges(g).len(),
                    count <= u32::MAX,
                decreases inputs@.len() - k,
            {
                proof {
                    lemma_inputs_resolve(net, i as int, k as int);
                    lemma_edges_grow(net, i as int, net.len());
                }
                if count >= 0xffff_ffff {
                    return None;
                }
                let from: usize = position_of(ids, &inputs[k].id);
                graph_add_edge(&mut g, from, i);
                count += 1;
                k += 1;
                assert(graph_edges(g) =~= net.edges_upto(i as int) + net.edges_of(i as int).take(k as int));
            }
            assert(net.edges_of(i as int).take(k as int) =~= net.edges_of(i as int));
        } else {
            assert(net.edges_upto(i as int) + net.edges_of(i as int) =~= net.edges_upto(i as int));
        }
        i += 1;
    }
    Some(g)
}

} // verus!
