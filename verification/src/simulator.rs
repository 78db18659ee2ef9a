//! The simulator: the signals of a model, the order in which its
//! components are evaluated, and the history that lets it step back.

use vstd::prelude::*;
use petgraph::graph::Graph;
use petgraph::Directed;
use crate::common::{Fault, Id, Input, InputView, Ports, Signal};
use crate::component::{views, Component, ComponentStore};
use crate::graph::{graph_dot, graph_edges, graph_nodes, graph_toposort};
use crate::graph::{dot_text, has_cycle, indices, is_schedule, lemma_schedule_excludes_cycle, respects, toposort_order};
use crate::model::ComponentView;
use crate::netlist::{dependency_graph, layout, resolve, resolve_all};
use crate::netlist::{descriptors, names, netlist, position, resolved, zeros, ModelError, Netlist};
use crate::netlist::{lemma_edges_in_range, lemma_inputs_resolve, lemma_position, lemma_position_is, lemma_start_grows};

verus! {

/// The state of a simulation.
pub struct SimView {
    /// The components, in store order, each with what it holds.
    pub components: Seq<ComponentView>,
    /// The schedule: the components in the order of their evaluation.
    pub order: Seq<int>,
    /// The value of each output of each component.
    pub signals: Seq<Signal>,
    /// The signals as they were before each cycle, most recent last.
    pub history: Seq<Seq<Signal>>,
}

/// The ids and ports of the components.
pub open spec fn net_of(components: Seq<ComponentView>) -> Netlist {
    Netlist {
        ids: Seq::new(components.len(), |i: int| components[i].id),
        ports: Seq::new(components.len(), |i: int| components[i].ports()),
    }
}

/// The simulation of a model before its first cycle: the schedule is the
/// topological order of the model's dependencies, if there is one, and
/// every signal is 0.
pub open spec fn started(components: Seq<ComponentView>) -> SimView {
    SimView {
        components: components,
        order: toposort_order(components.len(), net_of(components).edges())->Ok_0,
        signals: zeros(net_of(components).signals()),
        history: Seq::empty(),
    }
}

/// Why no simulator can be built for a model: the fault of its names and
/// references or, else, its size or, else, the component on a cycle of
/// dependencies that the topological sort names.
pub open spec fn model_fault(components: Seq<ComponentView>) -> Option<ModelError> {
    let net = net_of(components);
    if net.error() is Some {
        net.error()
    } else if net.too_large() {
        Some(ModelError::TooLarge)
    } else {
        match toposort_order(components.len(), net.edges()) {
            Err(node) => Some(ModelError::CombinatorialCycle(node as usize)),
            Ok(order) => None,
        }
    }
}

/// What construction makes of a model: the reason why no simulator can be
/// built for it, or the fault of the first cycle, or else the simulation
/// after the first cycle.
pub open spec fn constructed(components: Seq<ComponentView>) -> Result<SimView, ModelError> {
    match model_fault(components) {
        Some(e) => Err(e),
        None => match started(components).cycle_fault() {
            Some((c, fault)) => Err(ModelError::Fault(c, fault)),
            None => Ok(started(components).clocked()),
        },
    }
}

/// The ids and the ports of the components, in their order.
pub fn describe(components: &Vec<Component>) -> (r: (Vec<Id>, Vec<Ports>))
    ensures
        netlist(r.0@, r.1@) == net_of(views(components@)),
        r.0@.len() == components@.len(),
        r.1@.len() == components@.len(),
{
    let ghost net = net_of(views(components@));
    let mut ids: Vec<Id> = Vec::new();
    let mut ports: Vec<Ports> = Vec::new();
    let mut i: usize = 0;
    while i < components.len()
        invariant
            0 <= i <= components@.len(),
            net == net_of(views(components@)),
            ids@.len() == i,
            ports@.len() == i,
            forall|j: int| 0 <= j < i ==> (#[trigger] ids@[j])@ == net.ids[j],
            forall|j: int| 0 <= j < i ==> (#[trigger] ports@[j])@ == net.ports[j],
        decreases components@.len() - i,
    {
        let (id, p) = components[i].get_id_ports();
        ids.push(id);
        ports.push(p);
        i += 1;
    }
    proof {
        assert(names(ids@) =~= net.ids);
        assert(descriptors(ports@) =~= net.ports);
    }
    (ids, ports)
}

impl SimView {
    /// The ids and ports of the components.
    pub open spec fn net(self) -> Netlist {
        net_of(self.components)
    }

    /// The simulation is consistent: the components are well formed, their
    /// names are unique and their references resolve; the schedule lists each
    /// component once and after the components that it depends on; there is
    /// a signal for each output, now and in each earlier cycle; a register
    /// file has a record of each cycle that can be taken back.
    pub open spec fn wf(self) -> bool {
        &&& forall|c: int| 0 <= c < self.components.len() ==> (#[trigger] self.components[c]).wf()
        &&& self.net().error() is None
        &&& is_schedule(self.order, self.components.len() as int)
        &&& respects(self.order, self.net().edges())
        &&& self.signals.len() == self.net().signals()
        &&& forall|h: int| 0 <= h < self.history.len() ==> (#[trigger] self.history[h]).len() == self.signals.len()
        &&& forall|c: int|
            0 <= c < self.components.len() && (#[trigger] self.components[c]).kind is RegFile
                ==> self.components[c].state->history.len() >= self.history.len()
    }

    /// The values that component `c` reads when the signals are `signals`.
    pub open spec fn gather(self, signals: Seq<Signal>, c: int) -> Seq<Signal> {
        Seq::new(
            self.components[c].inputs.len(),
            |k: int| signals[self.net().resolve(self.components[c].inputs[k])->0],
        )
    }

    /// The values of the outputs of component `c` among `signals`.
    pub open spec fn outs(self, signals: Seq<Signal>, c: int) -> Seq<Signal> {
        signals.subrange(self.net().start(c), self.net().start(c) + self.components[c].kind.outputs())
    }

    /// `signals` with `outs` in the place of the outputs of component `c`.
    pub open spec fn put(self, signals: Seq<Signal>, c: int, outs: Seq<Signal>) -> Seq<Signal> {
        Seq::new(
            signals.len(),
            |i: int|
                if self.net().start(c) <= i < self.net().start(c) + outs.len() {
                    outs[i - self.net().start(c)]
                } else {
                    signals[i]
                },
        )
    }

    /// The signals after the first `p` components of the schedule have
    /// been evaluated in this cycle: each reads the signals as they are when
    /// its turn comes, and drives its outputs.
    pub open spec fn signals_at(self, p: int) -> Seq<Signal>
        decreases p,
    {
        if p <= 0 {
            self.signals
        } else {
            let before = self.signals_at(p - 1);
            let c = self.order[p - 1];
            self.put(before, c, self.components[c].outputs(self.gather(before, c), self.outs(before, c)))
        }
    }

    /// The values that component `c` reads in this cycle, if it is
    /// scheduled.
    pub open spec fn inputs_of(self, c: int) -> Seq<Signal> {
        self.gather(self.signals_at(position(self.order, c)), c)
    }

    /// The fault that the component at place `p` of the schedule meets in
    /// this cycle.
    pub open spec fn fault_at(self, p: int) -> Option<Fault> {
        self.components[self.order[p]].fault(self.inputs_of(self.order[p]))
    }

    /// The first fault of this cycle, with the component that meets it.
    pub open spec fn cycle_fault(self) -> Option<(usize, Fault)> {
        let p = position(Seq::new(self.order.len(), |p: int| self.fault_at(p) is Some), true);
        if p < self.order.len() {
            Some((self.order[p] as usize, self.fault_at(p)->0))
        } else {
            None
        }
    }

    /// The components after the first `p` of the schedule have run.
    pub open spec fn components_at(self, p: int) -> Seq<ComponentView> {
        Seq::new(
            self.components.len(),
            |c: int|
                if position(self.order, c) < p {
                    self.components[c].next(self.inputs_of(c))
                } else {
                    self.components[c]
                },
        )
    }

    /// The simulation after one cycle: the signals before it are kept in
    /// the history, every scheduled component has run once in the order of
    /// the schedule.
    pub open spec fn clocked(self) -> SimView {
        SimView {
            components: self.components_at(self.order.len() as int),
            order: self.order,
            signals: self.signals_at(self.order.len() as int),
            history: self.history.push(self.signals),
        }
    }

    /// The simulation one cycle back: the signals are those that the
    /// history kept last, and each component has taken back what it did to
    /// its own state.
    pub open spec fn un_clocked(self) -> SimView {
        SimView {
            components: Seq::new(self.components.len(), |c: int| self.components[c].un_clocked()),
            order: self.order,
            signals: self.history.last(),
            history: self.history.drop_last(),
        }
    }

    /// The simulation with all signals at 0 and without history. The
    /// components keep what they hold.
    pub open spec fn cleared(self) -> SimView {
        SimView {
            components: self.components,
            order: self.order,
            signals: zeros(self.signals.len() as int),
            history: Seq::empty(),
        }
    }

    /// The simulation with `value` as signal `index`.
    pub open spec fn with_signal(self, index: int, value: Signal) -> SimView {
        SimView { signals: self.signals.update(index, value), ..self }
    }
}

/// Every component of a consistent simulation has its place in the
/// schedule.
pub proof fn lemma_scheduled(s: SimView, c: int)
    requires
        s.wf(),
        0 <= c < s.components.len(),
    ensures
        0 <= position(s.order, c) < s.order.len(),
        s.order[position(s.order, c)] == c,
{
    lemma_position(s.order, c);
    assert(s.order.contains(c));
}

/// The component at a place of the schedule has that place.
pub proof fn lemma_place(s: SimView, p: int)
    requires
        s.wf(),
        0 <= p < s.order.len(),
    ensures
        0 <= s.order[p] < s.components.len(),
        position(s.order, s.order[p]) == p,
{
    lemma_position_is(s.order, s.order[p], p);
}

/// A cycle keeps the number of signals.
pub proof fn lemma_signals_len(s: SimView, p: int)
    ensures
        s.signals_at(p).len() == s.signals.len(),
    decreases p,
{
    if p > 0 {
        lemma_signals_len(s, p - 1);
    }
}

/// A simulation without fault in this cycle has none at any place of the
/// schedule.
pub proof fn lemma_no_fault(s: SimView, p: int)
    requires
        s.cycle_fault() is None,
        0 <= p < s.order.len(),
    ensures
        s.fault_at(p) is None,
{
    let flags = Seq::new(s.order.len(), |p: int| s.fault_at(p) is Some);
    lemma_position(flags, true);
    assert(!flags[p]);
}

/// The component at place `p` of the schedule is the one that runs between
/// the first `p` and the first `p + 1` of it.
pub proof fn lemma_components_step(s: SimView, p: int)
    requires
        s.wf(),
        0 <= p < s.order.len(),
    ensures
        s.components_at(p)[s.order[p]] == s.components[s.order[p]],
        s.components_at(p + 1) == s.components_at(p).update(
            s.order[p],
            s.components[s.order[p]].next(s.inputs_of(s.order[p])),
        ),
{
    let c = s.order[p];
    lemma_place(s, p);
    let after = s.components_at(p).update(c, s.components[c].next(s.inputs_of(c)));
    assert forall|d: int| 0 <= d < s.components.len() implies s.components_at(p + 1)[d] == after[d] by {
        lemma_position(s.order, d);
    }
    assert(s.components_at(p + 1) =~= after);
}

/// A cycle leaves a consistent simulation consistent, with the same names
/// and references.
pub proof fn lemma_clocked_wf(s: SimView)
    requires
        s.wf(),
    ensures
        s.clocked().wf(),
        s.clocked().net() == s.net(),
{
    let t = s.clocked();
    assert(t.net().ids =~= s.net().ids);
    assert(t.net().ports =~= s.net().ports);
    lemma_signals_len(s, s.order.len() as int);
    assert forall|c: int| 0 <= c < t.components.len() implies (#[trigger] t.components[c]).wf() by {
        assert(s.components[c].wf());
    }
    assert forall|c: int| 0 <= c < t.components.len() && (#[trigger] t.components[c]).kind is RegFile implies t.components[c].state->history.len()
        >= t.history.len() by {
        lemma_scheduled(s, c);
        assert(s.components[c].kind is RegFile);
    }
    assert forall|h: int| 0 <= h < t.history.len() implies (#[trigger] t.history[h]).len() == t.signals.len() by {
        if h < s.history.len() {
            assert(t.history[h] == s.history[h]);
        }
    }
}

/// A step back leaves a consistent simulation consistent, with the same
/// names and references.
pub proof fn lemma_un_clocked_wf(s: SimView)
    requires
        s.wf(),
        s.history.len() > 0,
    ensures
        s.un_clocked().wf(),
        s.un_clocked().net() == s.net(),
{
    let t = s.un_clocked();
    assert(t.net().ids =~= s.net().ids);
    assert(t.net().ports =~= s.net().ports);
    assert(s.history[s.history.len() - 1].len() == s.signals.len());
    assert forall|c: int| 0 <= c < t.components.len() implies (#[trigger] t.components[c]).wf() by {
        assert(s.components[c].wf());
    }
    assert forall|c: int| 0 <= c < t.components.len() && (#[trigger] t.components[c]).kind is RegFile implies t.components[c].state->history.len()
        >= t.history.len() by {
        assert(s.components[c].kind is RegFile);
    }
    assert forall|h: int| 0 <= h < t.history.len() implies (#[trigger] t.history[h]).len() == t.signals.len() by {
        assert(t.history[h] == s.history[h]);
    }
}

/// The values of `signals` at `indices`.
pub fn gather(signals: &Vec<Signal>, indices: &Vec<usize>) -> (values: Vec<Signal>)
    requires
        forall|k: int| 0 <= k < indices@.len() ==> indices@[k] < signals@.len(),
    ensures
        values@ == Seq::new(indices@.len(), |k: int| signals@[indices@[k] as int]),
{
    let mut values: Vec<Signal> = Vec::new();
    let mut k: usize = 0;
    while k < indices.len()
        invariant
            0 <= k <= indices@.len(),
            forall|k: int| 0 <= k < indices@.len() ==> indices@[k] < signals@.len(),
            values@ == Seq::new(k as nat, |j: int| signals@[indices@[j] as int]),
        decreases indices@.len() - k,
    {
        values.push(signals[indices[k]]);
        k += 1;
        assert(values@ =~= Seq::new(k as nat, |j: int| signals@[indices@[j] as int]));
    }
    values
}

/// The `n` values of `signals` from `start` on.
pub fn read_outputs(signals: &Vec<Signal>, start: usize, n: usize) -> (values: Vec<Signal>)
    requires
        start + n <= signals.len(),
    ensures
        values@ == signals@.subrange(start as int, start + n),
{
    let mut values: Vec<Signal> = Vec::new();
    let mut k: usize = 0;
    while k < n
        invariant
            0 <= k <= n,
            start + n <= signals.len(),
            values@ == signals@.subrange(start as int, start + k),
        decreases n - k,
    {
        values.push(signals[start + k]);
        k += 1;
        assert(values@ =~= signals@.subrange(start as int, start + k));
    }
    values
}

/// Puts `outs` into `signals` from `start` on.
pub fn write_outputs(signals: &mut Vec<Signal>, start: usize, outs: &Vec<Signal>)
    requires
        start + outs.len() <= old(signals).len(),
    ensures
        final(signals)@ == Seq::new(
            old(signals)@.len(),
            |i: int|
                if start <= i < start + outs@.len() {
                    outs@[i - start]
                } else {
                    old(signals)@[i]
                },
        ),
{
    let mut k: usize = 0;
    while k < outs.len()
        invariant
            0 <= k <= outs.len(),
            start + outs.len() <= signals.len(),
            signals@.len() == old(signals)@.len(),
            signals@ == Seq::new(
                old(signals)@.len(),
                |i: int|
                    if start <= i < start + k {
                        outs@[i - start]
                    } else {
                        old(signals)@[i]
                    },
            ),
        decreases outs@.len() - k,
    {
        signals.set(start + k, outs[k]);
        k += 1;
        assert(signals@ =~= Seq::new(
            old(signals)@.len(),
            |i: int|
                if start <= i < start + k {
                    outs@[i - start]
                } else {
                    old(signals)@[i]
                },
        ));
    }
}

/// The simulator of one model.
pub struct Simulator {
    /// The components, in store order.
    pub components: Vec<Component>,
    /// The id of each component.
    pub component_ids: Vec<Id>,
    /// The ports of each component.
    pub ports: Vec<Ports>,
    /// The index of the first signal of each component.
    pub id_start_index: Vec<usize>,
    /// For each component the indices of the signals that it reads, in the
    /// order of its inputs.
    pub inputs_index: Vec<Vec<usize>>,
    /// The schedule: the components, by index, in the order of their
    /// evaluation.
    pub ordered_components: Vec<usize>,
    /// The value of each signal.
    pub sim_state: Vec<Signal>,
    /// The signals as they were before each cycle, most recent last.
    pub history: Vec<Vec<Signal>>,
    /// The combinatorial dependencies between the components.
    pub graph: Graph<String, (), Directed, u32>,
}

/// The snapshots of a history as sequences.
pub open spec fn snapshots(history: Seq<Vec<Signal>>) -> Seq<Seq<Signal>> {
    Seq::new(history.len(), |i: int| history[i]@)
}

impl View for Simulator {
    type V = SimView;

    open spec fn view(&self) -> SimView {
        SimView {
            components: views(self.components@),
            order: indices(self.ordered_components@),
            signals: self.sim_state@,
            history: snapshots(self.history@),
        }
    }
}

impl Simulator {
    /// Builds the simulator of a model and runs its first cycle, after
    /// which `clock` is 1. The model is refused, and `clock` left as it is,
    /// when two components have one id or two fields of a component one
    /// name, when an input names no output, when the model is too large for
    /// the dependency graph, when combinatorial components depend on each
    /// other in a cycle, or when the first cycle meets a fault.
    pub fn new(component_store: ComponentStore, clock: &mut usize) -> (r: Result<Simulator, ModelError>)
        ensures
            match r {
                Ok(simulator) => simulator.wf() && constructed(component_store@) == Ok::<SimView, ModelError>(simulator@)
                    && *final(clock) == 1,
                Err(e) => constructed(component_store@) == Err::<SimView, ModelError>(e) && *final(clock) == *old(clock),
            },
            has_cycle(net_of(component_store@).edges()) ==> r is Err,
            r is Ok <==> net_of(component_store@).error() is None && !net_of(component_store@).too_large()
                && !has_cycle(net_of(component_store@).edges()) && started(component_store@).cycle_fault() is None,
    {
        let mut simulator = match Simulator::assemble(component_store) {
            Ok(simulator) => simulator,
            Err(e) => {
                return Err(e);
            },
        };
        match simulator.cycle_fault() {
            Some((c, fault)) => Err(ModelError::Fault(c, fault)),
            None => {
                simulator.clock(clock);
                Ok(simulator)
            },
        }
    }

    /// Builds the simulator of a model, with every signal at 0 and no
    /// cycle run.
    fn assemble(component_store: ComponentStore) -> (r: Result<Simulator, ModelError>)
        ensures
            match r {
                Ok(simulator) => {
                    &&& simulator.wf()
                    &&& simulator@ == started(component_store@)
                    &&& model_fault(component_store@) is None
                    &&& !has_cycle(net_of(component_store@).edges())
                },
                Err(e) => {
                    &&& model_fault(component_store@) == Some(e)
                    &&& net_of(component_store@).error() is None && !net_of(component_store@).too_large() ==> has_cycle(
                        net_of(component_store@).edges(),
                    )
                },
            },
    {
        let ghost net = net_of(component_store@);
        let components: Vec<Component> = component_store.store;
        let (ids, ports) = describe(&components);
        proof {
            lemma_start_grows(net, 0, net.len());
        }
        let (starts, signals) = match layout(&ids, &ports) {
            Ok(laid) => laid,
            Err(e) => {
                return Err(e);
            },
        };
        assert(signals.len() == net.signals());
        let fanin: Vec<Vec<usize>> = match resolve_all(&ids, &ports, &starts) {
            Ok(fanin) => fanin,
            Err(e) => {
                return Err(e);
            },
        };
        let graph = match dependency_graph(&ids, &ports) {
            Some(graph) => graph,
            None => {
                return Err(ModelError::TooLarge);
            },
        };
        let order: Vec<usize> = match graph_toposort(&graph) {
            Ok(order) => order,
            Err(node) => {
                return Err(ModelError::CombinatorialCycle(node));
            },
        };
        proof {
            lemma_edges_in_range(net, net.len());
            lemma_schedule_excludes_cycle(indices(order@), net.len(), net.edges());
        }
        let simulator = Simulator {
            components,
            component_ids: ids,
            ports,
            id_start_index: starts,
            inputs_index: fanin,
            ordered_components: order,
            sim_state: signals,
            history: Vec::new(),
            graph,
        };
        proof {
            assert(snapshots(simulator.history@) =~= Seq::<Seq<Signal>>::empty());
            assert(simulator@ == started(component_store@));
            assert forall|c: int| 0 <= c < simulator@.components.len() implies (#[trigger] simulator@.components[c]).wf() by {
                simulator.components@[c].lemma_wf();
            }
        }
        Ok(simulator)
    }

    /// The dependency graph in the DOT language: a node for each component,
    /// labelled with its id, and an edge for each dependency.
    pub fn dot(&self) -> (text: String)
        requires
            self.wf(),
        ensures
            text@ == dot_text(self@.net().ids, self@.net().edges()),
    {
        graph_dot(&self.graph)
    }

    /// The simulation is consistent, and what the simulator keeps beside
    /// it is true of it: the ids and ports are those of the components, the
    /// indices are those that the names resolve to, and the graph holds the
    /// components and their dependencies.
    pub open spec fn wf(&self) -> bool {
        &&& self@.wf()
        &&& names(self.component_ids@) == self@.net().ids
        &&& descriptors(self.ports@) == self@.net().ports
        &&& self.id_start_index@.len() == self.components@.len()
        &&& forall|i: int| 0 <= i < self.id_start_index@.len() ==> self.id_start_index@[i] == self@.net().start(i)
        &&& self.inputs_index@.len() == self.components@.len()
        &&& forall|i: int| 0 <= i < self.inputs_index@.len() ==> resolved(self@.net(), i, #[trigger] self.inputs_index@[i]@)
        &&& graph_nodes(self.graph) == self@.net().ids
        &&& graph_edges(self.graph) == self@.net().edges()
    }

    /// The simulators agree in all that a cycle leaves alone.
    pub open spec fn same_model(&self, other: &Simulator) -> bool {
        &&& self.component_ids == other.component_ids
        &&& self.ports == other.ports
        &&& self.id_start_index == other.id_start_index
        &&& self.inputs_index == other.inputs_index
        &&& self.ordered_components == other.ordered_components
        &&& self.graph == other.graph
    }

    /// The ids and ports that the simulator keeps are the netlist of the
    /// simulation.
    pub proof fn lemma_net(&self)
        requires
            self.wf(),
        ensures
            netlist(self.component_ids@, self.ports@) == self@.net(),
            self.component_ids@.len() == self.components@.len(),
            self.ports@.len() == self.components@.len(),
            self.sim_state.len() == self@.net().signals(),
    {
        assert(names(self.component_ids@).len() == self@.net().ids.len());
        assert(descriptors(self.ports@).len() == self@.net().ports.len());
    }

    /// The value of signal `index`.
    pub fn get(&self, index: usize) -> (value: Signal)
        requires
            index < self@.signals.len(),
        ensures
            value == self@.signals[index as int],
    {
        self.sim_state[index]
    }

    /// Sets signal `index` to `value`.
    pub fn set(&mut self, index: usize, value: Signal)
        requires
            old(self).wf(),
            index < old(self)@.signals.len(),
        ensures
            final(self).wf(),
            final(self).same_model(old(self)),
            final(self)@ == old(self)@.with_signal(index as int, value),
    {
        self.sim_state.set(index, value);
        proof {
            assert(self@.components == old(self)@.components);
            assert(self@.history == old(self)@.history);
            assert(self@.net() == old(self)@.net());
            assert(self@.wf());
        }
    }

    /// The index of the signal that `input` names, if it names one.
    pub fn resolve(&self, input: &Input) -> (r: Option<usize>)
        requires
            self.wf(),
        ensures
            match r {
                Some(index) => self@.net().resolve(input@) == Some(index as int) && index < self@.signals.len(),
                None => self@.net().resolve(input@) is None,
            },
    {
        proof {
            self.lemma_net();
        }
        resolve(&self.component_ids, &self.ports, &self.id_start_index, input)
    }

    /// The value of the output that `input` names.
    pub fn get_input_val(&self, input: &Input) -> (value: Signal)
        requires
            self.wf(),
            self@.net().resolve(input@) is Some,
        ensures
            value == self@.signals[self@.net().resolve(input@)->0],
    {
        match self.resolve(input) {
            Some(index) => self.sim_state[index],
            None => vstd::pervasive::unreached(),
        }
    }

    /// The index of the first signal of the component `id`.
    pub fn get_id_start_index(&self, id: &str) -> (start: usize)
        requires
            self.wf(),
            self@.net().ids.contains(id@),
        ensures
            start == self@.net().start(position(self@.net().ids, id@)),
    {
        proof {
            self.lemma_net();
            lemma_position(self@.net().ids, id@);
        }
        let c: usize = crate::netlist::position_of(&self.component_ids, &id.to_owned());
        self.id_start_index[c]
    }

    /// Sets the output `field` of the component `id` to `value`.
    pub fn set_out_val(&mut self, id: &str, field: &str, value: Signal)
        requires
            old(self).wf(),
            old(self)@.net().resolve(InputView { id: id@, field: field@ }) is Some,
        ensures
            final(self).wf(),
            final(self).same_model(old(self)),
            final(self)@ == old(self)@.with_signal(
                old(self)@.net().resolve(InputView { id: id@, field: field@ })->0,
                value,
            ),
    {
        let input = Input::new(id, field);
        match self.resolve(&input) {
            Some(index) => self.set(index, value),
            None => vstd::pervasive::unreached(),
        }
    }
    /// What the simulator keeps for component `c` fits the simulation: the
    /// indices of its inputs and of its outputs lie among the signals.
    pub proof fn lemma_component(&self, c: int)
        requires
            self.wf(),
            0 <= c < self.components@.len(),
        ensures
            self.inputs_index@[c]@.len() == self@.components[c].inputs.len(),
            forall|k: int|
                0 <= k < self.inputs_index@[c]@.len() ==> (#[trigger] self.inputs_index@[c]@[k]) < self.sim_state.len()
                    && self@.net().resolve(self@.components[c].inputs[k]) == Some(self.inputs_index@[c]@[k] as int),
            c < self.ports@.len(),
            c < self.inputs_index@.len(),
            c < self.id_start_index@.len(),
            self.ports@[c].outputs@.len() == self@.components[c].kind.outputs(),
            self.id_start_index@[c] == self@.net().start(c),
            self.id_start_index@[c] + self@.components[c].kind.outputs() <= self.sim_state.len(),
    {
        let net = self@.net();
        self.lemma_net();
        assert(resolved(net, c, self.inputs_index@[c]@));
        assert(self@.components[c].wf());
        assert(descriptors(self.ports@)[c] == net.ports[c]);
        assert(self.ports@[c]@.outputs.len() == self.ports@[c].outputs@.len());
        lemma_start_grows(net, c, net.len());
        assert forall|k: int| 0 <= k < self.inputs_index@[c]@.len() implies (#[trigger] self.inputs_index@[c]@[k])
            < self.sim_state.len() && net.resolve(self@.components[c].inputs[k]) == Some(
            self.inputs_index@[c]@[k] as int,
        ) by {
            lemma_inputs_resolve(net, c, k);
        }
    }

    /// The simulation as it would be with the signals `signals`.
    pub open spec fn from_signals(&self, signals: Seq<Signal>) -> SimView {
        SimView { signals: signals, ..self@ }
    }

    /// The first fault that a cycle would meet if it began with the signals
    /// `signals`, together with the component that would meet it.
    pub fn fault_from(&self, signals: Vec<Signal>) -> (r: Option<(usize, Fault)>)
        requires
            self.wf(),
            signals@.len() == self@.signals.len(),
        ensures
            r == self.from_signals(signals@).cycle_fault(),
    {
        let ghost s = self.from_signals(signals@);
        let ghost flags = Seq::new(s.order.len(), |p: int| s.fault_at(p) is Some);
        let mut scratch: Vec<Signal> = signals;
        let mut p: usize = 0;
        assert(s.net() == self@.net());
        while p < self.ordered_components.len()
            invariant
                0 <= p <= self.ordered_components@.len(),
                self.wf(),
                s == self.from_signals(signals@),
                s.wf(),
                s.net() == self@.net(),
                signals@.len() == self@.signals.len(),
                flags == Seq::new(s.order.len(), |p: int| s.fault_at(p) is Some),
                forall|q: int| 0 <= q < p ==> !flags[q],
                scratch@ == s.signals_at(p as int),
            decreases self.ordered_components@.len() - p,
        {
            let c: usize = self.ordered_components[p];
            proof {
                lemma_place(s, p as int);
                self.lemma_component(c as int);
                lemma_signals_len(s, p as int);
            }
            let ins: Vec<Signal> = gather(&scratch, &self.inputs_index[c]);
            let mut outs: Vec<Signal> = read_outputs(&scratch, self.id_start_index[c], self.ports[c].outputs.len());
            assert(ins@ =~= s.gather(scratch@, c as int));
            assert(outs@ == s.outs(scratch@, c as int));
            match self.components[c].peek(&ins, &mut outs) {
                Err(fault) => {
                    proof {
                        lemma_position_is(flags, true, p as int);
                    }
                    return Some((c, fault));
                },
                Ok(()) => {},
            }
            write_outputs(&mut scratch, self.id_start_index[c], &outs);
            assert(scratch@ =~= s.signals_at(p + 1));
            p += 1;
        }
        proof {
            lemma_position_is(flags, true, p as int);
        }
        None
    }

    /// The first fault that the next cycle would meet, together with the
    /// component that would meet it.
    pub fn cycle_fault(&self) -> (r: Option<(usize, Fault)>)
        requires
            self.wf(),
        ensures
            r == self@.cycle_fault(),
    {
        let signals: Vec<Signal> = self.sim_state.clone();
        assert(signals@ =~= self.sim_state@);
        self.fault_from(signals)
    }

    /// Runs one cycle: keeps the signals in the history, then evaluates
    /// the components in the order of the schedule, and sets `clock` to the
    /// number of cycles in the history.
    pub fn clock(&mut self, clock: &mut usize)
        requires
            old(self).wf(),
            old(self)@.cycle_fault() is None,
        ensures
            final(self).wf(),
            final(self).same_model(old(self)),
            final(self)@ == old(self)@.clocked(),
            *final(clock) == final(self)@.history.len(),
    {
        let ghost s = self@;
        let snapshot: Vec<Signal> = self.sim_state.clone();
        assert(snapshot@ =~= self.sim_state@);
        self.history.push(snapshot);
        assert(snapshots(self.history@) =~= s.history.push(s.signals));
        assert(views(self.components@) =~= s.components_at(0)) by {
            assert forall|c: int| 0 <= c < s.components.len() implies s.components_at(0)[c] == s.components[c] by {
                lemma_position(s.order, c);
            }
        }
        let mut p: usize = 0;
        while p < self.ordered_components.len()
            invariant
                0 <= p <= self.ordered_components@.len(),
                old(self).wf(),
                s == old(self)@,
                s.cycle_fault() is None,
                self.same_model(old(self)),
                self.components@.len() == s.components.len(),
                views(self.components@) == s.components_at(p as int),
                self.sim_state@ == s.signals_at(p as int),
                snapshots(self.history@) == s.history.push(s.signals),
            decreases self.ordered_components@.len() - p,
        {
            let c: usize = self.ordered_components[p];
            proof {
                lemma_place(s, p as int);
                old(self).lemma_component(c as int);
                lemma_signals_len(s, p as int);
                lemma_no_fault(s, p as int);
                lemma_components_step(s, p as int);
                assert(self.components@[c as int]@ == views(self.components@)[c as int]);
            }
            let ins: Vec<Signal> = gather(&self.sim_state, &self.inputs_index[c]);
            let mut outs: Vec<Signal> = read_outputs(&self.sim_state, self.id_start_index[c], self.ports[c].outputs.len());
            assert(ins@ =~= s.gather(self.sim_state@, c as int));
            assert(outs@ == s.outs(self.sim_state@, c as int));
            let ghost before = views(self.components@);
            let _ = self.components[c].clock(&ins, &mut outs);
            write_outputs(&mut self.sim_state, self.id_start_index[c], &outs);
            assert(self.sim_state@ =~= s.signals_at(p + 1));
            proof {
                assert(views(self.components@) =~= before.update(c as int, s.components[c as int].next(ins@)));
                lemma_components_step(s, p as int);
            }
            p += 1;
        }
        *clock = self.history.len();
        proof {
            lemma_clocked_wf(s);
            assert(self@ == s.clocked());
            assert(self@.net() == s.net());
        }
    }

    /// Steps back one cycle if `clock` is above 1: takes the signals from
    /// the history, lets every component take back what the cycle did to its
    /// own state, and sets `clock` to the number of cycles in the history.
    /// At a `clock` of 1 or less nothing changes.
    pub fn un_clock(&mut self, clock: &mut usize)
        requires
            old(self).wf(),
            *old(clock) > 1 ==> old(self)@.history.len() > 0,
        ensures
            final(self).wf(),
            final(self).same_model(old(self)),
            *old(clock) <= 1 ==> final(self)@ == old(self)@ && *final(clock) == *old(clock),
            *old(clock) > 1 ==> final(self)@ == old(self)@.un_clocked() && *final(clock) == final(self)@.history.len(),
    {
        let ghost s = self@;
        if *clock > 1 {
            match self.history.pop() {
                Some(state) => {
                    self.sim_state = state;
                },
                None => {},
            }
            assert(snapshots(self.history@) =~= s.history.drop_last());
            assert(self.sim_state@ == s.history.last());
            let mut c: usize = 0;
            while c < self.components.len()
                invariant
                    0 <= c <= self.components@.len(),
                    old(self).wf(),
                    s == old(self)@,
                    s.history.len() > 0,
                    self.same_model(old(self)),
                    self.components@.len() == s.components.len(),
                    forall|d: int| 0 <= d < c ==> (#[trigger] self.components@[d])@ == s.components[d].un_clocked(),
                    forall|d: int| c <= d < s.components.len() ==> (#[trigger] self.components@[d])@ == s.components[d],
                    self.sim_state@ == s.history.last(),
                    snapshots(self.history@) == s.history.drop_last(),
                decreases self.components@.len() - c,
            {
                assert(s.components[c as int].kind is RegFile ==> s.components[c as int].state->history.len() >= s.history.len());
                self.components[c].un_clock();
                c += 1;
            }
            *clock = self.history.len();
            proof {
                lemma_un_clocked_wf(s);
                assert(self@.components =~= s.un_clocked().components);
                assert(self@ == s.un_clocked());
                assert(self@.net() == s.net());
            }
        }
    }

    /// The first fault that `reset` would meet, together with the component
    /// that would meet it.
    pub fn reset_fault(&self) -> (r: Option<(usize, Fault)>)
        requires
            self.wf(),
        ensures
            r == self@.cleared().cycle_fault(),
    {
        let mut signals: Vec<Signal> = Vec::new();
        let mut i: usize = 0;
        while i < self.sim_state.len()
            invariant
                0 <= i <= self.sim_state.len(),
                signals@ == zeros(i as int),
            decreases self.sim_state.len() - i,
        {
            signals.push(0);
            i += 1;
            assert(signals@ =~= zeros(i as int));
        }
        assert(self.from_signals(signals@).order == self@.cleared().order);
        let r = self.fault_from(signals);
        proof {
            lemma_fault_ignores_history(self.from_signals(zeros(self.sim_state.len() as int)), self@.cleared());
        }
        r
    }

    /// Starts over: forgets the history, sets every signal to 0 and runs
    /// one cycle. What the components hold stays.
    pub fn reset(&mut self, clock: &mut usize)
        requires
            old(self).wf(),
            old(self)@.cleared().cycle_fault() is None,
        ensures
            final(self).wf(),
            final(self).same_model(old(self)),
            final(self)@ == old(self)@.cleared().clocked(),
            *final(clock) == 1,
    {
        let ghost s = self@;
        self.history = Vec::new();
        let mut i: usize = 0;
        while i < self.sim_state.len()
            invariant
                0 <= i <= self.sim_state.len(),
                self.sim_state.len() == s.signals.len(),
                self.same_model(old(self)),
                self.components == old(self).components,
                self.history@.len() == 0,
                forall|j: int| 0 <= j < i ==> self.sim_state@[j] == 0,
            decreases self.sim_state.len() - i,
        {
            self.sim_state.set(i, 0);
            i += 1;
        }
        proof {
            assert(self.sim_state@ =~= zeros(s.signals.len() as int));
            assert(snapshots(self.history@) =~= Seq::<Seq<Signal>>::empty());
            assert(self@ == s.cleared());
            assert(self@.net() == s.net());
            assert(self@.wf());
        }
        self.clock(clock);
    }
}

/// The faults of a cycle do not depend on the history.
pub proof fn lemma_fault_ignores_history(s: SimView, t: SimView)
    requires
        s.components == t.components,
        s.order == t.order,
        s.signals == t.signals,
    ensures
        s.cycle_fault() == t.cycle_fault(),
{
    assert forall|p: int| s.signals_at(p) == t.signals_at(p) by {
        lemma_signals_same(s, t, p);
    }
    assert(Seq::new(s.order.len(), |p: int| s.fault_at(p) is Some) =~= Seq::new(t.order.len(), |p: int| t.fault_at(p) is Some));
}

/// The signals of a cycle do not depend on the history.
pub proof fn lemma_signals_same(s: SimView, t: SimView, p: int)
    requires
        s.components == t.components,
        s.order == t.order,
        s.signals == t.signals,
    ensures
        s.signals_at(p) == t.signals_at(p),
    decreases p,
{
    if p > 0 {
        lemma_signals_same(s, t, p - 1);
        assert(s.net() == t.net());
    }
}

} // verus!
