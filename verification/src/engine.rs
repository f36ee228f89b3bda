//! The dataflow network and its propagation engine.
//!
//! A `Network` owns a set of nodes and the dependency edges between them.
//! Nodes are created top-down, sources first, so every declared upstream of a
//! node has a smaller handle than the node itself; the construction API
//! rejects anything else, which is what rules out synchronous cycles.  One
//! emitted event triggers exactly one propagation pass: the nodes reachable
//! from the firing source are re-evaluated in dependency (handle) order, each
//! exactly once, and observers attached to an updated node run right after
//! that node settles.  An observer that emits into another source does not
//! disturb the running pass: the emission is queued and processed as a pass
//! of its own afterwards.

use vstd::prelude::*;

use crate::selector::{ExecutionEnvironment, Layout, layout_of_value, next_option};
use crate::value::{Scalar, ScalarV, Shape, Value, ValueV, shape_of};

verus! {

/// A pure transform applied by a map node.
#[derive(Clone, Copy, Debug, PartialEq, Eq, Structural)]
pub enum MapFn {
    /// Forward the upstream value unchanged.
    Identity,
    /// Replace the upstream value by a fixed execution environment.
    ConstEnv(ExecutionEnvironment),
}

/// A partial transform applied by a filter-map node: the node stays silent
/// when the transform yields nothing.
#[derive(Clone, Copy, Debug, PartialEq, Eq, Structural)]
pub enum FilterMapFn {
    /// From a (current, available) pair, the next available execution
    /// environment after `current`, wrapping around; nothing when `current`
    /// is not available.
    NextEnv,
}

/// A predicate applied by a filter node.
#[derive(Clone, Copy, Debug, PartialEq, Eq, Structural)]
pub enum PredFn {
    /// True exactly of the given execution environment.
    EnvIs(ExecutionEnvironment),
}

/// The recomputation rule of a node: a source fed from outside, or a
/// combinator over previously declared upstream nodes.
#[derive(Debug)]
pub enum NodeKind {
    /// Externally fed; never fires on its own.
    Source,
    /// Fires when `up` fires, with the transformed value.
    Mapping { up: usize, f: MapFn },
    /// Fires when `up` fires and the transform yields a value.
    FilterMap { up: usize, f: FilterMapFn },
    /// Fires when `up` fires and the predicate holds, forwarding the value.
    Filter { up: usize, p: PredFn },
    /// Fires when `trigger` fires and `data` has ever fired, forwarding the
    /// current value of `data`.
    Sample { data: usize, trigger: usize },
    /// Fires when any upstream fires, forwarding the value of the upstream
    /// declared first among those that fired this pass.
    MergeAny { ups: Vec<usize> },
    /// Fires when every upstream has fired at least once and at least one
    /// fires this pass, forwarding the combined latest upstream values.
    MergeAll { ups: Vec<usize> },
}

/// One reactive cell: its rule, its declared payload shape, and the last
/// value it produced (`None` until it first fires).
#[derive(Debug)]
pub struct Node {
    /// The recomputation rule.
    pub kind: NodeKind,
    /// The declared payload shape.
    pub shape: Shape,
    /// The last produced value.
    pub value: Option<Value>,
}

/// What an observer does with the updated value of the node it watches.
#[derive(Debug)]
pub enum ObserverAction {
    /// Append the value to the network's log.
    Record,
    /// Derive the layout from the value and append it to the log.
    Layout,
    /// Queue the value as an emission into the given source, to be processed
    /// as a pass of its own after the current pass completes.
    EmitInto {
        /// The source to feed.
        source: usize,
    },
}

/// A side effect attached to a node, run after the node updates in a pass.
#[derive(Debug)]
pub struct Observer {
    /// The watched node.
    pub node: usize,
    /// The effect.
    pub action: ObserverAction,
}

/// One recorded observer effect.
#[derive(Debug, PartialEq, Eq)]
pub enum LogEntry {
    /// A recorded value of a fired node.
    Fired {
        /// The node that fired.
        node: usize,
        /// Its value when the observer ran.
        value: Value,
    },
    /// A derived layout of a fired node.
    Geometry {
        /// The node that fired.
        node: usize,
        /// The derived layout.
        layout: Layout,
    },
}

/// A queued emission produced by an `EmitInto` observer during a pass.
#[derive(Debug)]
pub struct PendingEvent {
    /// The source to feed.
    pub source: usize,
    /// The value to emit.
    pub value: Value,
}

/// The mathematical shape of a `LogEntry`.
pub enum LogEntryV {
    /// A recorded value of a fired node.
    Fired {
        /// The node that fired.
        node: int,
        /// Its value when the observer ran.
        value: ValueV,
    },
    /// A derived layout of a fired node.
    Geometry {
        /// The node that fired.
        node: int,
        /// The derived layout.
        layout: Layout,
    },
}

impl View for LogEntry {
    type V = LogEntryV;

    open spec fn view(&self) -> LogEntryV {
        match *self {
            LogEntry::Fired { node, value } => LogEntryV::Fired {
                node: node as int,
                value: value@,
            },
            LogEntry::Geometry { node, layout } => LogEntryV::Geometry {
                node: node as int,
                layout,
            },
        }
    }
}

/// The mathematical shape of a `PendingEvent`.
pub struct PendingEventV {
    /// The source to feed.
    pub source: int,
    /// The value to emit.
    pub value: ValueV,
}

impl View for PendingEvent {
    type V = PendingEventV;

    open spec fn view(&self) -> PendingEventV {
        PendingEventV { source: self.source as int, value: self.value@ }
    }
}

/// Why a construction call was rejected; the declaration is discarded.
#[derive(Clone, Copy, Debug, PartialEq, Eq, Structural)]
pub enum BuildError {
    /// An upstream handle does not name a previously declared node.
    UnknownNode,
    /// A merge combinator was declared over no upstreams.
    EmptyUpstreams,
    /// The declared upstreams do not carry the payload shape the combinator
    /// needs.
    ShapeMismatch,
}

/// Why an emission was rejected; the network is unchanged.
#[derive(Clone, Copy, Debug, PartialEq, Eq, Structural)]
pub enum EmitError {
    /// The handle does not name a node.
    UnknownNode,
    /// The handle names a derived node, which only the engine may update.
    NotASource,
    /// The value does not have the source's declared payload shape.
    ShapeMismatch,
}

/// A reactive dataflow network: the nodes, their observers, the log of
/// observer effects, and the queue of re-entrant emissions.
pub struct Network {
    nodes: Vec<Node>,
    observers: Vec<Observer>,
    log: Vec<LogEntry>,
    pending: Vec<PendingEvent>,
    last_fired: Vec<bool>,
}

// ======================
// === Pass semantics ===
// ======================

/// The declared upstreams of a rule, in declaration order.
pub open spec fn kind_ups(k: NodeKind) -> Seq<usize> {
    match k {
        NodeKind::Source => Seq::empty(),
        NodeKind::Mapping { up, .. } => seq![up],
        NodeKind::FilterMap { up, .. } => seq![up],
        NodeKind::Filter { up, .. } => seq![up],
        NodeKind::Sample { data, trigger } => seq![data, trigger],
        NodeKind::MergeAny { ups } => ups@,
        NodeKind::MergeAll { ups } => ups@,
    }
}

/// The last produced values of a node sequence.
pub open spec fn vals_of(nodes: Seq<Node>) -> Seq<Option<Value>> {
    nodes.map(|i: int, n: Node| n.value)
}

/// What a map transform yields.
pub open spec fn apply_map_spec(f: MapFn, v: ValueV) -> ValueV {
    match f {
        MapFn::Identity => v,
        MapFn::ConstEnv(e) => ValueV::Scalar(ScalarV::Env(e)),
    }
}

/// What a filter-map transform yields, if anything.
pub open spec fn apply_filter_map_spec(f: FilterMapFn, v: ValueV) -> Option<ValueV> {
    match f {
        FilterMapFn::NextEnv => match v {
            ValueV::Tuple(s) => if s.len() == 2 {
                match (s[0], s[1]) {
                    (ScalarV::Env(c), ScalarV::Envs(a)) => match next_option(c, a) {
                        Some(e) => Some(ValueV::Scalar(ScalarV::Env(e))),
                        None => None,
                    },
                    _ => None,
                }
            } else {
                None
            },
            _ => None,
        },
    }
}

/// Whether a filter predicate holds of a value.
pub open spec fn apply_pred_spec(p: PredFn, v: ValueV) -> bool {
    match p {
        PredFn::EnvIs(e) => v == ValueV::Scalar(ScalarV::Env(e)),
    }
}

/// The scalar payload of a value; merge-all upstreams always carry scalars.
pub open spec fn scalar_of(v: ValueV) -> ScalarV {
    match v {
        ValueV::Scalar(s) => s,
        ValueV::Tuple(_) => ScalarV::Unit,
    }
}

/// Whether a derived node fires in a pass, given the post-pass values and
/// fired flags of its (already settled) upstreams.
pub open spec fn node_fires(k: NodeKind, vals: Seq<Option<Value>>, fired: Seq<bool>) -> bool {
    match k {
        NodeKind::Source => false,
        NodeKind::Mapping { up, .. } => fired[up as int],
        NodeKind::FilterMap { up, f } => fired[up as int] && apply_filter_map_spec(
            f,
            vals[up as int].unwrap()@,
        ) is Some,
        NodeKind::Filter { up, p } => fired[up as int] && apply_pred_spec(
            p,
            vals[up as int].unwrap()@,
        ),
        NodeKind::Sample { data, trigger } => fired[trigger as int] && vals[data as int] is Some,
        NodeKind::MergeAny { ups } => exists|j: int|
            0 <= j < ups@.len() && fired[ups@[j] as int],
        NodeKind::MergeAll { ups } => (forall|j: int|
            0 <= j < ups@.len() ==> vals[ups@[j] as int] is Some) && (exists|j: int|
            0 <= j < ups@.len() && fired[ups@[j] as int]),
    }
}

/// `j` is the position of the first declared upstream that fired this pass.
pub open spec fn is_first_fired(ups: Seq<usize>, fired: Seq<bool>, j: int) -> bool {
    &&& 0 <= j < ups.len()
    &&& fired[ups[j] as int]
    &&& forall|l: int| 0 <= l < j ==> !fired[ups[l] as int]
}

/// What a fired derived node's new value is, as a pure function of its
/// upstreams' post-pass values and fired flags.
pub open spec fn node_out_ok(
    k: NodeKind,
    vals: Seq<Option<Value>>,
    fired: Seq<bool>,
    out: ValueV,
) -> bool {
    match k {
        NodeKind::Source => true,
        NodeKind::Mapping { up, f } => out == apply_map_spec(f, vals[up as int].unwrap()@),
        NodeKind::FilterMap { up, f } => Some(out) == apply_filter_map_spec(
            f,
            vals[up as int].unwrap()@,
        ),
        NodeKind::Filter { up, .. } => out == vals[up as int].unwrap()@,
        NodeKind::Sample { data, .. } => out == vals[data as int].unwrap()@,
        NodeKind::MergeAny { ups } => exists|j: int|
            is_first_fired(ups@, fired, j) && out == vals[ups@[j] as int].unwrap()@,
        NodeKind::MergeAll { ups } => out matches ValueV::Tuple(s) && s.len() == ups@.len()
            && forall|j: int|
            0 <= j < ups@.len() ==> s[j] == scalar_of(vals[ups@[j] as int].unwrap()@),
    }
}

/// The full pointwise semantics of one propagation pass: `post` and `fired`
/// are the node states and fired flags after the pass that source `src`
/// emitting `v` triggered.  Every fired node's value is the pure function of
/// its upstreams' post-pass values given by its rule; every other node keeps
/// its value.
pub open spec fn pass_post(
    pre: Seq<Node>,
    post: Seq<Node>,
    fired: Seq<bool>,
    src: int,
    v: ValueV,
) -> bool {
    &&& post.len() == pre.len()
    &&& fired.len() == pre.len()
    &&& 0 <= src < pre.len()
    &&& forall|i: int|
        0 <= i < pre.len() ==> (#[trigger] post[i]).kind == pre[i].kind && post[i].shape
            == pre[i].shape
    &&& fired[src]
    &&& post[src].value is Some && post[src].value.unwrap()@ == v
    &&& forall|i: int|
        0 <= i < pre.len() && i != src ==> #[trigger] fired[i] == node_fires(
            post[i].kind,
            vals_of(post),
            fired,
        )
    &&& forall|i: int|
        0 <= i < pre.len() && i != src && #[trigger] fired[i] ==> post[i].value is Some
            && node_out_ok(post[i].kind, vals_of(post), fired, post[i].value.unwrap()@)
    &&& forall|i: int| 0 <= i < pre.len() && !(#[trigger] fired[i]) ==> post[i].value
        == pre[i].value
}

// =========================
// === Observer semantics ===
// =========================

/// The log entries a single observer contributes for node `i` carrying `val`.
pub open spec fn entry_of(o: Observer, i: int, val: ValueV) -> Seq<LogEntryV> {
    if o.node == i {
        match o.action {
            ObserverAction::Record => seq![LogEntryV::Fired { node: i, value: val }],
            ObserverAction::Layout => seq![
                LogEntryV::Geometry { node: i, layout: layout_of_value(val) },
            ],
            ObserverAction::EmitInto { .. } => Seq::empty(),
        }
    } else {
        Seq::empty()
    }
}

/// The queued emissions a single observer contributes for node `i`.
pub open spec fn emit_of(o: Observer, i: int, val: ValueV) -> Seq<PendingEventV> {
    if o.node == i {
        match o.action {
            ObserverAction::EmitInto { source } => seq![
                PendingEventV { source: source as int, value: val },
            ],
            _ => Seq::empty(),
        }
    } else {
        Seq::empty()
    }
}

/// The log entries of the first `k` observers for node `i`, in registration
/// order.
pub open spec fn obs_entries(obs: Seq<Observer>, i: int, val: ValueV, k: int) -> Seq<LogEntryV>
    decreases k,
{
    if k <= 0 {
        Seq::empty()
    } else {
        obs_entries(obs, i, val, k - 1) + entry_of(obs[k - 1], i, val)
    }
}

/// The queued emissions of the first `k` observers for node `i`.
pub open spec fn obs_emits(obs: Seq<Observer>, i: int, val: ValueV, k: int) -> Seq<PendingEventV>
    decreases k,
{
    if k <= 0 {
        Seq::empty()
    } else {
        obs_emits(obs, i, val, k - 1) + emit_of(obs[k - 1], i, val)
    }
}

/// All log entries a pass appends, walking the first `i` nodes in dependency
/// order and, for each fired one, its observers in registration order.
pub open spec fn pass_entries(
    obs: Seq<Observer>,
    post: Seq<Node>,
    fired: Seq<bool>,
    i: int,
) -> Seq<LogEntryV>
    decreases i,
{
    if i <= 0 {
        Seq::empty()
    } else {
        pass_entries(obs, post, fired, i - 1) + if fired[i - 1] {
            obs_entries(obs, i - 1, post[i - 1].value.unwrap()@, obs.len() as int)
        } else {
            Seq::empty()
        }
    }
}

/// All emissions a pass queues, in the same order.
pub open spec fn pass_emits(
    obs: Seq<Observer>,
    post: Seq<Node>,
    fired: Seq<bool>,
    i: int,
) -> Seq<PendingEventV>
    decreases i,
{
    if i <= 0 {
        Seq::empty()
    } else {
        pass_emits(obs, post, fired, i - 1) + if fired[i - 1] {
            obs_emits(obs, i - 1, post[i - 1].value.unwrap()@, obs.len() as int)
        } else {
            Seq::empty()
        }
    }
}

/// The views of a log.
pub open spec fn log_views(log: Seq<LogEntry>) -> Seq<LogEntryV> {
    log.map(|i: int, e: LogEntry| e@)
}

/// The views of a pending queue.
pub open spec fn pend_views(pending: Seq<PendingEvent>) -> Seq<PendingEventV> {
    pending.map(|i: int, e: PendingEvent| e@)
}

// ========================
// === Well-formedness ===
// ========================

/// Shape consistency of a rule: the node's declared shape agrees with what
/// the rule produces from the shapes of its upstreams.
pub open spec fn shape_ok(nodes: Seq<Node>, kind: NodeKind, shape: Shape) -> bool {
    match kind {
        NodeKind::Source => shape == Shape::Scalar,
        NodeKind::Mapping { up, f } => shape == (match f {
            MapFn::Identity => nodes[up as int].shape,
            MapFn::ConstEnv(_) => Shape::Scalar,
        }),
        NodeKind::FilterMap { up, .. } => shape == Shape::Scalar && nodes[up as int].shape
            == Shape::Tuple,
        NodeKind::Filter { up, .. } => shape == nodes[up as int].shape,
        NodeKind::Sample { data, .. } => shape == nodes[data as int].shape,
        NodeKind::MergeAny { ups } => forall|j: int|
            0 <= j < ups@.len() ==> nodes[ups@[j] as int].shape == shape,
        NodeKind::MergeAll { ups } => shape == Shape::Tuple && forall|j: int|
            0 <= j < ups@.len() ==> nodes[ups@[j] as int].shape == Shape::Scalar,
    }
}

/// Well-formedness of one node: upstreams strictly precede it (no synchronous
/// cycles), merges have at least one upstream, shapes are consistent, and its
/// stored value, if any, has its declared shape.
pub open spec fn node_wf(nodes: Seq<Node>, i: int) -> bool {
    &&& forall|j: int|
        0 <= j < kind_ups(nodes[i].kind).len() ==> (#[trigger] kind_ups(nodes[i].kind)[j] as int)
            < i
    &&& (nodes[i].kind matches NodeKind::MergeAny { ups } ==> ups@.len() > 0)
    &&& (nodes[i].kind matches NodeKind::MergeAll { ups } ==> ups@.len() > 0)
    &&& shape_ok(nodes, nodes[i].kind, nodes[i].shape)
    &&& (nodes[i].value is Some ==> shape_of(nodes[i].value.unwrap()@) == nodes[i].shape)
}

/// Well-formedness of a node sequence.
pub open spec fn nodes_wf(nodes: Seq<Node>) -> bool {
    forall|i: int| 0 <= i < nodes.len() ==> node_wf(nodes, i)
}

impl Network {
    /// The nodes, for specification purposes.
    pub closed spec fn nodes_seq(self) -> Seq<Node> {
        self.nodes@
    }

    /// The observers, for specification purposes.
    pub closed spec fn observers_seq(self) -> Seq<Observer> {
        self.observers@
    }

    /// The log views, for specification purposes.
    pub closed spec fn log_seq(self) -> Seq<LogEntryV> {
        log_views(self.log@)
    }

    /// The pending-queue views, for specification purposes.
    pub closed spec fn pending_seq(self) -> Seq<PendingEventV> {
        pend_views(self.pending@)
    }

    /// The fired flags of the most recent pass, for specification purposes.
    pub closed spec fn fired_seq(self) -> Seq<bool> {
        self.last_fired@
    }

    /// The structural invariant of a network.
    pub closed spec fn wf(self) -> bool {
        &&& nodes_wf(self.nodes@)
        &&& self.last_fired@.len() == self.nodes@.len()
        &&& forall|k: int|
            0 <= k < self.observers@.len() ==> observer_wf(
                self.nodes@,
                #[trigger] self.observers@[k],
            )
        &&& forall|k: int|
            0 <= k < self.pending@.len() ==> pending_wf(self.nodes@, #[trigger] self.pending@[k])
    }
}

/// An observer watches an existing node; a feedback observer feeds an
/// existing scalar source from a scalar-shaped node.
pub open spec fn observer_wf(nodes: Seq<Node>, o: Observer) -> bool {
    &&& (o.node as int) < nodes.len()
    &&& (o.action matches ObserverAction::EmitInto { source } ==> (source as int) < nodes.len()
        && nodes[source as int].kind is Source && nodes[o.node as int].shape == Shape::Scalar)
}

/// A queued emission feeds an existing source with a scalar value.
pub open spec fn pending_wf(nodes: Seq<Node>, p: PendingEvent) -> bool {
    &&& (p.source as int) < nodes.len()
    &&& nodes[p.source as int].kind is Source
    &&& shape_of(p.value@) == Shape::Scalar
}

/// `new` is `old` with one node appended and nothing else touched.
pub open spec fn appended(old: Network, new: Network, id: int) -> bool {
    &&& id == old.nodes_seq().len()
    &&& new.nodes_seq().len() == old.nodes_seq().len() + 1
    &&& forall|i: int|
        0 <= i < old.nodes_seq().len() ==> #[trigger] new.nodes_seq()[i] == old.nodes_seq()[i]
    &&& new.nodes_seq()[id].value is None
    &&& new.observers_seq() == old.observers_seq()
    &&& new.log_seq() == old.log_seq()
    &&& new.pending_seq() == old.pending_seq()
    &&& new.fired_seq() == old.fired_seq().push(false)
}

/// `new` is `old`, untouched.
pub open spec fn unchanged(old: Network, new: Network) -> bool {
    &&& new.nodes_seq() == old.nodes_seq()
    &&& new.observers_seq() == old.observers_seq()
    &&& new.log_seq() == old.log_seq()
    &&& new.pending_seq() == old.pending_seq()
    &&& new.fired_seq() == old.fired_seq()
}

/// `new` is `mid` after one full pass for the oldest queued emission: the
/// event is taken from the front of the queue, the pass relation holds for
/// it, and the log and queue are extended by exactly the pass's observer
/// effects.
pub open spec fn pass_step(mid: Network, new: Network) -> bool {
    &&& mid.pending_seq().len() > 0
    &&& pass_post(
        mid.nodes_seq(),
        new.nodes_seq(),
        new.fired_seq(),
        mid.pending_seq()[0].source,
        mid.pending_seq()[0].value,
    )
    &&& new.observers_seq() == mid.observers_seq()
    &&& new.log_seq() == mid.log_seq() + pass_entries(
        mid.observers_seq(),
        new.nodes_seq(),
        new.fired_seq(),
        mid.nodes_seq().len() as int,
    )
    &&& new.pending_seq() == mid.pending_seq().skip(1) + pass_emits(
        mid.observers_seq(),
        new.nodes_seq(),
        new.fired_seq(),
        mid.nodes_seq().len() as int,
    )
}

/// `new` is `old` after the first `k` queued emissions, oldest first, each
/// processed as one full pass of its own.
pub open spec fn processed_passes(old: Network, new: Network, k: int) -> bool
    decreases k,
{
    if k <= 0 {
        unchanged(old, new)
    } else {
        exists|mid: Network| processed_passes(old, mid, k - 1) && #[trigger] pass_step(mid, new)
    }
}

impl Network {
    /// An empty network.
    pub fn new() -> (r: Network)
        ensures
            r.wf(),
            r.nodes_seq().len() == 0,
            r.observers_seq().len() == 0,
            r.log_seq().len() == 0,
            r.pending_seq().len() == 0,
    {
        Network {
            nodes: Vec::new(),
            observers: Vec::new(),
            log: Vec::new(),
            pending: Vec::new(),
            last_fired: Vec::new(),
        }
    }

    /// The number of declared nodes.
    pub fn node_count(&self) -> (r: usize)
        ensures
            r == self.nodes_seq().len(),
    {
        self.nodes.len()
    }

    /// Append a checked node; shared tail of every constructor.
    fn push_node(&mut self, kind: NodeKind, shape: Shape) -> (id: usize)
        requires
            old(self).wf(),
            forall|j: int|
                0 <= j < kind_ups(kind).len() ==> (#[trigger] kind_ups(kind)[j] as int) < old(
                    self,
                ).nodes_seq().len(),
            kind matches NodeKind::MergeAny { ups } ==> ups@.len() > 0,
            kind matches NodeKind::MergeAll { ups } ==> ups@.len() > 0,
            shape_ok(old(self).nodes_seq(), kind, shape),
        ensures
            final(self).wf(),
            appended(*old(self), *final(self), id as int),
            final(self).nodes_seq()[id as int].kind == kind,
            final(self).nodes_seq()[id as int].shape == shape,
    {
        let id = self.nodes.len();
        self.nodes.push(Node { kind, shape, value: None });
        self.last_fired.push(false);
        proof {
            let oldn = old(self).nodes_seq();
            let newn = self.nodes_seq();
            assert forall|i: int| 0 <= i < newn.len() implies node_wf(newn, i) by {
                if i < oldn.len() {
                    assert(node_wf(oldn, i));
                    assert(shape_ok(oldn, oldn[i].kind, oldn[i].shape));
                    lemma_shape_ok_frame(oldn, newn, oldn[i].kind, oldn[i].shape, i);
                } else {
                    lemma_shape_ok_frame(oldn, newn, kind, shape, oldn.len() as int);
                }
            }
            assert forall|k: int| 0 <= k < self.observers@.len() implies observer_wf(
                newn,
                #[trigger] self.observers@[k],
            ) by {
                assert(observer_wf(oldn, self.observers@[k]));
            }
            assert forall|k: int| 0 <= k < self.pending@.len() implies pending_wf(
                newn,
                #[trigger] self.pending@[k],
            ) by {
                assert(pending_wf(oldn, self.pending@[k]));
            }
        }
        id
    }

    /// Declare a source: a node fed by external code.
    pub fn source(&mut self) -> (id: usize)
        requires
            old(self).wf(),
        ensures
            final(self).wf(),
            appended(*old(self), *final(self), id as int),
            final(self).nodes_seq()[id as int].kind is Source,
            final(self).nodes_seq()[id as int].shape == Shape::Scalar,
    {
        self.push_node(NodeKind::Source, Shape::Scalar)
    }

    /// Declare a map node over `up`.
    pub fn mapping(&mut self, up: usize, f: MapFn) -> (r: Result<usize, BuildError>)
        requires
            old(self).wf(),
        ensures
            final(self).wf(),
            match r {
                Ok(id) => {
                    &&& (up as int) < old(self).nodes_seq().len()
                    &&& appended(*old(self), *final(self), id as int)
                    &&& final(self).nodes_seq()[id as int].kind == (NodeKind::Mapping { up, f })
                    &&& final(self).nodes_seq()[id as int].shape == (match f {
                        MapFn::Identity => old(self).nodes_seq()[up as int].shape,
                        MapFn::ConstEnv(_) => Shape::Scalar,
                    })
                },
                Err(e) => {
                    &&& unchanged(*old(self), *final(self))
                    &&& e == BuildError::UnknownNode
                    &&& (up as int) >= old(self).nodes_seq().len()
                },
            },
    {
        if up >= self.nodes.len() {
            return Err(BuildError::UnknownNode);
        }
        let shape = match f {
            MapFn::Identity => self.nodes[up].shape,
            MapFn::ConstEnv(_) => Shape::Scalar,
        };
        Ok(self.push_node(NodeKind::Mapping { up, f }, shape))
    }

    /// Declare a filter-map node over `up`, which must carry merge-all pairs.
    pub fn filter_map(&mut self, up: usize, f: FilterMapFn) -> (r: Result<usize, BuildError>)
        requires
            old(self).wf(),
        ensures
            final(self).wf(),
            match r {
                Ok(id) => {
                    &&& (up as int) < old(self).nodes_seq().len()
                    &&& old(self).nodes_seq()[up as int].shape == Shape::Tuple
                    &&& appended(*old(self), *final(self), id as int)
                    &&& final(self).nodes_seq()[id as int].kind == (NodeKind::FilterMap { up, f })
                    &&& final(self).nodes_seq()[id as int].shape == Shape::Scalar
                },
                Err(e) => {
                    &&& unchanged(*old(self), *final(self))
                    &&& (e == BuildError::UnknownNode && (up as int) >= old(
                        self,
                    ).nodes_seq().len()) || (e == BuildError::ShapeMismatch && (up as int) < old(
                        self,
                    ).nodes_seq().len() && old(self).nodes_seq()[up as int].shape != Shape::Tuple)
                },
            },
    {
        if up >= self.nodes.len() {
            return Err(BuildError::UnknownNode);
        }
        let up_shape = self.nodes[up].shape;
        if !matches!(up_shape, Shape::Tuple) {
            return Err(BuildError::ShapeMismatch);
        }
        Ok(self.push_node(NodeKind::FilterMap { up, f }, Shape::Scalar))
    }

    /// Declare a filter node over `up`.
    pub fn filter(&mut self, up: usize, p: PredFn) -> (r: Result<usize, BuildError>)
        requires
            old(self).wf(),
        ensures
            final(self).wf(),
            match r {
                Ok(id) => {
                    &&& (up as int) < old(self).nodes_seq().len()
                    &&& appended(*old(self), *final(self), id as int)
                    &&& final(self).nodes_seq()[id as int].kind == (NodeKind::Filter { up, p })
                    &&& final(self).nodes_seq()[id as int].shape == old(self).nodes_seq()[up as int].shape
                },
                Err(e) => {
                    &&& unchanged(*old(self), *final(self))
                    &&& e == BuildError::UnknownNode
                    &&& (up as int) >= old(self).nodes_seq().len()
                },
            },
    {
        if up >= self.nodes.len() {
            return Err(BuildError::UnknownNode);
        }
        let shape = self.nodes[up].shape;
        Ok(self.push_node(NodeKind::Filter { up, p }, shape))
    }

    /// Declare a sample node: it forwards the current value of `data` each
    /// time `trigger` fires.
    pub fn sample(&mut self, data: usize, trigger: usize) -> (r: Result<usize, BuildError>)
        requires
            old(self).wf(),
        ensures
            final(self).wf(),
            match r {
                Ok(id) => {
                    &&& (data as int) < old(self).nodes_seq().len()
                    &&& (trigger as int) < old(self).nodes_seq().len()
                    &&& appended(*old(self), *final(self), id as int)
                    &&& final(self).nodes_seq()[id as int].kind == (NodeKind::Sample { data, trigger })
                    &&& final(self).nodes_seq()[id as int].shape == old(self).nodes_seq()[
                        data as int
                    ].shape
                },
                Err(e) => {
                    &&& unchanged(*old(self), *final(self))
                    &&& e == BuildError::UnknownNode
                    &&& ((data as int) >= old(self).nodes_seq().len() || (trigger as int) >= old(
                        self,
                    ).nodes_seq().len())
                },
            },
    {
        if data >= self.nodes.len() || trigger >= self.nodes.len() {
            return Err(BuildError::UnknownNode);
        }
        let shape = self.nodes[data].shape;
        Ok(self.push_node(NodeKind::Sample { data, trigger }, shape))
    }

    /// Declare a merge-any node: it fires whenever any upstream fires,
    /// forwarding that upstream's value; ties go to the upstream declared
    /// first.  All upstreams must carry the same payload shape.
    pub fn merge_any(&mut self, ups: Vec<usize>) -> (r: Result<usize, BuildError>)
        requires
            old(self).wf(),
        ensures
            final(self).wf(),
            match r {
                Ok(id) => {
                    &&& ups@.len() > 0
                    &&& forall|j: int|
                        0 <= j < ups@.len() ==> (#[trigger] ups@[j] as int) < old(
                            self,
                        ).nodes_seq().len()
                    &&& forall|j: int|
                        0 <= j < ups@.len() ==> old(self).nodes_seq()[#[trigger] ups@[j] as int]
                            .shape == old(self).nodes_seq()[ups@[0] as int].shape
                    &&& appended(*old(self), *final(self), id as int)
                    &&& final(self).nodes_seq()[id as int].kind matches NodeKind::MergeAny {
                        ups: u,
                    } && u@ == ups@
                    &&& final(self).nodes_seq()[id as int].shape == old(self).nodes_seq()[
                        ups@[0] as int
                    ].shape
                },
                Err(e) => {
                    &&& unchanged(*old(self), *final(self))
                    &&& (e == BuildError::EmptyUpstreams && ups@.len() == 0) || (e
                        == BuildError::UnknownNode && exists|j: int|
                        0 <= j < ups@.len() && (#[trigger] ups@[j] as int) >= old(
                            self,
                        ).nodes_seq().len()) || (e == BuildError::ShapeMismatch && (forall|j: int|
                        0 <= j < ups@.len() ==> (#[trigger] ups@[j] as int) < old(
                            self,
                        ).nodes_seq().len()) && exists|j: int|
                        0 <= j < ups@.len() && old(self).nodes_seq()[#[trigger] ups@[j] as int]
                            .shape != old(self).nodes_seq()[ups@[0] as int].shape)
                },
            },
    {
        if ups.len() == 0 {
            return Err(BuildError::EmptyUpstreams);
        }
        let mut j: usize = 0;
        while j < ups.len()
            invariant
                j <= ups@.len(),
                self.wf(),
                unchanged(*old(self), *self),
                forall|l: int| 0 <= l < j ==> (#[trigger] ups@[l] as int) < self.nodes_seq().len(),
            decreases ups@.len() - j,
        {
            if ups[j] >= self.nodes.len() {
                return Err(BuildError::UnknownNode);
            }
            j = j + 1;
        }
        let shape = self.nodes[ups[0]].shape;
        let mut j: usize = 1;
        while j < ups.len()
            invariant
                1 <= j <= ups@.len(),
                ups@.len() > 0,
                self.wf(),
                unchanged(*old(self), *self),
                forall|l: int| 0 <= l < ups@.len() ==> (#[trigger] ups@[l] as int)
                    < self.nodes_seq().len(),
                shape == self.nodes_seq()[ups@[0] as int].shape,
                forall|l: int| 0 <= l < j ==> self.nodes_seq()[#[trigger] ups@[l] as int].shape
                    == shape,
            decreases ups@.len() - j,
        {
            let same = match (self.nodes[ups[j]].shape, shape) {
                (Shape::Scalar, Shape::Scalar) => true,
                (Shape::Tuple, Shape::Tuple) => true,
                _ => false,
            };
            if !same {
                return Err(BuildError::ShapeMismatch);
            }
            j = j + 1;
        }
        Ok(self.push_node(NodeKind::MergeAny { ups }, shape))
    }

    /// Declare a merge-all node: it fires once every upstream has fired at
    /// least once and any of them fires again, forwarding the combined latest
    /// upstream values.  Upstreams must carry scalar payloads.
    pub fn merge_all(&mut self, ups: Vec<usize>) -> (r: Result<usize, BuildError>)
        requires
            old(self).wf(),
        ensures
            final(self).wf(),
            match r {
                Ok(id) => {
                    &&& ups@.len() > 0
                    &&& forall|j: int|
                        0 <= j < ups@.len() ==> (#[trigger] ups@[j] as int) < old(
                            self,
                        ).nodes_seq().len()
                    &&& forall|j: int|
                        0 <= j < ups@.len() ==> old(self).nodes_seq()[#[trigger] ups@[j] as int]
                            .shape == Shape::Scalar
                    &&& appended(*old(self), *final(self), id as int)
                    &&& final(self).nodes_seq()[id as int].kind matches NodeKind::MergeAll {
                        ups: u,
                    } && u@ == ups@
                    &&& final(self).nodes_seq()[id as int].shape == Shape::Tuple
                },
                Err(e) => {
                    &&& unchanged(*old(self), *final(self))
                    &&& (e == BuildError::EmptyUpstreams && ups@.len() == 0) || (e
                        == BuildError::UnknownNode && exists|j: int|
                        0 <= j < ups@.len() && (#[trigger] ups@[j] as int) >= old(
                            self,
                        ).nodes_seq().len()) || (e == BuildError::ShapeMismatch && (forall|j: int|
                        0 <= j < ups@.len() ==> (#[trigger] ups@[j] as int) < old(
                            self,
                        ).nodes_seq().len()) && exists|j: int|
                        0 <= j < ups@.len() && old(self).nodes_seq()[#[trigger] ups@[j] as int]
                            .shape != Shape::Scalar)
                },
            },
    {
        if ups.len() == 0 {
            return Err(BuildError::EmptyUpstreams);
        }
        let mut j: usize = 0;
        while j < ups.len()
            invariant
                j <= ups@.len(),
                self.wf(),
                unchanged(*old(self), *self),
                forall|l: int| 0 <= l < j ==> (#[trigger] ups@[l] as int) < self.nodes_seq().len(),
            decreases ups@.len() - j,
        {
            if ups[j] >= self.nodes.len() {
                return Err(BuildError::UnknownNode);
            }
            j = j + 1;
        }
        let mut j: usize = 0;
        while j < ups.len()
            invariant
                j <= ups@.len(),
                self.wf(),
                unchanged(*old(self), *self),
                forall|l: int| 0 <= l < ups@.len() ==> (#[trigger] ups@[l] as int)
                    < self.nodes_seq().len(),
                forall|l: int| 0 <= l < j ==> self.nodes_seq()[#[trigger] ups@[l] as int].shape
                    == Shape::Scalar,
            decreases ups@.len() - j,
        {
            let scalar = matches!(self.nodes[ups[j]].shape, Shape::Scalar);
            if !scalar {
                return Err(BuildError::ShapeMismatch);
            }
            j = j + 1;
        }
        Ok(self.push_node(NodeKind::MergeAll { ups }, Shape::Tuple))
    }

    /// Attach an observer to a node; it runs, in registration order, each
    /// time the node updates during a pass.  A feedback observer may only
    /// watch a scalar-shaped node and may only feed a source.
    pub fn observe(&mut self, node: usize, action: ObserverAction) -> (r: Result<
        usize,
        BuildError,
    >)
        requires
            old(self).wf(),
        ensures
            final(self).wf(),
            match r {
                Ok(oid) => {
                    &&& (node as int) < old(self).nodes_seq().len()
                    &&& oid == old(self).observers_seq().len()
                    &&& final(self).observers_seq() == old(self).observers_seq().push(
                        Observer { node, action },
                    )
                    &&& final(self).nodes_seq() == old(self).nodes_seq()
                    &&& final(self).log_seq() == old(self).log_seq()
                    &&& final(self).pending_seq() == old(self).pending_seq()
                    &&& final(self).fired_seq() == old(self).fired_seq()
                },
                Err(e) => {
                    &&& unchanged(*old(self), *final(self))
                    &&& (e == BuildError::UnknownNode && ((node as int) >= old(
                        self,
                    ).nodes_seq().len() || (action matches ObserverAction::EmitInto { source }
                        && (source as int) >= old(self).nodes_seq().len()))) || (e
                        == BuildError::ShapeMismatch && (node as int) < old(
                        self,
                    ).nodes_seq().len() && (action matches ObserverAction::EmitInto { source }
                        && (source as int) < old(self).nodes_seq().len() && !(old(
                        self,
                    ).nodes_seq()[source as int].kind is Source && old(self).nodes_seq()[
                        node as int
                    ].shape == Shape::Scalar)))
                },
            },
    {
        if node >= self.nodes.len() {
            return Err(BuildError::UnknownNode);
        }
        if let ObserverAction::EmitInto { source } = action {
            if source >= self.nodes.len() {
                return Err(BuildError::UnknownNode);
            }
            let src_ok = matches!(self.nodes[source].kind, NodeKind::Source);
            let watched_scalar = matches!(self.nodes[node].shape, Shape::Scalar);
            if !(src_ok && watched_scalar) {
                return Err(BuildError::ShapeMismatch);
            }
        }
        let oid = self.observers.len();
        self.observers.push(Observer { node, action });
        proof {
            assert forall|k: int| 0 <= k < self.observers@.len() implies observer_wf(
                self.nodes@,
                #[trigger] self.observers@[k],
            ) by {
                if k < old(self).observers@.len() {
                    assert(observer_wf(old(self).nodes@, old(self).observers@[k]));
                }
            }
        }
        Ok(oid)
    }

    /// One full propagation pass for `v` arriving at source `src`: every node
    /// transitively reachable from `src` is re-evaluated exactly once, in
    /// dependency order; observers of updated nodes run in registration
    /// order; re-entrant emissions are queued, never run inside this pass.
    fn run_pass(&mut self, src: usize, v: Value)
        requires
            old(self).wf(),
            (src as int) < old(self).nodes_seq().len(),
            old(self).nodes_seq()[src as int].kind is Source,
            shape_of(v@) == Shape::Scalar,
        ensures
            final(self).wf(),
            final(self).observers_seq() == old(self).observers_seq(),
            pass_post(
                old(self).nodes_seq(),
                final(self).nodes_seq(),
                final(self).fired_seq(),
                src as int,
                v@,
            ),
            final(self).log_seq() == old(self).log_seq() + pass_entries(
                old(self).observers_seq(),
                final(self).nodes_seq(),
                final(self).fired_seq(),
                old(self).nodes_seq().len() as int,
            ),
            final(self).pending_seq() == old(self).pending_seq() + pass_emits(
                old(self).observers_seq(),
                final(self).nodes_seq(),
                final(self).fired_seq(),
                old(self).nodes_seq().len() as int,
            ),
    {
        let n = self.nodes.len();
        let mut flags: Vec<bool> = Vec::new();
        while flags.len() < n
            invariant
                flags@.len() <= n,
                forall|j: int| 0 <= j < flags@.len() ==> !(#[trigger] flags@[j]),
            decreases n - flags@.len(),
        {
            flags.push(false);
        }
        self.last_fired = flags;
        let mut carried: Option<Value> = Some(v);
        let mut i: usize = 0;
        proof {
            assert(log_views(self.log@) =~= log_views(old(self).log@) + pass_entries(
                self.observers@,
                self.nodes@,
                self.last_fired@,
                0,
            ));
            assert(pend_views(self.pending@) =~= pend_views(old(self).pending@) + pass_emits(
                self.observers@,
                self.nodes@,
                self.last_fired@,
                0,
            ));
        }
        while i < n
            invariant
                old(self).wf(),
                n == old(self).nodes@.len(),
                (src as int) < n,
                old(self).nodes@[src as int].kind is Source,
                shape_of(v@) == Shape::Scalar,
                i <= n,
                self.nodes@.len() == n,
                self.last_fired@.len() == n,
                self.observers@ == old(self).observers@,
                i <= src ==> carried == Some(v),
                forall|j: int|
                    0 <= j < n ==> (#[trigger] self.nodes@[j]).kind == old(self).nodes@[j].kind
                        && self.nodes@[j].shape == old(self).nodes@[j].shape,
                forall|j: int|
                    i <= j < n ==> (#[trigger] self.nodes@[j]).value == old(self).nodes@[j].value
                        && !self.last_fired@[j],
                i > src ==> self.last_fired@[src as int] && self.nodes@[src as int].value == Some(
                    v,
                ),
                forall|j: int|
                    0 <= j < i && j != src ==> #[trigger] self.last_fired@[j] == node_fires(
                        self.nodes@[j].kind,
                        vals_of(self.nodes@),
                        self.last_fired@,
                    ),
                forall|j: int|
                    0 <= j < i && j != src && #[trigger] self.last_fired@[j]
                        ==> self.nodes@[j].value is Some && node_out_ok(
                        self.nodes@[j].kind,
                        vals_of(self.nodes@),
                        self.last_fired@,
                        self.nodes@[j].value.unwrap()@,
                    ),
                forall|j: int|
                    0 <= j < i && !(#[trigger] self.last_fired@[j]) ==> self.nodes@[j].value
                        == old(self).nodes@[j].value,
                forall|j: int|
                    0 <= j < n && #[trigger] self.last_fired@[j] ==> self.nodes@[j].value is Some,
                nodes_wf(self.nodes@),
                forall|k: int|
                    0 <= k < self.observers@.len() ==> observer_wf(
                        self.nodes@,
                        #[trigger] self.observers@[k],
                    ),
                forall|k: int|
                    0 <= k < self.pending@.len() ==> pending_wf(
                        self.nodes@,
                        #[trigger] self.pending@[k],
                    ),
                log_views(self.log@) == log_views(old(self).log@) + pass_entries(
                    self.observers@,
                    self.nodes@,
                    self.last_fired@,
                    i as int,
                ),
                pend_views(self.pending@) == pend_views(old(self).pending@) + pass_emits(
                    self.observers@,
                    self.nodes@,
                    self.last_fired@,
                    i as int,
                ),
            decreases n - i,
        {
            let ghost nodes_pre = self.nodes@;
            let ghost fired_pre = self.last_fired@;
            let ghost pend_pre = self.pending@;
            let fire_val: Option<Value> = if i == src {
                let vv = match carried {
                    Some(x) => x,
                    None => vstd::pervasive::unreached(),
                };
                carried = None;
                Some(vv)
            } else {
                eval_node(&self.nodes, &self.last_fired, i)
            };
            match fire_val {
                Some(val) => {
                    let ghost val_view = val@;
                    proof {
                        if i != src {
                            assert(node_fires(nodes_pre[i as int].kind, vals_of(nodes_pre),
                                fired_pre));
                            assert(shape_of(val_view) == nodes_pre[i as int].shape);
                        } else {
                            assert(node_wf(nodes_pre, src as int));
                            assert(shape_ok(nodes_pre, nodes_pre[src as int].kind,
                                nodes_pre[src as int].shape));
                            assert(nodes_pre[src as int].shape == Shape::Scalar);
                        }
                    }
                    set_node_value(&mut self.nodes, i, val);
                    set_flag(&mut self.last_fired, i);
                    let ghost nodes_mid = self.nodes@;
                    let ghost fired_mid = self.last_fired@;
                    proof {
                        assert(vals_of(nodes_mid).len() == n);
                        assert forall|x: int| 0 <= x < n && x != i implies vals_of(nodes_mid)[x]
                            == vals_of(nodes_pre)[x] by {
                            assert(nodes_mid[x] == nodes_pre[x]);
                        }
                        assert(vals_of(nodes_mid)[i as int] == Some(val));
                    }
                    let val_ref = opt_get(&self.nodes[i].value);
                    proof {
                        assert(*val_ref == nodes_mid[i as int].value.unwrap());
                        assert(val_ref@ == val_view);
                    }
                    run_observers(&self.observers, &mut self.log, &mut self.pending, i, val_ref);
                    proof {
                        let obs = self.observers@;
                        assert(pend_views(self.pending@) == pend_views(pend_pre) + obs_emits(
                            obs,
                            i as int,
                            val_view,
                            obs.len() as int,
                        ));
                        // the prefix facts survive the two point updates
                        assert forall|j: int|
                            0 <= j < i + 1 && j != src && #[trigger] fired_mid[j] implies
                            self.nodes@[j].value is Some && node_out_ok(
                            self.nodes@[j].kind,
                            vals_of(nodes_mid),
                            fired_mid,
                            self.nodes@[j].value.unwrap()@,
                        ) by {
                            assert(node_wf(nodes_pre, j));
                            lemma_node_frame(
                                nodes_pre[j].kind,
                                vals_of(nodes_pre),
                                vals_of(nodes_mid),
                                fired_pre,
                                fired_mid,
                                j,
                            );
                            if j < i {
                                assert(fired_pre[j]);
                                assert(nodes_mid[j] == nodes_pre[j]);
                            } else {
                                assert(j == i);
                                assert(node_out_ok(nodes_pre[i as int].kind, vals_of(nodes_pre),
                                    fired_pre, val_view));
                            }
                        }
                        assert forall|j: int| 0 <= j < i + 1 && j != src implies #[trigger]
                            fired_mid[j] == node_fires(
                            self.nodes@[j].kind,
                            vals_of(nodes_mid),
                            fired_mid,
                        ) by {
                            assert(node_wf(nodes_pre, j));
                            lemma_node_frame(
                                nodes_pre[j].kind,
                                vals_of(nodes_pre),
                                vals_of(nodes_mid),
                                fired_pre,
                                fired_mid,
                                j,
                            );
                        }
                        // well-formedness survives
                        assert forall|j: int| 0 <= j < n implies node_wf(nodes_mid, j) by {
                            assert(node_wf(nodes_pre, j));
                            lemma_shape_ok_frame(
                                nodes_pre,
                                nodes_mid,
                                nodes_pre[j].kind,
                                nodes_pre[j].shape,
                                j,
                            );
                            if j != i {
                                assert(nodes_mid[j] == nodes_pre[j]);
                            }
                        }
                        assert forall|k: int| 0 <= k < obs.len() implies observer_wf(
                            nodes_mid,
                            #[trigger] obs[k],
                        ) by {
                            assert(observer_wf(nodes_pre, obs[k]));
                        }
                        // the new pending entries are well formed
                        assert(shape_of(val_view) == nodes_mid[i as int].shape);
                        lemma_obs_emits_wf(nodes_mid, obs, i as int, val_view, obs.len() as int);
                        assert forall|x: int| 0 <= x < self.pending@.len() implies pending_wf(
                            nodes_mid,
                            #[trigger] self.pending@[x],
                        ) by {
                            let old_len = pend_pre.len() as int;
                            if x < old_len {
                                assert(self.pending@[x] == pend_pre[x]);
                                assert(pending_wf(nodes_pre, pend_pre[x]));
                                assert(nodes_mid[pend_pre[x].source as int].kind
                                    == nodes_pre[pend_pre[x].source as int].kind);
                            } else {
                                let pv = pend_views(self.pending@)[x];
                                assert(pend_views(self.pending@) == pend_views(pend_pre)
                                    + obs_emits(obs, i as int, val_view, obs.len() as int));
                                assert(pend_views(pend_pre).len() == old_len);
                                assert(pv == obs_emits(obs, i as int, val_view, obs.len() as int)[
                                    x - old_len
                                ]);
                                assert(pv == self.pending@[x]@);
                                assert((self.pending@[x].source as int) == pv.source);
                                assert(self.pending@[x].value@ == pv.value);
                            }
                        }
                        // log and pending equations advance one step
                        lemma_pass_frame(obs, nodes_pre, nodes_mid, fired_pre, fired_mid, i as int);
                        assert(fired_mid[i as int]);
                        assert(nodes_mid[i as int].value.unwrap()@ == val_view);
                        assert(pass_entries(obs, nodes_mid, fired_mid, i + 1) == pass_entries(
                            obs,
                            nodes_mid,
                            fired_mid,
                            i as int,
                        ) + obs_entries(obs, i as int, val_view, obs.len() as int));
                        assert(log_views(self.log@) =~= log_views(old(self).log@) + pass_entries(
                            obs,
                            nodes_mid,
                            fired_mid,
                            i + 1,
                        ));
                        assert(pass_emits(obs, nodes_mid, fired_mid, i + 1) == pass_emits(
                            obs,
                            nodes_mid,
                            fired_mid,
                            i as int,
                        ) + obs_emits(obs, i as int, val_view, obs.len() as int));
                        assert(pend_views(self.pending@) =~= pend_views(old(self).pending@)
                            + pass_emits(obs, nodes_mid, fired_mid, i + 1));
                    }
                },
                None => {
                    proof {
                        assert(i != src);
                        assert(!node_fires(nodes_pre[i as int].kind, vals_of(nodes_pre),
                            fired_pre));
                        assert(pass_entries(self.observers@, self.nodes@, self.last_fired@, i + 1)
                            == pass_entries(
                            self.observers@,
                            self.nodes@,
                            self.last_fired@,
                            i as int,
                        ));
                        assert(pass_emits(self.observers@, self.nodes@, self.last_fired@, i + 1)
                            == pass_emits(
                            self.observers@,
                            self.nodes@,
                            self.last_fired@,
                            i as int,
                        ));
                    }
                },
            }
            i = i + 1;
        }
    }

    /// Emit a value into a source: the unit of external input.  Runs exactly
    /// one propagation pass; whatever re-entrant emissions the pass queued
    /// stay in the pending queue, after anything already there, and do not
    /// affect any node until a later pass processes them.
    pub fn emit(&mut self, source: usize, value: Value) -> (r: Result<(), EmitError>)
        requires
            old(self).wf(),
        ensures
            final(self).wf(),
            final(self).observers_seq() == old(self).observers_seq(),
            match r {
                Ok(()) => {
                    &&& (source as int) < old(self).nodes_seq().len()
                    &&& old(self).nodes_seq()[source as int].kind is Source
                    &&& shape_of(value@) == Shape::Scalar
                    &&& pass_post(
                        old(self).nodes_seq(),
                        final(self).nodes_seq(),
                        final(self).fired_seq(),
                        source as int,
                        value@,
                    )
                    &&& final(self).log_seq() == old(self).log_seq() + pass_entries(
                        old(self).observers_seq(),
                        final(self).nodes_seq(),
                        final(self).fired_seq(),
                        old(self).nodes_seq().len() as int,
                    )
                    &&& final(self).pending_seq() == old(self).pending_seq() + pass_emits(
                        old(self).observers_seq(),
                        final(self).nodes_seq(),
                        final(self).fired_seq(),
                        old(self).nodes_seq().len() as int,
                    )
                },
                Err(e) => {
                    &&& unchanged(*old(self), *final(self))
                    &&& (e == EmitError::UnknownNode && (source as int) >= old(
                        self,
                    ).nodes_seq().len()) || (e == EmitError::NotASource && (source as int) < old(
                        self,
                    ).nodes_seq().len() && !(old(self).nodes_seq()[source as int].kind is Source))
                        || (e == EmitError::ShapeMismatch && (source as int) < old(
                        self,
                    ).nodes_seq().len() && old(self).nodes_seq()[source as int].kind is Source
                        && shape_of(value@) != Shape::Scalar)
                },
            },
    {
        if source >= self.nodes.len() {
            return Err(EmitError::UnknownNode);
        }
        if !matches!(self.nodes[source].kind, NodeKind::Source) {
            return Err(EmitError::NotASource);
        }
        if matches!(value, Value::Tuple(_)) {
            return Err(EmitError::ShapeMismatch);
        }
        self.run_pass(source, value);
        Ok(())
    }

    /// Process the oldest queued re-entrant emission, if any, as one full
    /// pass of its own.  Returns whether a pass ran.
    pub fn step_pending(&mut self) -> (r: bool)
        requires
            old(self).wf(),
        ensures
            final(self).wf(),
            final(self).observers_seq() == old(self).observers_seq(),
            !r ==> old(self).pending_seq().len() == 0 && unchanged(*old(self), *final(self)),
            r ==> 0 <= old(self).pending_seq()[0].source < old(self).nodes_seq().len() && old(
                self,
            ).nodes_seq()[old(self).pending_seq()[0].source].kind is Source && shape_of(
                old(self).pending_seq()[0].value,
            ) == Shape::Scalar,
            r ==> old(self).pending_seq().len() > 0 && pass_post(
                old(self).nodes_seq(),
                final(self).nodes_seq(),
                final(self).fired_seq(),
                old(self).pending_seq()[0].source,
                old(self).pending_seq()[0].value,
            ) && final(self).log_seq() == old(self).log_seq() + pass_entries(
                old(self).observers_seq(),
                final(self).nodes_seq(),
                final(self).fired_seq(),
                old(self).nodes_seq().len() as int,
            ) && final(self).pending_seq() == old(self).pending_seq().skip(1) + pass_emits(
                old(self).observers_seq(),
                final(self).nodes_seq(),
                final(self).fired_seq(),
                old(self).nodes_seq().len() as int,
            ),
    {
        if self.pending.len() == 0 {
            return false;
        }
        let ev = self.pending.remove(0);
        proof {
            assert(pending_wf(old(self).nodes@, old(self).pending@[0]));
            assert(pend_views(self.pending@) =~= pend_views(old(self).pending@).skip(1));
        }
        let PendingEvent { source, value } = ev;
        self.run_pass(source, value);
        proof {
            assert(final(self).pending_seq() =~= old(self).pending_seq().skip(1) + pass_emits(
                old(self).observers_seq(),
                final(self).nodes_seq(),
                final(self).fired_seq(),
                old(self).nodes_seq().len() as int,
            ));
        }
        true
    }

    /// Run queued passes until the queue is empty or `fuel` passes have run.
    /// Returns whether the network is quiescent: nothing left in the queue.
    /// The final state is the old one after some number `k <= fuel` of queued
    /// events, oldest first, each processed as one full pass; the fuel ran
    /// out before the queue only when the answer is no.
    pub fn run_pending(&mut self, fuel: usize) -> (r: bool)
        requires
            old(self).wf(),
        ensures
            final(self).wf(),
            final(self).observers_seq() == old(self).observers_seq(),
            r == (final(self).pending_seq().len() == 0),
            exists|k: int|
                0 <= k <= fuel && #[trigger] processed_passes(*old(self), *final(self), k) && (!r
                    ==> k == fuel),
            fuel == 0 ==> unchanged(*old(self), *final(self)),
    {
        let mut budget = fuel;
        let ghost mut steps: int = 0;
        loop
            invariant
                self.wf(),
                self.observers_seq() == old(self).observers_seq(),
                budget <= fuel,
                steps == fuel - budget,
                processed_passes(*old(self), *self, steps),
            ensures
                self.wf(),
                self.observers_seq() == old(self).observers_seq(),
                self.pending_seq().len() == 0 || budget == 0,
                0 <= steps <= fuel,
                processed_passes(*old(self), *self, steps),
                self.pending_seq().len() > 0 ==> steps == fuel,
                fuel == 0 ==> unchanged(*old(self), *self),
            decreases budget,
        {
            if budget == 0 {
                break;
            }
            if self.pending_len() == 0 {
                break;
            }
            let ghost mid = *self;
            let stepped = self.step_pending();
            proof {
                assert(stepped);
                assert(pass_step(mid, *self));
                let prev = steps;
                steps = steps + 1;
                assert(processed_passes(*old(self), mid, steps - 1)) by {
                    assert(steps - 1 == prev);
                    assert(processed_passes(*old(self), mid, prev));
                }
                assert(processed_passes(*old(self), *self, steps));
            }
            budget = budget - 1;
        }
        self.pending_len() == 0
    }

    /// The last produced value of a node, or nothing if the handle is unknown
    /// or the node has never fired.
    pub fn current(&self, node: usize) -> (r: Option<&Value>)
        ensures
            match r {
                Some(v) => (node as int) < self.nodes_seq().len() && self.nodes_seq()[
                    node as int
                ].value == Some(*v),
                None => (node as int) >= self.nodes_seq().len() || self.nodes_seq()[
                    node as int
                ].value is None,
            },
    {
        if node < self.nodes.len() {
            self.nodes[node].value.as_ref()
        } else {
            None
        }
    }

    /// Whether a node fired during the most recent pass.
    pub fn was_fired(&self, node: usize) -> (r: bool)
        ensures
            r == ((node as int) < self.fired_seq().len() && self.fired_seq()[node as int]),
    {
        if node < self.last_fired.len() {
            self.last_fired[node]
        } else {
            false
        }
    }

    /// The number of recorded observer effects.
    pub fn log_len(&self) -> (r: usize)
        ensures
            r == self.log_seq().len(),
    {
        self.log.len()
    }

    /// The `i`-th recorded observer effect, oldest first.
    pub fn log_entry(&self, i: usize) -> (r: Option<&LogEntry>)
        ensures
            match r {
                Some(e) => (i as int) < self.log_seq().len() && e@ == self.log_seq()[i as int],
                None => (i as int) >= self.log_seq().len(),
            },
    {
        if i < self.log.len() {
            Some(&self.log[i])
        } else {
            None
        }
    }

    /// How many re-entrant emissions are queued for later passes.
    pub fn pending_len(&self) -> (r: usize)
        ensures
            r == self.pending_seq().len(),
    {
        self.pending.len()
    }
}

/// The view of a node's stored value, if any.
pub open spec fn opt_val_view(o: Option<Value>) -> Option<ValueV> {
    match o {
        Some(v) => Some(v@),
        None => None,
    }
}

/// Firing and output of one node are determined by the fired flags and value
/// views of the entries below `b` that its rule reads.
proof fn lemma_node_det(
    k: NodeKind,
    vals1: Seq<Option<Value>>,
    vals2: Seq<Option<Value>>,
    fired1: Seq<bool>,
    fired2: Seq<bool>,
    b: int,
    out1: ValueV,
    out2: ValueV,
)
    requires
        forall|j: int| 0 <= j < kind_ups(k).len() ==> (#[trigger] kind_ups(k)[j] as int) < b,
        0 <= b <= vals1.len(),
        vals1.len() == vals2.len(),
        fired1.len() == vals1.len(),
        fired2.len() == vals2.len(),
        forall|j: int|
            0 <= j < b ==> #[trigger] fired1[j] == fired2[j] && opt_val_view(vals1[j])
                == opt_val_view(vals2[j]),
        forall|j: int| 0 <= j < b && #[trigger] fired1[j] ==> vals1[j] is Some,
    ensures
        node_fires(k, vals1, fired1) == node_fires(k, vals2, fired2),
        (node_fires(k, vals1, fired1) && node_out_ok(k, vals1, fired1, out1) && node_out_ok(
            k,
            vals2,
            fired2,
            out2,
        )) ==> out1 == out2,
{
    match k {
        NodeKind::Source => {},
        NodeKind::Mapping { up, .. } => {
            assert(kind_ups(k)[0] == up);
            assert(fired1[up as int] == fired2[up as int]);
            assert(opt_val_view(vals1[up as int]) == opt_val_view(vals2[up as int]));
        },
        NodeKind::FilterMap { up, .. } => {
            assert(kind_ups(k)[0] == up);
            assert(fired1[up as int] == fired2[up as int]);
            assert(opt_val_view(vals1[up as int]) == opt_val_view(vals2[up as int]));
        },
        NodeKind::Filter { up, .. } => {
            assert(kind_ups(k)[0] == up);
            assert(fired1[up as int] == fired2[up as int]);
            assert(opt_val_view(vals1[up as int]) == opt_val_view(vals2[up as int]));
        },
        NodeKind::Sample { data, trigger } => {
            assert(kind_ups(k)[0] == data);
            assert(kind_ups(k)[1] == trigger);
            assert(fired1[trigger as int] == fired2[trigger as int]);
            assert(fired1[data as int] == fired2[data as int]);
            assert(opt_val_view(vals1[data as int]) == opt_val_view(vals2[data as int]));
        },
        NodeKind::MergeAny { ups } => {
            assert forall|j: int| 0 <= j < ups@.len() implies (ups@[j] as int) < b by {
                assert(kind_ups(k)[j] == ups@[j]);
            }
            assert forall|j: int| 0 <= j < ups@.len() implies fired1[ups@[j] as int] == fired2[
                ups@[j] as int
            ] && opt_val_view(vals1[ups@[j] as int]) == opt_val_view(vals2[ups@[j] as int]) by {
                let u = ups@[j] as int;
                assert(fired1[u] == fired2[u]);
            }
            assert(node_fires(k, vals1, fired1) == node_fires(k, vals2, fired2));
            if node_fires(k, vals1, fired1) && node_out_ok(k, vals1, fired1, out1) && node_out_ok(
                k,
                vals2,
                fired2,
                out2,
            ) {
                let j1 = choose|j: int|
                    is_first_fired(ups@, fired1, j) && out1 == vals1[ups@[j] as int].unwrap()@;
                let j2 = choose|j: int|
                    is_first_fired(ups@, fired2, j) && out2 == vals2[ups@[j] as int].unwrap()@;
                assert(is_first_fired(ups@, fired1, j2));
                lemma_merge_any_tie_break(k, vals1, fired1, out1, j2);
                assert(out1 == vals1[ups@[j2] as int].unwrap()@);
                assert(fired1[ups@[j2] as int]);
                assert(vals1[ups@[j2] as int] is Some);
                assert(opt_val_view(vals1[ups@[j2] as int]) == opt_val_view(
                    vals2[ups@[j2] as int],
                ));
                assert(vals2[ups@[j2] as int] is Some);
            }
        },
        NodeKind::MergeAll { ups } => {
            assert forall|j: int| 0 <= j < ups@.len() implies (ups@[j] as int) < b by {
                assert(kind_ups(k)[j] == ups@[j]);
            }
            assert forall|j: int| 0 <= j < ups@.len() implies fired1[ups@[j] as int] == fired2[
                ups@[j] as int
            ] && opt_val_view(vals1[ups@[j] as int]) == opt_val_view(vals2[ups@[j] as int]) by {
                let u = ups@[j] as int;
                assert(fired1[u] == fired2[u]);
            }
            if (forall|j: int| 0 <= j < ups@.len() ==> vals1[#[trigger] ups@[j] as int] is Some) {
                assert forall|j: int|
                    0 <= j < ups@.len() implies vals2[#[trigger] ups@[j] as int] is Some by {
                    assert(vals1[ups@[j] as int] is Some);
                }
            }
            if (forall|j: int| 0 <= j < ups@.len() ==> vals2[#[trigger] ups@[j] as int] is Some) {
                assert forall|j: int|
                    0 <= j < ups@.len() implies vals1[#[trigger] ups@[j] as int] is Some by {
                    assert(vals2[ups@[j] as int] is Some);
                }
            }
            assert(node_fires(k, vals1, fired1) == node_fires(k, vals2, fired2));
            if node_fires(k, vals1, fired1) && node_out_ok(k, vals1, fired1, out1) && node_out_ok(
                k,
                vals2,
                fired2,
                out2,
            ) {
                let s1 = out1->Tuple_0;
                let s2 = out2->Tuple_0;
                assert forall|j: int| 0 <= j < ups@.len() implies s1[j] == s2[j] by {
                    let u = ups@[j] as int;
                    assert(vals1[u] is Some && vals2[u] is Some);
                    assert(opt_val_view(vals1[u]) == opt_val_view(vals2[u]));
                }
                assert(s1 =~= s2);
            }
        },
    }
}

/// Agreement of two outcomes of the same pass, below a bound.
proof fn lemma_pass_det_upto(
    pre: Seq<Node>,
    post1: Seq<Node>,
    fired1: Seq<bool>,
    post2: Seq<Node>,
    fired2: Seq<bool>,
    src: int,
    v: ValueV,
    b: int,
)
    requires
        nodes_wf(pre),
        pass_post(pre, post1, fired1, src, v),
        pass_post(pre, post2, fired2, src, v),
        0 <= b <= pre.len(),
    ensures
        forall|i: int| 0 <= i < b ==> #[trigger] fired1[i] == fired2[i],
        forall|i: int|
            0 <= i < b ==> #[trigger] opt_val_view(post1[i].value) == opt_val_view(
                post2[i].value,
            ),
    decreases b,
{
    if b > 0 {
        lemma_pass_det_upto(pre, post1, fired1, post2, fired2, src, v, b - 1);
        let i = b - 1;
        assert forall|j: int| 0 <= j < i implies #[trigger] fired1[j] == fired2[j] && opt_val_view(
            vals_of(post1)[j],
        ) == opt_val_view(vals_of(post2)[j]) by {
            assert(fired1[j] == fired2[j]);
        }
        assert forall|j: int| 0 <= j < i && #[trigger] fired1[j] implies vals_of(
            post1,
        )[j] is Some by {
            if j == src {
                assert(post1[j].value is Some);
            } else {
                assert(post1[j].value is Some);
            }
        }
        if i == src {
            assert(fired1[i] && fired2[i]);
            assert(opt_val_view(post1[i].value) == Some(v));
            assert(opt_val_view(post2[i].value) == Some(v));
        } else {
            assert(node_wf(pre, i));
            let k = pre[i].kind;
            assert(post1[i].kind == k && post2[i].kind == k);
            if fired1[i] && fired2[i] {
                lemma_node_det(
                    k,
                    vals_of(post1),
                    vals_of(post2),
                    fired1,
                    fired2,
                    i,
                    post1[i].value.unwrap()@,
                    post2[i].value.unwrap()@,
                );
                assert(post1[i].value is Some && post2[i].value is Some);
            } else {
                lemma_node_det(k, vals_of(post1), vals_of(post2), fired1, fired2, i, v, v);
                assert(fired1[i] == node_fires(k, vals_of(post1), fired1));
                assert(fired2[i] == node_fires(k, vals_of(post2), fired2));
                assert(fired1[i] == fired2[i]);
                assert(!fired1[i]);
                assert(post1[i].value == pre[i].value && post2[i].value == pre[i].value);
            }
            assert(fired1[i] == fired2[i]);
            assert(opt_val_view(post1[i].value) == opt_val_view(post2[i].value));
        }
    }
}

/// One event has exactly one outcome: any two post-states satisfying the pass
/// relation for the same event agree on every fired flag and, in the deep
/// view, on every node value.  Together with the pass relation itself this
/// says that every node's value after a pass is the one pure function of its
/// declared upstreams' post-pass values that its combinator kind specifies.
pub proof fn lemma_pass_deterministic(
    pre: Seq<Node>,
    post1: Seq<Node>,
    fired1: Seq<bool>,
    post2: Seq<Node>,
    fired2: Seq<bool>,
    src: int,
    v: ValueV,
)
    requires
        nodes_wf(pre),
        pass_post(pre, post1, fired1, src, v),
        pass_post(pre, post2, fired2, src, v),
    ensures
        forall|i: int| 0 <= i < pre.len() ==> #[trigger] fired1[i] == fired2[i],
        forall|i: int|
            0 <= i < pre.len() ==> #[trigger] opt_val_view(post1[i].value) == opt_val_view(
                post2[i].value,
            ),
{
    lemma_pass_det_upto(pre, post1, fired1, post2, fired2, src, v, pre.len() as int);
}

/// A node that no observer watches contributes no log entries.
pub proof fn lemma_obs_entries_quiet(obs: Seq<Observer>, i: int, val: ValueV, m: int)
    requires
        forall|k: int| 0 <= k < obs.len() ==> (#[trigger] obs[k]).node != i,
        m <= obs.len(),
    ensures
        obs_entries(obs, i, val, m) == Seq::<LogEntryV>::empty(),
        obs_emits(obs, i, val, m) == Seq::<PendingEventV>::empty(),
    decreases m,
{
    if m > 0 {
        lemma_obs_entries_quiet(obs, i, val, m - 1);
        assert(obs_entries(obs, i, val, m) =~= Seq::<LogEntryV>::empty());
        assert(obs_emits(obs, i, val, m) =~= Seq::<PendingEventV>::empty());
    }
}

/// A pass whose fired nodes are all unobserved appends nothing to the log
/// and queues nothing.
pub proof fn lemma_pass_quiet(obs: Seq<Observer>, post: Seq<Node>, fired: Seq<bool>, i: int)
    requires
        forall|j: int, k: int|
            0 <= j < i && #[trigger] fired[j] && 0 <= k < obs.len() ==> (#[trigger] obs[k]).node
                != j,
    ensures
        pass_entries(obs, post, fired, i) == Seq::<LogEntryV>::empty(),
        pass_emits(obs, post, fired, i) == Seq::<PendingEventV>::empty(),
    decreases i,
{
    if i > 0 {
        lemma_pass_quiet(obs, post, fired, i - 1);
        if fired[i - 1] {
            lemma_obs_entries_quiet(
                obs,
                i - 1,
                post[i - 1].value.unwrap()@,
                obs.len() as int,
            );
        }
        assert(pass_entries(obs, post, fired, i) =~= Seq::<LogEntryV>::empty());
        assert(pass_emits(obs, post, fired, i) =~= Seq::<PendingEventV>::empty());
    }
}

/// The merge-all gate, as a state invariant: a merge-all node whose declared
/// upstreams have not all fired at least once since the network was created
/// has never fired itself, so it still holds no value.
pub open spec fn merge_all_gated(nodes: Seq<Node>) -> bool {
    forall|i: int|
        0 <= i < nodes.len() ==> ((#[trigger] nodes[i]).kind matches NodeKind::MergeAll { ups }
            && (exists|j: int| 0 <= j < ups@.len() && nodes[ups@[j] as int].value is None)
            ==> nodes[i].value is None)
}

/// The merge-all gate holds in every reachable state: one pass preserves it.
/// This is the temporal half of the merge-all rule; the per-pass half is
/// `lemma_merge_all_gating`.
pub proof fn lemma_merge_all_gate_invariant(
    pre: Seq<Node>,
    post: Seq<Node>,
    fired: Seq<bool>,
    src: int,
    v: ValueV,
)
    requires
        nodes_wf(pre),
        pre[src].kind is Source,
        pass_post(pre, post, fired, src, v),
        merge_all_gated(pre),
    ensures
        merge_all_gated(post),
{
    assert forall|i: int|
        0 <= i < post.len() implies ((#[trigger] post[i]).kind matches NodeKind::MergeAll { ups }
        && (exists|j: int| 0 <= j < ups@.len() && post[ups@[j] as int].value is None) ==> post[
        i
    ].value is None) by {
        if let NodeKind::MergeAll { ups } = post[i].kind {
            if exists|j: int| 0 <= j < ups@.len() && post[ups@[j] as int].value is None {
                lemma_merge_all_gate_case(pre, post, fired, src, v, i);
            }
        }
    }
}

/// One node's case of the merge-all gate preservation.
proof fn lemma_merge_all_gate_case(
    pre: Seq<Node>,
    post: Seq<Node>,
    fired: Seq<bool>,
    src: int,
    v: ValueV,
    i: int,
)
    requires
        nodes_wf(pre),
        pre[src].kind is Source,
        pass_post(pre, post, fired, src, v),
        merge_all_gated(pre),
        0 <= i < post.len(),
        post[i].kind matches NodeKind::MergeAll { ups } && exists|j: int|
            0 <= j < ups@.len() && post[ups@[j] as int].value is None,
    ensures
        post[i].value is None,
{
    if let NodeKind::MergeAll { ups } = post[i].kind {
        {
            let j = choose|j: int| 0 <= j < ups@.len() && post[ups@[j] as int].value is None;
            let u = ups@[j] as int;
            assert(node_wf(pre, i));
            assert(kind_ups(pre[i].kind)[j] == ups@[j]);
            assert(0 <= u < pre.len());
            assert(!fired[u]);
            assert(post[u].value == pre[u].value);
            assert(i != src);
            if fired[i] {
                assert(node_fires(post[i].kind, vals_of(post), fired));
                assert(vals_of(post)[u] is Some);
            }
            assert(!fired[i]);
            assert(post[i].value == pre[i].value);
            assert(pre[i].kind matches NodeKind::MergeAll { ups: u2 } && u2@ == ups@);
            assert(pre[u].value is None);
        }
    }
}

/// Merge-any tie-break: when several declared upstreams of a merge-any node
/// fire in the same pass, the node's output is the value of the upstream
/// declared first among those that fired.
pub proof fn lemma_merge_any_tie_break(
    k: NodeKind,
    vals: Seq<Option<Value>>,
    fired: Seq<bool>,
    out: ValueV,
    j: int,
)
    requires
        k matches NodeKind::MergeAny { ups } && is_first_fired(ups@, fired, j),
        node_out_ok(k, vals, fired, out),
    ensures
        k matches NodeKind::MergeAny { ups } ==> out == vals[ups@[j] as int].unwrap()@,
{
    if let NodeKind::MergeAny { ups } = k {
        let w = choose|w: int|
            is_first_fired(ups@, fired, w) && out == vals[ups@[w] as int].unwrap()@;
        if w < j {
            assert(!fired[ups@[w] as int]);
        }
        if j < w {
            assert(!fired[ups@[j] as int]);
        }
        assert(w == j);
    }
}

/// Merge-all gating: a merge-all node fires exactly when every declared
/// upstream has fired at least once since the network was created and at
/// least one of them fires in this pass; whenever it fires it forwards the
/// combined latest values of all its upstreams, in declaration order.
pub proof fn lemma_merge_all_gating(
    k: NodeKind,
    vals: Seq<Option<Value>>,
    fired: Seq<bool>,
    out: ValueV,
)
    requires
        k matches NodeKind::MergeAll { ups },
    ensures
        k matches NodeKind::MergeAll { ups } ==> (node_fires(k, vals, fired) <==> ((forall|j: int|
            0 <= j < ups@.len() ==> vals[#[trigger] ups@[j] as int] is Some) && (exists|j: int|
            0 <= j < ups@.len() && fired[#[trigger] ups@[j] as int]))),
        k matches NodeKind::MergeAll { ups } ==> (node_out_ok(k, vals, fired, out) <==> (
        out matches ValueV::Tuple(s) && s.len() == ups@.len() && forall|j: int|
            0 <= j < ups@.len() ==> s[j] == scalar_of(vals[#[trigger] ups@[j] as int].unwrap()@))),
{
}

/// Fetch the value a fired upstream is known to hold.
fn opt_get<'a>(o: &'a Option<Value>) -> (r: &'a Value)
    requires
        o is Some,
    ensures
        *r == o.unwrap(),
{
    match o {
        Some(v) => v,
        None => vstd::pervasive::unreached(),
    }
}

/// Apply a map transform.
fn apply_map(f: &MapFn, v: &Value) -> (r: Value)
    ensures
        r@ == apply_map_spec(*f, v@),
{
    match f {
        MapFn::Identity => v.duplicate(),
        MapFn::ConstEnv(e) => Value::Scalar(Scalar::Env(*e)),
    }
}

/// Apply a filter-map transform.
fn apply_filter_map(f: &FilterMapFn, v: &Value) -> (r: Option<Value>)
    ensures
        match r {
            Some(out) => apply_filter_map_spec(*f, v@) == Some(out@),
            None => apply_filter_map_spec(*f, v@) is None,
        },
{
    match f {
        FilterMapFn::NextEnv => match v {
            Value::Tuple(vs) => {
                if vs.len() == 2 {
                    proof {
                        assert(v@ matches ValueV::Tuple(s) && s.len() == 2 && s[0] == vs@[0]@
                            && s[1] == vs@[1]@);
                    }
                    match (&vs[0], &vs[1]) {
                        (Scalar::Env(c), Scalar::Envs(a)) => {
                            match crate::selector::get_next_execution_environment(c, a) {
                                Some(e) => Some(Value::Scalar(Scalar::Env(e))),
                                None => None,
                            }
                        },
                        _ => None,
                    }
                } else {
                    None
                }
            },
            _ => None,
        },
    }
}

/// Apply a filter predicate.
fn apply_pred(p: &PredFn, v: &Value) -> (r: bool)
    ensures
        r == apply_pred_spec(*p, v@),
{
    match p {
        PredFn::EnvIs(e) => match v {
            Value::Scalar(s) => match s {
                Scalar::Env(x) => *x == *e,
                _ => false,
            },
            _ => false,
        },
    }
}

/// `node_fires` and `node_out_ok` read only entries below `b`: they are
/// unaffected by anything the pass later writes at or above `b`.
proof fn lemma_node_frame(
    k: NodeKind,
    vals1: Seq<Option<Value>>,
    vals2: Seq<Option<Value>>,
    fired1: Seq<bool>,
    fired2: Seq<bool>,
    b: int,
)
    requires
        forall|j: int| 0 <= j < kind_ups(k).len() ==> (#[trigger] kind_ups(k)[j] as int) < b,
        0 <= b <= vals1.len(),
        vals1.len() == vals2.len(),
        fired1.len() == vals1.len(),
        fired2.len() == vals2.len(),
        forall|j: int| 0 <= j < b ==> #[trigger] vals1[j] == vals2[j] && fired1[j] == fired2[j],
    ensures
        node_fires(k, vals1, fired1) == node_fires(k, vals2, fired2),
        forall|out: ValueV| node_out_ok(k, vals1, fired1, out) == node_out_ok(
            k,
            vals2,
            fired2,
            out,
        ),
{
    match k {
        NodeKind::Source => {},
        NodeKind::Mapping { up, .. } => {
            assert(kind_ups(k)[0] == up);
            assert(vals1[up as int] == vals2[up as int]);
        },
        NodeKind::FilterMap { up, .. } => {
            assert(kind_ups(k)[0] == up);
            assert(vals1[up as int] == vals2[up as int]);
        },
        NodeKind::Filter { up, .. } => {
            assert(kind_ups(k)[0] == up);
            assert(vals1[up as int] == vals2[up as int]);
        },
        NodeKind::Sample { data, trigger } => {
            assert(kind_ups(k)[0] == data);
            assert(kind_ups(k)[1] == trigger);
            assert(vals1[data as int] == vals2[data as int]);
            assert(vals1[trigger as int] == vals2[trigger as int]);
        },
        NodeKind::MergeAny { ups } => {
            assert forall|j: int| 0 <= j < ups@.len() implies (ups@[j] as int) < b by {
                assert(kind_ups(k)[j] == ups@[j]);
            }
            assert forall|j: int| 0 <= j < ups@.len() implies vals1[ups@[j] as int]
                == vals2[ups@[j] as int] && fired1[ups@[j] as int] == fired2[
                ups@[j] as int
            ] by {
                let u = ups@[j] as int;
                assert(0 <= u < b);
                assert(vals1[u] == vals2[u]);
            }
            assert(node_fires(k, vals1, fired1) == node_fires(k, vals2, fired2));
            assert forall|out: ValueV|
                node_out_ok(k, vals1, fired1, out) == node_out_ok(k, vals2, fired2, out) by {
                if node_out_ok(k, vals1, fired1, out) {
                    let j = choose|j: int|
                        is_first_fired(ups@, fired1, j) && out == vals1[ups@[j] as int].unwrap()@;
                    assert(is_first_fired(ups@, fired2, j));
                    assert(node_out_ok(k, vals2, fired2, out));
                }
                if node_out_ok(k, vals2, fired2, out) {
                    let j = choose|j: int|
                        is_first_fired(ups@, fired2, j) && out == vals2[ups@[j] as int].unwrap()@;
                    assert(is_first_fired(ups@, fired1, j));
                    assert(node_out_ok(k, vals1, fired1, out));
                }
            }
        },
        NodeKind::MergeAll { ups } => {
            assert forall|j: int| 0 <= j < ups@.len() implies (ups@[j] as int) < b by {
                assert(kind_ups(k)[j] == ups@[j]);
            }
            assert forall|j: int| 0 <= j < ups@.len() implies vals1[ups@[j] as int]
                == vals2[ups@[j] as int] && fired1[ups@[j] as int] == fired2[
                ups@[j] as int
            ] by {
                let u = ups@[j] as int;
                assert(0 <= u < b);
                assert(vals1[u] == vals2[u]);
            }
            if (forall|j: int| 0 <= j < ups@.len() ==> vals1[#[trigger] ups@[j] as int] is Some) {
                assert forall|j: int|
                    0 <= j < ups@.len() implies vals2[#[trigger] ups@[j] as int] is Some by {
                    assert(vals1[ups@[j] as int] is Some);
                }
            }
            if (forall|j: int| 0 <= j < ups@.len() ==> vals2[#[trigger] ups@[j] as int] is Some) {
                assert forall|j: int|
                    0 <= j < ups@.len() implies vals1[#[trigger] ups@[j] as int] is Some by {
                    assert(vals2[ups@[j] as int] is Some);
                }
            }
            assert(node_fires(k, vals1, fired1) == node_fires(k, vals2, fired2));
            assert forall|out: ValueV|
                node_out_ok(k, vals1, fired1, out) == node_out_ok(k, vals2, fired2, out) by {
                assert forall|j: int| 0 <= j < ups@.len() implies scalar_of(
                    vals1[#[trigger] ups@[j] as int].unwrap()@,
                ) == scalar_of(vals2[ups@[j] as int].unwrap()@) by {
                    assert(vals1[ups@[j] as int] == vals2[ups@[j] as int]);
                }
            }
        },
    }
}

/// The log entries and emissions of a pass prefix depend only on the prefix.
proof fn lemma_pass_frame(
    obs: Seq<Observer>,
    post1: Seq<Node>,
    post2: Seq<Node>,
    fired1: Seq<bool>,
    fired2: Seq<bool>,
    i: int,
)
    requires
        forall|j: int|
            0 <= j < i ==> (#[trigger] post1[j]).value == post2[j].value && fired1[j] == fired2[j],
    ensures
        pass_entries(obs, post1, fired1, i) == pass_entries(obs, post2, fired2, i),
        pass_emits(obs, post1, fired1, i) == pass_emits(obs, post2, fired2, i),
    decreases i,
{
    if i > 0 {
        lemma_pass_frame(obs, post1, post2, fired1, fired2, i - 1);
    }
}

/// Every emission queued for node `i` carrying `val` feeds a declared source
/// with a scalar value, provided the observers are well formed and `val` has
/// node `i`'s declared shape.
proof fn lemma_obs_emits_wf(nodes: Seq<Node>, obs: Seq<Observer>, i: int, val: ValueV, m: int)
    requires
        forall|k: int| 0 <= k < obs.len() ==> observer_wf(nodes, #[trigger] obs[k]),
        0 <= i < nodes.len(),
        shape_of(val) == nodes[i].shape,
        m <= obs.len(),
    ensures
        forall|x: int|
            0 <= x < obs_emits(obs, i, val, m).len() ==> {
                let p = #[trigger] obs_emits(obs, i, val, m)[x];
                &&& 0 <= p.source < nodes.len()
                &&& nodes[p.source].kind is Source
                &&& shape_of(p.value) == Shape::Scalar
            },
    decreases m,
{
    if m > 0 {
        lemma_obs_emits_wf(nodes, obs, i, val, m - 1);
    }
}

/// Every emission a whole pass queues feeds a declared source with a scalar
/// value.
proof fn lemma_pass_emits_wf(obs: Seq<Observer>, post: Seq<Node>, fired: Seq<bool>, i: int)
    requires
        forall|k: int| 0 <= k < obs.len() ==> observer_wf(post, #[trigger] obs[k]),
        i <= post.len(),
        forall|j: int|
            0 <= j < i && #[trigger] fired[j] ==> post[j].value is Some && shape_of(
                post[j].value.unwrap()@,
            ) == post[j].shape,
    ensures
        forall|x: int|
            0 <= x < pass_emits(obs, post, fired, i).len() ==> {
                let p = #[trigger] pass_emits(obs, post, fired, i)[x];
                &&& 0 <= p.source < post.len()
                &&& post[p.source].kind is Source
                &&& shape_of(p.value) == Shape::Scalar
            },
    decreases i,
{
    if i > 0 {
        lemma_pass_emits_wf(obs, post, fired, i - 1);
        if fired[i - 1] {
            lemma_obs_emits_wf(post, obs, i - 1, post[i - 1].value.unwrap()@, obs.len() as int);
        }
    }
}

/// Evaluate node `i` against the already settled prefix of the pass: decides
/// whether it fires and, if so, computes its new value.
fn eval_node(nodes: &Vec<Node>, fired: &Vec<bool>, i: usize) -> (r: Option<Value>)
    requires
        nodes_wf(nodes@),
        (i as int) < nodes@.len(),
        fired@.len() == nodes@.len(),
        forall|j: int| 0 <= j < i && #[trigger] fired@[j] ==> nodes@[j].value is Some,
    ensures
        r is Some == node_fires(nodes@[i as int].kind, vals_of(nodes@), fired@),
        r matches Some(out) ==> node_out_ok(
            nodes@[i as int].kind,
            vals_of(nodes@),
            fired@,
            out@,
        ) && shape_of(out@) == nodes@[i as int].shape,
{
    proof {
        assert(node_wf(nodes@, i as int));
        assert(vals_of(nodes@).len() == nodes@.len());
        assert forall|j: int| 0 <= j < nodes@.len() implies #[trigger] vals_of(nodes@)[j]
            == nodes@[j].value by {}
    }
    let ghost k = nodes@[i as int].kind;
    let ghost vals = vals_of(nodes@);
    match &nodes[i].kind {
        NodeKind::Source => None,
        NodeKind::Mapping { up, f } => {
            proof {
                assert(kind_ups(k)[0] == up);
            }
            if fired[*up] {
                let uv = opt_get(&nodes[*up].value);
                let out = apply_map(f, uv);
                proof {
                    assert(node_wf(nodes@, *up as int));
                }
                Some(out)
            } else {
                None
            }
        },
        NodeKind::FilterMap { up, f } => {
            proof {
                assert(kind_ups(k)[0] == up);
            }
            if fired[*up] {
                let uv = opt_get(&nodes[*up].value);
                apply_filter_map(f, uv)
            } else {
                None
            }
        },
        NodeKind::Filter { up, p } => {
            proof {
                assert(kind_ups(k)[0] == up);
            }
            if fired[*up] {
                let uv = opt_get(&nodes[*up].value);
                if apply_pred(p, uv) {
                    proof {
                        assert(node_wf(nodes@, *up as int));
                    }
                    Some(uv.duplicate())
                } else {
                    None
                }
            } else {
                None
            }
        },
        NodeKind::Sample { data, trigger } => {
            proof {
                assert(kind_ups(k)[0] == data);
                assert(kind_ups(k)[1] == trigger);
            }
            if fired[*trigger] {
                match &nodes[*data].value {
                    Some(v) => {
                        proof {
                            assert(node_wf(nodes@, *data as int));
                        }
                        Some(v.duplicate())
                    },
                    None => None,
                }
            } else {
                None
            }
        },
        NodeKind::MergeAny { ups } => {
            proof {
                assert forall|l: int| 0 <= l < ups@.len() implies (#[trigger] ups@[l] as int)
                    < i by {
                    assert(kind_ups(k)[l] == ups@[l]);
                }
            }
            let mut j: usize = 0;
            loop
                invariant
                    nodes_wf(nodes@),
                    (i as int) < nodes@.len(),
                    fired@.len() == nodes@.len(),
                    forall|l: int| 0 <= l < i && #[trigger] fired@[l] ==> nodes@[l].value is Some,
                    nodes@[i as int].kind matches NodeKind::MergeAny { ups: u } && u@ == ups@,
                    forall|l: int| 0 <= l < ups@.len() ==> (#[trigger] ups@[l] as int) < i,
                    j <= ups@.len(),
                    forall|l: int| 0 <= l < j ==> !fired@[#[trigger] ups@[l] as int],
                ensures
                    j <= ups@.len(),
                    forall|l: int| 0 <= l < j ==> !fired@[#[trigger] ups@[l] as int],
                    j < ups@.len() ==> fired@[ups@[j as int] as int],
                    j == ups@.len() ==> forall|l: int|
                        0 <= l < ups@.len() ==> !fired@[#[trigger] ups@[l] as int],
                decreases ups@.len() - j,
            {
                if j >= ups.len() {
                    break;
                }
                if fired[ups[j]] {
                    break;
                }
                j = j + 1;
            }
            if j < ups.len() {
                proof {
                    assert(is_first_fired(ups@, fired@, j as int));
                    assert(node_wf(nodes@, ups@[j as int] as int));
                }
                let uv = opt_get(&nodes[ups[j]].value);
                let out = uv.duplicate();
                proof {
                    let ghost gj = j as int;
                    assert(is_first_fired(ups@, fired@, gj) && out@ == vals[
                        ups@[gj] as int
                    ].unwrap()@);
                }
                Some(out)
            } else {
                None
            }
        },
        NodeKind::MergeAll { ups } => {
            proof {
                assert forall|l: int| 0 <= l < ups@.len() implies (#[trigger] ups@[l] as int)
                    < i by {
                    assert(kind_ups(k)[l] == ups@[l]);
                }
            }
            let mut j: usize = 0;
            let mut any_fired: bool = false;
            let mut all_some: bool = true;
            while j < ups.len()
                invariant
                    nodes_wf(nodes@),
                    (i as int) < nodes@.len(),
                    fired@.len() == nodes@.len(),
                    nodes@[i as int].kind matches NodeKind::MergeAll { ups: u } && u@ == ups@,
                    forall|l: int| 0 <= l < ups@.len() ==> (#[trigger] ups@[l] as int) < i,
                    j <= ups@.len(),
                    any_fired == exists|l: int| 0 <= l < j && fired@[#[trigger] ups@[l] as int],
                    all_some == forall|l: int|
                        0 <= l < j ==> nodes@[#[trigger] ups@[l] as int].value is Some,
                decreases ups@.len() - j,
            {
                if fired[ups[j]] {
                    any_fired = true;
                }
                if nodes[ups[j]].value.is_none() {
                    all_some = false;
                }
                j = j + 1;
            }
            if any_fired && all_some {
                let mut comps: Vec<Scalar> = Vec::new();
                let mut j: usize = 0;
                while j < ups.len()
                    invariant
                        nodes_wf(nodes@),
                        (i as int) < nodes@.len(),
                        nodes@[i as int].kind matches NodeKind::MergeAll { ups: u } && u@ == ups@,
                        forall|l: int| 0 <= l < ups@.len() ==> (#[trigger] ups@[l] as int) < i,
                        forall|l: int|
                            0 <= l < ups@.len() ==> nodes@[#[trigger] ups@[l] as int]
                                .value is Some,
                        j <= ups@.len(),
                        comps@.len() == j,
                        forall|l: int| 0 <= l < j ==> #[trigger] comps@[l]@ == scalar_of(
                            nodes@[ups@[l] as int].value.unwrap()@,
                        ),
                    decreases ups@.len() - j,
                {
                    let uv = opt_get(&nodes[ups[j]].value);
                    proof {
                        let u = ups@[j as int] as int;
                        assert(node_wf(nodes@, u));
                        assert(node_wf(nodes@, i as int));
                        assert(shape_ok(nodes@, nodes@[i as int].kind, nodes@[i as int].shape));
                        assert(nodes@[u].shape == Shape::Scalar);
                        assert(shape_of(nodes@[u].value.unwrap()@) == Shape::Scalar);
                    }
                    match uv {
                        Value::Scalar(s) => {
                            comps.push(s.duplicate());
                        },
                        Value::Tuple(_) => {
                            proof {
                                assert(false);
                            }
                        },
                    }
                    j = j + 1;
                }
                let out = Value::Tuple(comps);
                proof {
                    assert(out@ matches ValueV::Tuple(s) && s.len() == ups@.len() && forall|l: int|
                        0 <= l < ups@.len() ==> s[l] == scalar_of(
                            vals[#[trigger] ups@[l] as int].unwrap()@,
                        ));
                    assert(node_fires(k, vals, fired@));
                }
                Some(out)
            } else {
                proof {
                    if all_some {
                        assert(!any_fired);
                        assert(!node_fires(k, vals, fired@));
                    } else {
                        let l = choose|l: int|
                            0 <= l < ups@.len() && !(nodes@[#[trigger] ups@[l] as int]
                                .value is Some);
                        assert(!node_fires(k, vals, fired@));
                    }
                }
                None
            }
        },
    }
}

/// Store a node's new value, leaving its rule and shape alone.
fn set_node_value(nodes: &mut Vec<Node>, i: usize, v: Value)
    requires
        (i as int) < old(nodes)@.len(),
    ensures
        final(nodes)@.len() == old(nodes)@.len(),
        final(nodes)@[i as int].kind == old(nodes)@[i as int].kind,
        final(nodes)@[i as int].shape == old(nodes)@[i as int].shape,
        final(nodes)@[i as int].value == Some(v),
        forall|j: int|
            0 <= j < old(nodes)@.len() && j != i ==> #[trigger] final(nodes)@[j] == old(nodes)@[j],
{
    let node = &mut nodes[i];
    node.value = Some(v);
}

/// Raise one fired flag.
fn set_flag(flags: &mut Vec<bool>, i: usize)
    requires
        (i as int) < old(flags)@.len(),
    ensures
        final(flags)@ == old(flags)@.update(i as int, true),
{
    let slot = &mut flags[i];
    *slot = true;
}

/// Run every observer registered for node `i`, in registration order, on the
/// node's updated value: recorders and layout observers append to the log,
/// feedback observers queue an emission for a later pass.
fn run_observers(
    observers: &Vec<Observer>,
    log: &mut Vec<LogEntry>,
    pending: &mut Vec<PendingEvent>,
    i: usize,
    val: &Value,
)
    ensures
        log_views(final(log)@) == log_views(old(log)@) + obs_entries(
            observers@,
            i as int,
            val@,
            observers@.len() as int,
        ),
        pend_views(final(pending)@) == pend_views(old(pending)@) + obs_emits(
            observers@,
            i as int,
            val@,
            observers@.len() as int,
        ),
        forall|j: int| 0 <= j < old(log)@.len() ==> #[trigger] final(log)@[j] == old(log)@[j],
        forall|j: int|
            0 <= j < old(pending)@.len() ==> #[trigger] final(pending)@[j] == old(pending)@[j],
{
    let mut k: usize = 0;
    proof {
        assert(log_views(log@) =~= log_views(old(log)@) + obs_entries(observers@, i as int, val@, 0));
        assert(pend_views(pending@) =~= pend_views(old(pending)@) + obs_emits(
            observers@,
            i as int,
            val@,
            0,
        ));
    }
    while k < observers.len()
        invariant
            k <= observers@.len(),
            log_views(log@) == log_views(old(log)@) + obs_entries(
                observers@,
                i as int,
                val@,
                k as int,
            ),
            pend_views(pending@) == pend_views(old(pending)@) + obs_emits(
                observers@,
                i as int,
                val@,
                k as int,
            ),
            forall|j: int| 0 <= j < old(log)@.len() ==> #[trigger] log@[j] == old(log)@[j],
            forall|j: int|
                0 <= j < old(pending)@.len() ==> #[trigger] pending@[j] == old(pending)@[j],
        decreases observers@.len() - k,
    {
        let ghost log_pre = log@;
        let ghost pend_pre = pending@;
        let o = &observers[k];
        if o.node == i {
            match &o.action {
                ObserverAction::Record => {
                    log.push(LogEntry::Fired { node: i, value: val.duplicate() });
                    proof {
                        assert(log_views(log@) =~= log_views(log_pre) + entry_of(
                            observers@[k as int],
                            i as int,
                            val@,
                        ));
                    }
                },
                ObserverAction::Layout => {
                    let layout = crate::selector::compute_layout_value(val);
                    log.push(LogEntry::Geometry { node: i, layout });
                    proof {
                        assert(log_views(log@) =~= log_views(log_pre) + entry_of(
                            observers@[k as int],
                            i as int,
                            val@,
                        ));
                    }
                },
                ObserverAction::EmitInto { source } => {
                    pending.push(PendingEvent { source: *source, value: val.duplicate() });
                    proof {
                        assert(pend_views(pending@) =~= pend_views(pend_pre) + emit_of(
                            observers@[k as int],
                            i as int,
                            val@,
                        ));
                    }
                },
            }
        }
        proof {
            assert(obs_entries(observers@, i as int, val@, k + 1) == obs_entries(
                observers@,
                i as int,
                val@,
                k as int,
            ) + entry_of(observers@[k as int], i as int, val@));
            assert(obs_emits(observers@, i as int, val@, k + 1) == obs_emits(
                observers@,
                i as int,
                val@,
                k as int,
            ) + emit_of(observers@[k as int], i as int, val@));
            assert(log_views(log@) =~= log_views(old(log)@) + obs_entries(
                observers@,
                i as int,
                val@,
                k + 1,
            ));
            assert(pend_views(pending@) =~= pend_views(old(pending)@) + obs_emits(
                observers@,
                i as int,
                val@,
                k + 1,
            ));
        }
        k = k + 1;
    }
}

/// Shape consistency is preserved when the node sequence grows or keeps the
/// entries a rule reads.
proof fn lemma_shape_ok_frame(
    nodes1: Seq<Node>,
    nodes2: Seq<Node>,
    kind: NodeKind,
    shape: Shape,
    b: int,
)
    requires
        forall|j: int| 0 <= j < kind_ups(kind).len() ==> (#[trigger] kind_ups(kind)[j] as int) < b,
        b <= nodes1.len(),
        b <= nodes2.len(),
        forall|i: int| 0 <= i < b ==> #[trigger] nodes2[i].shape == nodes1[i].shape,
        shape_ok(nodes1, kind, shape),
    ensures
        shape_ok(nodes2, kind, shape),
{
    match kind {
        NodeKind::Mapping { up, .. } => {
            assert(kind_ups(kind)[0] == up);
        },
        NodeKind::FilterMap { up, .. } => {
            assert(kind_ups(kind)[0] == up);
        },
        NodeKind::Filter { up, .. } => {
            assert(kind_ups(kind)[0] == up);
        },
        NodeKind::Sample { data, trigger } => {
            assert(kind_ups(kind)[0] == data);
            assert(kind_ups(kind)[1] == trigger);
        },
        NodeKind::MergeAny { ups } => {
            assert forall|j: int| 0 <= j < ups@.len() implies nodes2[ups@[j] as int].shape
                == shape by {
                assert(kind_ups(kind)[j] == ups@[j]);
                assert(nodes1[ups@[j] as int].shape == shape);
            }
        },
        NodeKind::MergeAll { ups } => {
            assert forall|j: int| 0 <= j < ups@.len() implies nodes2[ups@[j] as int].shape
                == Shape::Scalar by {
                assert(kind_ups(kind)[j] == ups@[j]);
                assert(nodes1[ups@[j] as int].shape == Shape::Scalar);
            }
        },
        _ => {},
    }
}

} // verus!
