//! The execution-environment selector: the "next option" policy and the
//! derived-layout rule that its network maintains.

use vstd::prelude::*;

use crate::engine::{
    BuildError, FilterMapFn, MapFn, Network, NodeKind, Observer, ObserverAction, lemma_pass_quiet,
    merge_all_gated, node_fires, vals_of,
};
use crate::value::{Scalar, ScalarV, Value, ValueV};

verus! {

/// Vertical centre of the window-chrome traffic lights, in pixels from the
/// top bar's baseline.
pub const MACOS_TRAFFIC_LIGHTS_VERTICAL_CENTER: i64 = -13;

/// Horizontal room reserved for the traffic lights, in pixels.
pub const TRAFFIC_LIGHTS_GAP_WIDTH: i64 = 80;

/// Margin kept after a top-bar item, in pixels.
pub const TOP_BAR_ITEM_MARGIN: i64 = 10;

/// Height of the breadcrumbs bar, in pixels.
pub const BREADCRUMBS_HEIGHT: i64 = 28;

/// One execution environment that a graph can run under.
#[derive(Clone, Copy, Debug, PartialEq, Eq, Hash, Structural)]
pub enum ExecutionEnvironment {
    /// The design-time environment.
    Design,
    /// The live environment.
    Live,
}

/// The position of the first occurrence of `x` in `s`, if any.
pub open spec fn position_of(s: Seq<ExecutionEnvironment>, x: ExecutionEnvironment) -> Option<int>
    decreases s.len(),
{
    if s.len() == 0 {
        None
    } else if s[0] == x {
        Some(0)
    } else {
        match position_of(s.drop_first(), x) {
            Some(i) => Some(i + 1),
            None => None,
        }
    }
}

/// The "next option" policy: the option after `current` in `available`,
/// wrapping at the end; nothing when `current` is not available.
pub open spec fn next_option(
    current: ExecutionEnvironment,
    available: Seq<ExecutionEnvironment>,
) -> Option<ExecutionEnvironment> {
    match position_of(available, current) {
        Some(i) => Some(available[(i + 1) % (available.len() as int)]),
        None => None,
    }
}

/// `position_of` finds exactly the first occurrence: `Some(i)` means `s[i] == x`
/// with no earlier occurrence, and `None` means `x` occurs nowhere in `s`.
pub proof fn lemma_position_of(s: Seq<ExecutionEnvironment>, x: ExecutionEnvironment)
    ensures
        match position_of(s, x) {
            Some(i) => 0 <= i < s.len() && s[i] == x && forall|j: int| 0 <= j < i ==> s[j] != x,
            None => forall|j: int| 0 <= j < s.len() ==> s[j] != x,
        },
    decreases s.len(),
{
    if s.len() == 0 {
    } else if s[0] == x {
    } else {
        lemma_position_of(s.drop_first(), x);
        assert forall|j: int| 1 <= j < s.len() implies s.drop_first()[j - 1] == s[j] by {}
    }
}

/// The option that follows `current` in `available`, wrapping around; `None`
/// when `current` is not one of the available options, in which case the
/// caller leaves its state unchanged.
pub fn get_next_execution_environment(
    current: &ExecutionEnvironment,
    available: &Vec<ExecutionEnvironment>,
) -> (r: Option<ExecutionEnvironment>)
    ensures
        r == next_option(*current, available@),
{
    proof {
        lemma_position_of(available@, *current);
    }
    let mut index: usize = 0;
    loop
        invariant
            index <= available@.len(),
            forall|j: int| 0 <= j < index ==> available@[j] != *current,
        ensures
            match position_of(available@, *current) {
                Some(i) => index == i,
                None => index == available@.len(),
            },
        decreases available@.len() - index,
    {
        proof {
            lemma_position_of(available@, *current);
        }
        if index >= available.len() {
            break;
        }
        if available[index] == *current {
            break;
        }
        index = index + 1;
    }
    if index >= available.len() {
        return None;
    }
    let next_index = (index + 1) % available.len();
    Some(available[next_index])
}

/// The derived top-bar geometry: where the selector sits and how much room
/// the breadcrumbs leave for it.
#[derive(Clone, Copy, Debug, PartialEq, Eq, Structural)]
pub struct Layout {
    /// Horizontal position of the selector.
    pub selector_x: i64,
    /// Vertical position of the selector.
    pub selector_y: i64,
    /// Horizontal room the breadcrumbs leave free.
    pub breadcrumb_gap_width: i64,
    /// Vertical position of the breadcrumbs.
    pub breadcrumb_y: i64,
}

/// The pure layout rule: offsets derived from the selector's measured size
/// and the reserved window-button gap width.
pub open spec fn layout_spec(sel_w: u32, sel_h: u32, gap_w: u32) -> Layout {
    Layout {
        selector_x: (gap_w + TRAFFIC_LIGHTS_GAP_WIDTH) as i64,
        selector_y: (MACOS_TRAFFIC_LIGHTS_VERTICAL_CENTER + sel_h as int / 2) as i64,
        breadcrumb_gap_width: (gap_w + TRAFFIC_LIGHTS_GAP_WIDTH + sel_w + TOP_BAR_ITEM_MARGIN)
            as i64,
        breadcrumb_y: (MACOS_TRAFFIC_LIGHTS_VERTICAL_CENTER + BREADCRUMBS_HEIGHT / 2) as i64,
    }
}

/// The layout derived from a size-update value: the combined latest values of
/// the init trigger, the selector size, and the window-button gap.  A value
/// of any other shape derives the zero layout.
pub open spec fn layout_of_value(v: ValueV) -> Layout {
    match v {
        ValueV::Tuple(s) => if s.len() == 3 {
            match (s[1], s[2]) {
                (ScalarV::Dim(sel_w, sel_h), ScalarV::Dim(gap_w, _)) => layout_spec(
                    sel_w,
                    sel_h,
                    gap_w,
                ),
                _ => Layout { selector_x: 0, selector_y: 0, breadcrumb_gap_width: 0,
                    breadcrumb_y: 0 },
            }
        } else {
            Layout { selector_x: 0, selector_y: 0, breadcrumb_gap_width: 0, breadcrumb_y: 0 }
        },
        _ => Layout { selector_x: 0, selector_y: 0, breadcrumb_gap_width: 0, breadcrumb_y: 0 },
    }
}

/// Recompute the on-screen offsets from the selector's measured size and the
/// reserved window-button gap width.  Pure: equal inputs always derive the
/// identical layout.
pub fn compute_layout(sel_w: u32, sel_h: u32, gap_w: u32) -> (r: Layout)
    ensures
        r == layout_spec(sel_w, sel_h, gap_w),
{
    let selector_x: i64 = gap_w as i64 + TRAFFIC_LIGHTS_GAP_WIDTH;
    let selector_y: i64 = MACOS_TRAFFIC_LIGHTS_VERTICAL_CENTER + (sel_h / 2) as i64;
    let breadcrumb_gap_width: i64 = selector_x + sel_w as i64 + TOP_BAR_ITEM_MARGIN;
    let breadcrumb_y: i64 = MACOS_TRAFFIC_LIGHTS_VERTICAL_CENTER + BREADCRUMBS_HEIGHT / 2;
    Layout { selector_x, selector_y, breadcrumb_gap_width, breadcrumb_y }
}

/// Feeding the same size-update triple twice derives the identical layout
/// both times: the layout observer is a pure function of its input.
pub proof fn lemma_layout_idempotent(v1: ValueV, v2: ValueV)
    requires
        v1 == v2,
    ensures
        layout_of_value(v1) == layout_of_value(v2),
{
}

/// The layout derived from a node's value, as the layout observer computes
/// it.
pub fn compute_layout_value(v: &Value) -> (r: Layout)
    ensures
        r == layout_of_value(v@),
{
    let zero = Layout { selector_x: 0, selector_y: 0, breadcrumb_gap_width: 0, breadcrumb_y: 0 };
    match v {
        Value::Tuple(vs) => {
            if vs.len() == 3 {
                match (&vs[1], &vs[2]) {
                    (Scalar::Dim(sw, sh), Scalar::Dim(gw, _)) => {
                        proof {
                            assert(v@ matches ValueV::Tuple(s) && s[1] == vs@[1]@ && s[2]
                                == vs@[2]@ && s.len() == 3);
                        }
                        compute_layout(*sw, *sh, *gw)
                    },
                    _ => zero,
                }
            } else {
                zero
            }
        },
        _ => zero,
    }
}

/// The execution-environment selector's dataflow network, with the handles
/// of its externally visible nodes.
///
/// Sources fed by collaborators: the available options, the externally
/// selected environment, the toggle trigger, the widget's own selection and
/// play-button output, the widget's measured size, and the window-chrome gap
/// width.  Derived state: the authoritative current environment, reached by
/// merging the external selection with the toggled "next" environment; the
/// toggle reads the authoritative value as of the previous pass through the
/// feedback observer, which is what breaks the cycle into a discrete-time
/// recurrence.
pub struct SelectorFrp {
    /// The network that owns every node below.
    pub network: Network,
    /// Source holding the authoritative current environment as published to
    /// downstream consumers; refreshed one pass after each update.
    pub out_execution_environment: usize,
    /// Source: the ordered list of available environments.
    pub set_available_execution_environments: usize,
    /// Source: an explicit external selection.
    pub set_execution_environment: usize,
    /// Source: the "cycle to the next option" trigger.
    pub toggle_execution_environment: usize,
    /// Source: the selection made inside the dropdown widget.
    pub selector_selected_execution_environment: usize,
    /// Source: the widget's play-button presses.
    pub play_press: usize,
    /// The external selection, normalised.
    pub selected_execution_environment: usize,
    /// The (current environment, available options) pair.
    pub execution_environment_state: usize,
    /// That pair, sampled each time the toggle fires.
    pub execution_environment_toggled: usize,
    /// The next environment after the current one, when defined.
    pub toggled_execution_environment: usize,
    /// External selection or toggled next value, whichever fired.
    pub external_execution_environment_update: usize,
    /// The authoritative update: widget selection or external update.
    pub execution_environment_update: usize,
    /// Play-button presses as published to downstream consumers.
    pub out_execution_environment_play_button_pressed: usize,
    /// Source: fires once at construction to seed the layout.
    pub init: usize,
    /// Source: the selector widget's measured size.
    pub selector_size: usize,
    /// Source: the width reserved for the window buttons.
    pub space_for_window_buttons: usize,
    /// The combined layout inputs; the layout observer watches this node.
    pub size_update: usize,
}

/// Unwrap a construction result that the builder knows cannot fail.
fn expect_node(r: Result<usize, BuildError>) -> (id: usize)
    requires
        r is Ok,
    ensures
        id == r.unwrap(),
{
    match r {
        Ok(id) => id,
        Err(_) => vstd::pervasive::unreached(),
    }
}

/// Build the execution-environment selector's dataflow logic: wire the
/// external selection, the toggle-driven "next option" computation and the
/// widget's own selection into one authoritative current value, publish
/// play-button presses, and keep the derived layout up to date whenever the
/// widget size or the window-button gap changes.
pub fn init_frp() -> (r: SelectorFrp)
    ensures
        r.network.wf(),
        r.network.nodes_seq().len() == 17,
        // The handles, in declaration order; in particular they are pairwise
        // distinct, so an emission into one source provably leaves every
        // other node's subgraph alone.
        r.out_execution_environment == 0,
        r.set_available_execution_environments == 1,
        r.set_execution_environment == 2,
        r.toggle_execution_environment == 3,
        r.selector_selected_execution_environment == 4,
        r.play_press == 5,
        r.selected_execution_environment == 6,
        r.execution_environment_state == 7,
        r.execution_environment_toggled == 8,
        r.toggled_execution_environment == 9,
        r.external_execution_environment_update == 10,
        r.execution_environment_update == 11,
        r.out_execution_environment_play_button_pressed == 12,
        r.init == 13,
        r.selector_size == 14,
        r.space_for_window_buttons == 15,
        r.size_update == 16,
        // The wiring.
        r.network.nodes_seq()[r.out_execution_environment as int].kind is Source,
        r.network.nodes_seq()[r.set_available_execution_environments as int].kind is Source,
        r.network.nodes_seq()[r.set_execution_environment as int].kind is Source,
        r.network.nodes_seq()[r.toggle_execution_environment as int].kind is Source,
        r.network.nodes_seq()[r.selector_selected_execution_environment as int].kind is Source,
        r.network.nodes_seq()[r.play_press as int].kind is Source,
        r.network.nodes_seq()[r.init as int].kind is Source,
        r.network.nodes_seq()[r.selector_size as int].kind is Source,
        r.network.nodes_seq()[r.space_for_window_buttons as int].kind is Source,
        r.network.nodes_seq()[r.selected_execution_environment as int].kind == (NodeKind::Mapping {
            up: r.set_execution_environment,
            f: MapFn::Identity,
        }),
        r.network.nodes_seq()[r.execution_environment_state as int].kind
            matches NodeKind::MergeAll { ups } && ups@ == seq![
            r.out_execution_environment,
            r.set_available_execution_environments,
        ],
        r.network.nodes_seq()[r.execution_environment_toggled as int].kind
            matches NodeKind::Sample { data, trigger } && data == r.execution_environment_state
            && trigger == r.toggle_execution_environment,
        r.network.nodes_seq()[r.toggled_execution_environment as int].kind
            matches NodeKind::FilterMap { up, f } && up == r.execution_environment_toggled && f
            == FilterMapFn::NextEnv,
        r.network.nodes_seq()[r.external_execution_environment_update as int].kind
            matches NodeKind::MergeAny { ups } && ups@ == seq![
            r.selected_execution_environment,
            r.toggled_execution_environment,
        ],
        r.network.nodes_seq()[r.execution_environment_update as int].kind
            matches NodeKind::MergeAny { ups } && ups@ == seq![
            r.selector_selected_execution_environment,
            r.external_execution_environment_update,
        ],
        r.network.nodes_seq()[r.out_execution_environment_play_button_pressed as int].kind == (
        NodeKind::Mapping { up: r.play_press, f: MapFn::Identity }),
        r.network.nodes_seq()[r.size_update as int].kind matches NodeKind::MergeAll { ups }
            && ups@ == seq![r.init, r.selector_size, r.space_for_window_buttons],
        // The observers, in registration order: the widget mirrors of the
        // available options and of the externally driven selection, the
        // feedback edge that republishes each authoritative update into the
        // out source one pass later, and the layout observer.
        r.network.observers_seq().len() == 4,
        r.network.observers_seq()[0] == (Observer {
            node: r.set_available_execution_environments,
            action: ObserverAction::Record,
        }),
        r.network.observers_seq()[1] == (Observer {
            node: r.external_execution_environment_update,
            action: ObserverAction::Record,
        }),
        r.network.observers_seq()[2] == (Observer {
            node: r.execution_environment_update,
            action: ObserverAction::EmitInto { source: r.out_execution_environment },
        }),
        r.network.observers_seq()[3] == (Observer {
            node: r.size_update,
            action: ObserverAction::Layout,
        }),
        // The state after construction: the init trigger has been seeded with
        // the unit value, exactly once; every other node has never fired, so
        // its value is still nothing; nothing was logged or queued.
        r.network.fired_seq().len() == 17,
        r.network.fired_seq()[r.init as int],
        forall|j: int| 0 <= j < 17 && j != r.init ==> !(#[trigger] r.network.fired_seq()[j]),
        r.network.nodes_seq()[r.init as int].value is Some && r.network.nodes_seq()[
            r.init as int
        ].value.unwrap()@ == ValueV::Scalar(ScalarV::Unit),
        forall|j: int|
            0 <= j < 17 && j != r.init ==> (#[trigger] r.network.nodes_seq()[j]).value is None,
        r.network.log_seq().len() == 0,
        r.network.pending_seq().len() == 0,
        merge_all_gated(r.network.nodes_seq()),
{
    let mut network = Network::new();
    let out_execution_environment = network.source();
    let set_available_execution_environments = network.source();
    let set_execution_environment = network.source();
    let toggle_execution_environment = network.source();
    let selector_selected_execution_environment = network.source();
    let play_press = network.source();
    let selected_execution_environment = expect_node(
        network.mapping(set_execution_environment, MapFn::Identity),
    );
    let mut state_ups: Vec<usize> = Vec::new();
    state_ups.push(out_execution_environment);
    state_ups.push(set_available_execution_environments);
    proof {
        assert(state_ups@ =~= seq![
            out_execution_environment,
            set_available_execution_environments,
        ]);
    }
    let execution_environment_state = expect_node(network.merge_all(state_ups));
    let execution_environment_toggled = expect_node(
        network.sample(execution_environment_state, toggle_execution_environment),
    );
    let toggled_execution_environment = expect_node(
        network.filter_map(execution_environment_toggled, FilterMapFn::NextEnv),
    );
    let mut external_ups: Vec<usize> = Vec::new();
    external_ups.push(selected_execution_environment);
    external_ups.push(toggled_execution_environment);
    proof {
        assert(external_ups@ =~= seq![
            selected_execution_environment,
            toggled_execution_environment,
        ]);
    }
    let external_execution_environment_update = expect_node(network.merge_any(external_ups));
    let mut update_ups: Vec<usize> = Vec::new();
    update_ups.push(selector_selected_execution_environment);
    update_ups.push(external_execution_environment_update);
    proof {
        assert(update_ups@ =~= seq![
            selector_selected_execution_environment,
            external_execution_environment_update,
        ]);
    }
    let execution_environment_update = expect_node(network.merge_any(update_ups));
    let out_execution_environment_play_button_pressed = expect_node(
        network.mapping(play_press, MapFn::Identity),
    );
    let init = network.source();
    let selector_size = network.source();
    let space_for_window_buttons = network.source();
    let mut size_ups: Vec<usize> = Vec::new();
    size_ups.push(init);
    size_ups.push(selector_size);
    size_ups.push(space_for_window_buttons);
    proof {
        assert(size_ups@ =~= seq![init, selector_size, space_for_window_buttons]);
    }
    let size_update = expect_node(network.merge_all(size_ups));
    // The widget mirrors the available options and the externally driven
    // selection; downstream consumers read the authoritative value.
    let _ = expect_node(
        network.observe(set_available_execution_environments, ObserverAction::Record),
    );
    let _ = expect_node(
        network.observe(external_execution_environment_update, ObserverAction::Record),
    );
    // The feedback edge: each authoritative update is re-published through
    // the snapshot source one pass later, which is what the next toggle
    // reads.
    let _ = expect_node(
        network.observe(
            execution_environment_update,
            ObserverAction::EmitInto { source: out_execution_environment },
        ),
    );
    // The derived layout is recomputed whenever any layout input changes.
    let _ = expect_node(network.observe(size_update, ObserverAction::Layout));
    // Seed the layout inputs.
    let ghost pre_nodes = network.nodes_seq();
    let seeded = network.emit(init, Value::Scalar(Scalar::Unit));
    proof {
        assert(seeded is Ok);
        let obs = network.observers_seq();
        let post = network.nodes_seq();
        let fired = network.fired_seq();
        // Nothing had fired before the seed emission.
        assert forall|j: int| 0 <= j < 17 implies (#[trigger] pre_nodes[j]).value is None by {}
        // Only the init source fires in the seeding pass: no other source is
        // the emitter, and every derived node's upstreams are silent.
        assert(!fired[0] && !fired[1] && !fired[2] && !fired[3] && !fired[4] && !fired[5]);
        assert(!fired[14] && !fired[15]);
        assert(!fired[6]);
        assert(!fired[7]) by {
            if node_fires(post[7].kind, vals_of(post), fired) {
                let k = post[7].kind;
                let j = choose|j: int|
                    0 <= j < k->MergeAll_ups@.len() && fired[k->MergeAll_ups@[j] as int];
                assert(k->MergeAll_ups@[j] == 0 || k->MergeAll_ups@[j] == 1);
            }
        }
        assert(!fired[8]);
        assert(!fired[9]);
        assert(!fired[10]) by {
            if node_fires(post[10].kind, vals_of(post), fired) {
                let k = post[10].kind;
                let j = choose|j: int|
                    0 <= j < k->MergeAny_ups@.len() && fired[k->MergeAny_ups@[j] as int];
                assert(k->MergeAny_ups@[j] == 6 || k->MergeAny_ups@[j] == 9);
            }
        }
        assert(!fired[11]) by {
            if node_fires(post[11].kind, vals_of(post), fired) {
                let k = post[11].kind;
                let j = choose|j: int|
                    0 <= j < k->MergeAny_ups@.len() && fired[k->MergeAny_ups@[j] as int];
                assert(k->MergeAny_ups@[j] == 4 || k->MergeAny_ups@[j] == 10);
            }
        }
        assert(!fired[12]);
        assert(!fired[14] && post[14].value == pre_nodes[14].value);
        assert(!fired[16]) by {
            let k = post[16].kind;
            assert(k->MergeAll_ups@[1] == 14);
            assert(vals_of(post)[14] is None);
        }
        assert forall|j: int| 0 <= j < 17 && j != 13 implies !(#[trigger] fired[j]) by {}
        assert forall|j: int| 0 <= j < 17 && j != 13 implies (#[trigger] post[j]).value is None by {
            assert(!fired[j]);
            assert(post[j].value == pre_nodes[j].value);
        }
        // The seeding pass logged and queued nothing: the only fired node,
        // the init source, is unobserved.
        assert forall|j: int, k: int|
            0 <= j < 17 && #[trigger] fired[j] && 0 <= k < obs.len() implies (#[trigger] obs[k])
                .node != j by {
            assert(j == 13);
        }
        lemma_pass_quiet(obs, post, fired, 17);
        assert(network.log_seq() =~= Seq::<crate::engine::LogEntryV>::empty());
        assert(network.pending_seq() =~= Seq::<crate::engine::PendingEventV>::empty());
        // A merge-all node with a silent upstream still holds no value.
        assert forall|i: int|
            0 <= i < 17 implies ((#[trigger] post[i]).kind matches NodeKind::MergeAll { ups } && (
            exists|j: int|
                0 <= j < ups@.len() && post[ups@[j] as int].value is None) ==> post[
            i
        ].value is None) by {
            if i != 13 {
                assert(post[i].value is None);
            }
        }
    }
    SelectorFrp {
        network,
        out_execution_environment,
        set_available_execution_environments,
        set_execution_environment,
        toggle_execution_environment,
        selector_selected_execution_environment,
        play_press,
        selected_execution_environment,
        execution_environment_state,
        execution_environment_toggled,
        toggled_execution_environment,
        external_execution_environment_update,
        execution_environment_update,
        out_execution_environment_play_button_pressed,
        init,
        selector_size,
        space_for_window_buttons,
        size_update,
    }
}

} // verus!
