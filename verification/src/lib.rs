//! A reactive dataflow runtime: typed event-producing nodes wired together
//! with combinators (map, sample, merge-any, merge-all, filter) and driven by
//! a synchronous, single-pass propagation scheduler.  On top of the engine sit
//! the execution-environment selector logic, and a handful of supporting
//! utilities: a bounded circular deque, build-profile rules, and JSON
//! configuration edits.

pub mod circular_vec;
pub mod engine;
pub mod gui;
pub mod json;
pub mod refcell;
pub mod selector;
pub mod value;
pub mod wasm;

pub use wasm::{
    BuildInput, FinalizeAction, LogLevel, OptimizationLevel, Profile, ProfilingLevel,
    SizeCheckOutcome, Wasm, WasmPackProfile, WatchInput, size_report, trim_leading_dashes,
};
pub use wasm::Artifact as WasmArtifact;

pub use circular_vec::CircularVecDeque;
pub use gui::{BuildInfo, Context, Gui, IdeDesktop, Version, ide_desktop_from_context};
pub use gui::Artifact as GuiArtifact;
pub use json::{JsonError, JsonValue, override_default_for_authentication, str_eq};
pub use refcell::OptRefCell;
pub use engine::{
    BuildError, EmitError, FilterMapFn, LogEntry, MapFn, Network, Node, NodeKind, Observer,
    ObserverAction, PendingEvent, PredFn,
};
pub use selector::{
    ExecutionEnvironment, Layout, SelectorFrp, compute_layout, compute_layout_value,
    get_next_execution_environment, init_frp,
};
pub use value::{Scalar, Shape, Value};
