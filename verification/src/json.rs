//! A JSON document model and the configuration edit applied to the desktop
//! IDE's `config.json`: forcing the default of the new-dashboard preview
//! option to `true`.

use vstd::prelude::*;
use vstd::string::{StrSliceExecFns, StringExecFns};

verus! {

/// A JSON value.  Numbers are modelled as integers, which is all the
/// configuration edit reads or writes; object entries keep their textual
/// order, and an inserted key is appended at the end.
#[derive(Debug)]
pub enum JsonValue {
    /// `null`.
    Null,
    /// A boolean.
    Bool(bool),
    /// An integral number.
    Int(i64),
    /// A string.
    Text(String),
    /// An array.
    Array(Vec<JsonValue>),
    /// An object: ordered key-value pairs.
    Object(Vec<(String, JsonValue)>),
}

/// Why the configuration edit failed; the document is left unchanged.  The
/// depth indexes into the override path and names the level that failed:
/// depth 0 is the document root, depth `OVERRIDE_PATH_DEPTH` the object whose
/// `value` entry would have been set.
#[derive(Clone, Copy, Debug, PartialEq, Eq, Structural)]
pub enum JsonError {
    /// The value at this path depth is not an object.
    NotAnObject {
        /// How many path keys were descended before the failure.
        depth: usize,
    },
    /// The object at this path depth lacks the next path key.
    MissingKey {
        /// How many path keys were descended before the failure.
        depth: usize,
    },
}

/// The index of the first entry with the given key, if any.
pub open spec fn lookup(es: Seq<(String, JsonValue)>, key: Seq<char>) -> Option<int>
    decreases es.len(),
{
    if es.len() == 0 {
        None
    } else if es[0].0@ == key {
        Some(0)
    } else {
        match lookup(es.drop_first(), key) {
            Some(i) => Some(i + 1),
            None => None,
        }
    }
}

/// `lookup` finds exactly the first entry with the key.
pub proof fn lemma_lookup(es: Seq<(String, JsonValue)>, key: Seq<char>)
    ensures
        match lookup(es, key) {
            Some(i) => 0 <= i < es.len() && es[i].0@ == key && forall|j: int|
                0 <= j < i ==> es[j].0@ != key,
            None => forall|j: int| 0 <= j < es.len() ==> es[j].0@ != key,
        },
    decreases es.len(),
{
    if es.len() == 0 {
    } else if es[0].0@ == key {
    } else {
        lemma_lookup(es.drop_first(), key);
        assert forall|j: int| 1 <= j < es.len() implies es.drop_first()[j - 1] == es[j] by {}
    }
}

/// How many keys the edit descends through before setting the value.
pub const OVERRIDE_PATH_DEPTH: usize = 4;

/// The key descended through at each level.
pub open spec fn path_key(depth: int) -> Seq<char> {
    if depth == 0 {
        "groups"@
    } else if depth == 1 {
        "featurePreview"@
    } else if depth == 2 {
        "options"@
    } else {
        "newDashboard"@
    }
}

/// Why the edit fails on this document, if it does: a non-object somewhere on
/// the path, or a missing path key.
pub open spec fn override_err(v: JsonValue, depth: int) -> Option<JsonError>
    decreases OVERRIDE_PATH_DEPTH - depth,
{
    if depth >= OVERRIDE_PATH_DEPTH {
        match v {
            JsonValue::Object(_) => None,
            _ => Some(JsonError::NotAnObject { depth: depth as usize }),
        }
    } else {
        match v {
            JsonValue::Object(es) => match lookup(es@, path_key(depth)) {
                Some(i) => override_err(es@[i].1, depth + 1),
                None => Some(JsonError::MissingKey { depth: depth as usize }),
            },
            _ => Some(JsonError::NotAnObject { depth: depth as usize }),
        }
    }
}

/// The innermost step of the edit: in the object at the end of the path, the
/// entry `"value"` now holds `true`; a present entry is overwritten in place,
/// an absent one is appended; everything else is unchanged.
pub open spec fn value_set(oe: Seq<(String, JsonValue)>, ne: Seq<(String, JsonValue)>) -> bool {
    match lookup(oe, "value"@) {
        Some(i) => {
            &&& ne.len() == oe.len()
            &&& forall|j: int| 0 <= j < oe.len() && j != i ==> ne[j] == oe[j]
            &&& ne[i].0 == oe[i].0
            &&& ne[i].1 == JsonValue::Bool(true)
        },
        None => {
            &&& ne.len() == oe.len() + 1
            &&& forall|j: int| 0 <= j < oe.len() ==> ne[j] == oe[j]
            &&& ne[oe.len() as int].0@ == "value"@
            &&& ne[oe.len() as int].1 == JsonValue::Bool(true)
        },
    }
}

/// The whole edit, relationally: `new_v` is `old_v` with the object on the
/// path rewritten by `value_set` and nothing else touched.
pub open spec fn overridden(old_v: JsonValue, new_v: JsonValue, depth: int) -> bool
    decreases OVERRIDE_PATH_DEPTH - depth,
{
    if depth >= OVERRIDE_PATH_DEPTH {
        old_v matches JsonValue::Object(oe) && new_v matches JsonValue::Object(ne) && value_set(
            oe@,
            ne@,
        )
    } else {
        old_v matches JsonValue::Object(oe) && new_v matches JsonValue::Object(ne) && match lookup(
            oe@,
            path_key(depth),
        ) {
            Some(i) => {
                &&& ne@.len() == oe@.len()
                &&& forall|j: int| 0 <= j < oe@.len() && j != i ==> ne@[j] == oe@[j]
                &&& ne@[i].0 == oe@[i].0
                &&& overridden(oe@[i].1, ne@[i].1, depth + 1)
            },
            None => false,
        }
    }
}

/// Compare two string slices character by character.
pub fn str_eq(a: &str, b: &str) -> (r: bool)
    ensures
        r == (a@ == b@),
{
    let n = a.unicode_len();
    let m = b.unicode_len();
    if n != m {
        proof {
            assert(a@ != b@);
        }
        return false;
    }
    let mut i: usize = 0;
    while i < n
        invariant
            i <= n,
            n == a@.len(),
            n == b@.len(),
            forall|j: int| 0 <= j < i ==> a@[j] == b@[j],
        decreases n - i,
    {
        if a.get_char(i) != b.get_char(i) {
            return false;
        }
        i = i + 1;
    }
    proof {
        assert(a@ =~= b@);
    }
    true
}

/// The index of the first entry with the given key, if any.
fn find_key(es: &Vec<(String, JsonValue)>, key: &str) -> (r: Option<usize>)
    ensures
        match r {
            Some(i) => lookup(es@, key@) == Some(i as int),
            None => lookup(es@, key@) is None,
        },
{
    proof {
        lemma_lookup(es@, key@);
    }
    let mut i: usize = 0;
    while i < es.len()
        invariant
            i <= es@.len(),
            forall|j: int| 0 <= j < i ==> es@[j].0@ != key@,
        decreases es@.len() - i,
    {
        if str_eq(es[i].0.as_str(), key) {
            proof {
                lemma_lookup(es@, key@);
            }
            return Some(i);
        }
        i = i + 1;
    }
    proof {
        lemma_lookup(es@, key@);
    }
    None
}

/// Probe whether the edit can be applied, without touching the document.
fn probe_override(v: &JsonValue, depth: usize) -> (r: Option<JsonError>)
    requires
        depth <= OVERRIDE_PATH_DEPTH,
    ensures
        r == override_err(*v, depth as int),
    decreases OVERRIDE_PATH_DEPTH - depth,
{
    match v {
        JsonValue::Object(entries) => {
            if depth == OVERRIDE_PATH_DEPTH {
                None
            } else {
                let key = path_key_str(depth);
                match find_key(entries, key) {
                    Some(i) => {
                        proof {
                            lemma_lookup(entries@, key@);
                        }
                        probe_override(&entries[i].1, depth + 1)
                    },
                    None => Some(JsonError::MissingKey { depth }),
                }
            }
        },
        _ => Some(JsonError::NotAnObject { depth }),
    }
}

/// The key descended through at each level.
fn path_key_str(depth: usize) -> (r: &'static str)
    ensures
        r@ == path_key(depth as int),
{
    if depth == 0 {
        "groups"
    } else if depth == 1 {
        "featurePreview"
    } else if depth == 2 {
        "options"
    } else {
        "newDashboard"
    }
}

/// The mutating step of the edit, descending a path known to be present.
fn apply_override(v: &mut JsonValue, depth: usize)
    requires
        depth <= OVERRIDE_PATH_DEPTH,
        override_err(*old(v), depth as int) is None,
    ensures
        overridden(*old(v), *final(v), depth as int),
    decreases OVERRIDE_PATH_DEPTH - depth,
{
    match v {
        JsonValue::Object(entries) => {
            if depth == OVERRIDE_PATH_DEPTH {
                match find_key(entries, "value") {
                    Some(i) => {
                        proof {
                            lemma_lookup(entries@, "value"@);
                        }
                        let slot = &mut entries[i];
                        slot.1 = JsonValue::Bool(true);
                    },
                    None => {
                        entries.push((String::from_str("value"), JsonValue::Bool(true)));
                    },
                }
            } else {
                let key = path_key_str(depth);
                match find_key(entries, key) {
                    Some(i) => {
                        proof {
                            lemma_lookup(entries@, key@);
                        }
                        let ghost entries_pre = entries@;
                        let (k, mut child) = entries.remove(i);
                        apply_override(&mut child, depth + 1);
                        entries.insert(i, (k, child));
                        proof {
                            assert(entries@.len() == entries_pre.len());
                            assert forall|j: int|
                                0 <= j < entries_pre.len() && j != i implies entries@[j]
                                == entries_pre[j] by {}
                        }
                    },
                    None => {
                        proof {
                            assert(false);
                        }
                    },
                }
            }
        },
        _ => {
            proof {
                assert(false);
            }
        },
    }
}

/// Force the default of the new-dashboard preview option to `true`: descend
/// `groups.featurePreview.options.newDashboard` and set its `value` entry.
/// On failure the document is reported as found and left unchanged.
pub fn override_default_for_authentication(json: &mut JsonValue) -> (r: Result<(), JsonError>)
    ensures
        r == (match override_err(*old(json), 0) {
            None => Ok::<(), JsonError>(()),
            Some(e) => Err(e),
        }),
        r is Ok ==> overridden(*old(json), *final(json), 0),
        r is Err ==> *final(json) == *old(json),
{
    match probe_override(json, 0) {
        Some(e) => Err(e),
        None => {
            apply_override(json, 0);
            Ok(())
        },
    }
}

} // verus!
