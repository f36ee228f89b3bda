use dataflow::{JsonError, JsonValue, override_default_for_authentication, str_eq};

fn obj(entries: Vec<(&str, JsonValue)>) -> JsonValue {
    JsonValue::Object(entries.into_iter().map(|(k, v)| (k.to_string(), v)).collect())
}

fn config_with_value(value: JsonValue) -> JsonValue {
    obj(vec![(
        "groups",
        obj(vec![(
            "featurePreview",
            obj(vec![(
                "options",
                obj(vec![("newDashboard", obj(vec![("value", value)]))]),
            )]),
        )]),
    )])
}

fn dig<'a>(v: &'a JsonValue, key: &str) -> &'a JsonValue {
    match v {
        JsonValue::Object(entries) => {
            for (k, child) in entries {
                if k == key {
                    return child;
                }
            }
            panic!("missing key {key}");
        }
        _ => panic!("not an object"),
    }
}

#[test]
fn override_sets_the_dashboard_default_to_true() {
    let mut json = config_with_value(JsonValue::Bool(false));
    assert_eq!(override_default_for_authentication(&mut json), Ok(()));
    let leaf = dig(
        dig(dig(dig(&json, "groups"), "featurePreview"), "options"),
        "newDashboard",
    );
    match dig(leaf, "value") {
        JsonValue::Bool(b) => assert!(*b),
        other => panic!("unexpected leaf {:?}", other),
    }
}

#[test]
fn override_appends_a_missing_value_entry() {
    let mut json = obj(vec![(
        "groups",
        obj(vec![(
            "featurePreview",
            obj(vec![(
                "options",
                obj(vec![("newDashboard", obj(vec![("note", JsonValue::Null)]))]),
            )]),
        )]),
    )]);
    assert_eq!(override_default_for_authentication(&mut json), Ok(()));
    let leaf = dig(
        dig(dig(dig(&json, "groups"), "featurePreview"), "options"),
        "newDashboard",
    );
    match leaf {
        JsonValue::Object(entries) => {
            assert_eq!(entries.len(), 2);
            assert_eq!(entries[1].0, "value");
            match &entries[1].1 {
                JsonValue::Bool(b) => assert!(*b),
                other => panic!("unexpected appended value {:?}", other),
            }
        }
        other => panic!("unexpected leaf {:?}", other),
    }
}

#[test]
fn override_reports_a_missing_path_key() {
    let mut json = obj(vec![("groups", obj(vec![("other", JsonValue::Null)]))]);
    assert_eq!(
        override_default_for_authentication(&mut json),
        Err(JsonError::MissingKey { depth: 1 })
    );
    // The document is reported as found: still exactly one entry under groups.
    match dig(&json, "groups") {
        JsonValue::Object(entries) => assert_eq!(entries.len(), 1),
        other => panic!("unexpected groups {:?}", other),
    }
}

#[test]
fn override_reports_a_non_object_on_the_path() {
    let mut json = JsonValue::Array(vec![JsonValue::Null]);
    assert_eq!(
        override_default_for_authentication(&mut json),
        Err(JsonError::NotAnObject { depth: 0 })
    );
    let mut json = obj(vec![("groups", JsonValue::Int(3))]);
    assert_eq!(
        override_default_for_authentication(&mut json),
        Err(JsonError::NotAnObject { depth: 1 })
    );
}

#[test]
fn string_slices_compare_by_contents() {
    assert!(str_eq("newDashboard", "newDashboard"));
    assert!(!str_eq("newDashboard", "newDashboards"));
    assert!(!str_eq("abc", "abd"));
    assert!(str_eq("", ""));
}
