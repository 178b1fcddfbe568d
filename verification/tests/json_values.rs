use octo::json::{prune_json, pruned, JsonValue};

fn text(s: &str) -> JsonValue {
    JsonValue::Text(s.to_string())
}

fn number(s: &str) -> JsonValue {
    JsonValue::Number(s.to_string())
}

fn object(entries: Vec<(&str, JsonValue)>) -> JsonValue {
    JsonValue::Object(entries.into_iter().map(|(k, v)| (k.to_string(), v)).collect())
}

fn render(v: &JsonValue) -> String {
    match v {
        JsonValue::Null => "null".to_string(),
        JsonValue::Bool(b) => format!("{b}"),
        JsonValue::Number(t) => t.clone(),
        JsonValue::Text(s) => format!("{s:?}"),
        JsonValue::Array(xs) => {
            let inner: Vec<String> = xs.iter().map(render).collect();
            format!("[{}]", inner.join(","))
        }
        JsonValue::Object(m) => {
            let inner: Vec<String> = m.iter().map(|(k, v)| format!("{k:?}:{}", render(v))).collect();
            format!("{{{}}}", inner.join(","))
        }
    }
}

fn check(v: JsonValue, left: &str, keep: bool) {
    let (w, k) = pruned(&v);
    assert_eq!(render(&w), left);
    assert_eq!(k, keep);
    let mut m = v;
    assert_eq!(prune_json(&mut m), keep);
    assert_eq!(render(&m), left);
}

#[test]
fn plain_values_stay_as_they_are() {
    check(JsonValue::Null, "null", false);
    check(JsonValue::Bool(false), "false", true);
    check(JsonValue::Bool(true), "true", true);
    check(number("0"), "0", true);
    check(number("-1.5e3"), "-1.5e3", true);
    check(text("a"), "\"a\"", true);
    check(text(""), "\"\"", false);
    check(text(" "), "\" \"", true);
}

#[test]
fn empty_items_leave_an_array() {
    check(JsonValue::Array(vec![]), "[]", false);
    check(JsonValue::Array(vec![JsonValue::Null, text("")]), "[]", false);
    check(
        JsonValue::Array(vec![JsonValue::Null, number("1"), text(""), text("x"), JsonValue::Bool(false)]),
        "[1,\"x\",false]",
        true,
    );
    check(
        JsonValue::Array(vec![JsonValue::Array(vec![]), JsonValue::Array(vec![JsonValue::Null])]),
        "[]",
        false,
    );
    check(
        JsonValue::Array(vec![JsonValue::Array(vec![JsonValue::Null, number("2")]), object(vec![])]),
        "[[2]]",
        true,
    );
}

#[test]
fn empty_entries_leave_an_object() {
    check(object(vec![]), "{}", false);
    check(object(vec![("a", JsonValue::Null), ("b", text(""))]), "{}", false);
    check(
        object(vec![
            ("id", text("scan=1")),
            ("native_id", JsonValue::Null),
            ("index", number("0")),
            ("cv_params", JsonValue::Array(vec![])),
            ("spot_id", text("")),
            ("flag", JsonValue::Bool(false)),
        ]),
        "{\"id\":\"scan=1\",\"index\":0,\"flag\":false}",
        true,
    );
}

#[test]
fn pruning_reaches_every_depth() {
    let v = object(vec![
        (
            "run",
            object(vec![
                ("id", text("")),
                (
                    "spectra",
                    JsonValue::Array(vec![
                        object(vec![("id", text("a")), ("params", JsonValue::Array(vec![JsonValue::Null]))]),
                        object(vec![("id", text("")), ("params", JsonValue::Array(vec![]))]),
                        object(vec![("params", JsonValue::Array(vec![object(vec![("v", number("1"))])]))]),
                    ]),
                ),
            ]),
        ),
        ("empty", object(vec![("deep", object(vec![("deeper", JsonValue::Array(vec![text("")]))]))])),
    ]);
    check(v, "{\"run\":{\"spectra\":[{\"id\":\"a\"},{\"params\":[{\"v\":1}]}]}}", true);
}

#[test]
fn entries_keep_their_order_and_their_keys() {
    let v = object(vec![("z", number("1")), ("a", JsonValue::Null), ("m", number("2")), ("z", number("3"))]);
    check(v, "{\"z\":1,\"m\":2,\"z\":3}", true);
    let v = object(vec![("", text("x"))]);
    check(v, "{\"\":\"x\"}", true);
}
