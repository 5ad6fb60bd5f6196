use strex::collection::Collection;
use strex::context::ExecutionContext;
use strex::interpolation::interpolate;
use strex::runner::apply_mutations;
use strex::script::{ScriptResult, VariableStore};
use strex::strmap::StrMap;

fn vars(pairs: &[(&str, &str)]) -> StrMap {
    let mut m = StrMap::new();
    for (k, v) in pairs {
        m.insert(k.to_string(), v.to_string());
    }
    m
}

#[test]
fn text_without_placeholders_is_its_own_interpolation() {
    for t in ["", "plain", "a { b } c", "}} {x}", "é and ü"] {
        assert_eq!(interpolate(t, &vars(&[("x", "1")])).unwrap(), t);
    }
}

#[test]
fn a_defined_placeholder_becomes_its_value() {
    let v = vars(&[("user_id", "42"), ("empty", "")]);
    assert_eq!(interpolate("{{user_id}}", &v).unwrap(), "42");
    assert_eq!(interpolate("{{empty}}", &v).unwrap(), "");
}

#[test]
fn a_script_write_is_seen_unless_the_data_row_shadows_it() {
    let c = Collection {
        name: "c".to_string(),
        version: "1".to_string(),
        environment: vars(&[("k", "env")]),
        variables: vec![("k".to_string(), Some("declared".to_string()))],
        requests: vec![],
    };
    let mut r = ScriptResult::empty();
    r.variable_mutations.insert("k".to_string(), "written".to_string());

    let mut ctx = ExecutionContext::new(&c);
    apply_mutations(&mut ctx, &r, false);
    assert_eq!(ctx.resolve_all().get("k").unwrap(), "written");

    let mut shadowed = ExecutionContext::new_with_data(&c, &vars(&[("k", "row")]));
    apply_mutations(&mut shadowed, &r, false);
    assert_eq!(shadowed.resolve_all().get("k").unwrap(), "row");

    let mut isolated = ExecutionContext::new(&c);
    apply_mutations(&mut isolated, &r, true);
    assert_eq!(isolated.resolve_all().get("k").unwrap(), "declared");
}

#[test]
fn a_set_variable_reads_back() {
    let mut s = VariableStore::new(vars(&[("a", "1"), ("b", "2")]));
    s.set("a".to_string(), "9".to_string());
    assert_eq!(s.get("a"), "9");
    assert_eq!(s.get("b"), "2");
}

#[test]
fn interpolation_of_a_concatenation_is_the_concatenation() {
    let v = vars(&[("host", "example.com"), ("id", "7")]);
    let (t1, t2) = ("https://{{host}}/", "users/{{ id }}?x=}");
    let joined = [t1, t2].concat();
    let expected = [interpolate(t1, &v).unwrap(), interpolate(t2, &v).unwrap()].concat();
    assert_eq!(interpolate(&joined, &v).unwrap(), expected);
    assert_eq!(expected, "https://example.com/users/7?x=}");
}
