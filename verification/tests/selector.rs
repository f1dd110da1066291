use crust_gather::selector::{
    AnnotationGroup, Expressions, LabelGroup, ResourceMeta, SelectorError, SelectorExclude,
    SelectorGroup, SelectorInclude,
};
use crust_gather::selector_parse::Expression;

fn pairs(v: &[(&str, &str)]) -> Vec<(String, String)> {
    v.iter().map(|(k, v)| (k.to_string(), v.to_string())).collect()
}

fn object(labels: &[(&str, &str)], annotations: &[(&str, &str)]) -> ResourceMeta {
    ResourceMeta { labels: pairs(labels), annotations: pairs(annotations) }
}

fn s(v: &str) -> String {
    v.to_string()
}

#[test]
fn parses_every_requirement_form() {
    let e = Expressions::try_from(s(" app=web, tier == db ,env!=prod,zone in (a, b),x notin (c),has,!gone")).unwrap();
    assert_eq!(
        e.0,
        vec![
            Expression::Equal(s("app"), s("web")),
            Expression::Equal(s("tier"), s("db")),
            Expression::NotEqual(s("env"), s("prod")),
            Expression::In(s("zone"), vec![s("a"), s("b")]),
            Expression::NotIn(s("x"), vec![s("c")]),
            Expression::Exists(s("has")),
            Expression::DoesNotExist(s("gone")),
        ]
    );
}

#[test]
fn parses_prefixed_keys_and_empty_values() {
    let e = Expressions::try_from(s("app.kubernetes.io/name=,k in(x),in")).unwrap();
    assert_eq!(
        e.0,
        vec![
            Expression::Equal(s("app.kubernetes.io/name"), s("")),
            Expression::In(s("k"), vec![s("x")]),
            Expression::Exists(s("in")),
        ]
    );
}

#[test]
fn blank_selector_selects_everything() {
    let e = Expressions::try_from(s("   ")).unwrap();
    assert!(e.0.is_empty());
    let f = SelectorInclude::<LabelGroup>::try_from(s("")).unwrap();
    assert_eq!(f.filter_object(&object(&[], &[])), Some(true));
    assert_eq!(f.filter_object(&object(&[("a", "b")], &[])), Some(true));
}

#[test]
fn refuses_malformed_selectors() {
    for bad in ["a,", ",a", "a b", "=x", "a in b", "a in (b", "a in (b c)", "!", "a=b)", "a==", "k=v=w"] {
        assert_eq!(
            Expressions::try_from(s(bad)).err(),
            if bad == "a==" { None } else { Some(SelectorError::InvalidSelector) },
            "{:?}",
            bad
        );
    }
}

#[test]
fn expressions_match_like_kubernetes() {
    let labels = pairs(&[("app", "web"), ("env", "prod")]);
    let check = |text: &str| Expressions::try_from(s(text)).unwrap().matches(&labels);
    assert!(check("app=web"));
    assert!(!check("app=db"));
    assert!(check("app!=db"));
    assert!(check("missing!=x"));
    assert!(check("env in (dev,prod)"));
    assert!(!check("env notin (dev,prod)"));
    assert!(!check("missing in (x)"));
    assert!(check("missing notin (x)"));
    assert!(check("app"));
    assert!(!check("!app"));
    assert!(check("!missing"));
    assert!(check("app=web,env=prod"));
    assert!(!check("app=web,env=dev"));
}

#[test]
fn include_and_exclude_decide_oppositely() {
    let obj = object(&[("app", "web")], &[("team", "core")]);
    for text in ["app=web", "app=db", "team=core", "!app", ""] {
        let inc = SelectorInclude::<LabelGroup>::try_from(s(text)).unwrap();
        let exc = SelectorExclude::<LabelGroup>::try_from(s(text)).unwrap();
        assert_eq!(inc.filter_object(&obj).map(|b| !b), exc.filter_object(&obj));
    }
}

#[test]
fn groups_read_labels_or_annotations() {
    let obj = object(&[("app", "web")], &[("team", "core")]);
    let on_labels = SelectorInclude::<LabelGroup>::try_from(s("team=core")).unwrap();
    let on_annotations = SelectorInclude::<AnnotationGroup>::try_from(s("team=core")).unwrap();
    assert_eq!(on_labels.filter_object(&obj), Some(false));
    assert_eq!(on_annotations.filter_object(&obj), Some(true));
    let exc = SelectorExclude::<AnnotationGroup>::try_from(s("team=core")).unwrap();
    assert_eq!(exc.filter_object(&obj), Some(false));
}

#[test]
fn invalid_text_gives_no_filter() {
    assert!(SelectorInclude::<LabelGroup>::try_from(s("a b")).is_err());
    assert!(SelectorExclude::<AnnotationGroup>::try_from(s("(")).is_err());
}

#[test]
fn selector_group_defaults_to_labels() {
    assert_eq!(SelectorGroup::default(), SelectorGroup::Labels);
}
