use portbay_swc_plugin_loc::RelRefusal::{EmptyPath, EscapesRoot, NoFilename, NoRoot, OutsideRoot};
use portbay_swc_plugin_loc::{
    plan_transform, record_warning, refusal_bit, resolve_enabled, shown_or_unset, Config,
    RelRefusal,
};

#[test]
fn resolve_enabled_contract() {
    assert!(!resolve_enabled(None, Some("production")));
    assert!(resolve_enabled(None, Some("development")));
    assert!(resolve_enabled(None, None));
    assert!(resolve_enabled(Some(true), Some("production")));
    assert!(!resolve_enabled(Some(false), Some("development")));
}

#[test]
fn config_defaults_to_nothing() {
    let c = Config::default();
    assert!(c.root.is_none());
    assert!(c.enabled.is_none());
}

#[test]
fn refusal_bits_are_distinct() {
    let bits: Vec<u8> = [NoRoot, NoFilename, OutsideRoot, EscapesRoot, EmptyPath]
        .iter()
        .map(|r| refusal_bit(*r))
        .collect();
    assert_eq!(bits, vec![1, 2, 4, 8, 16]);
}

#[test]
fn each_reason_warns_once() {
    let (w, first) = record_warning(0, RelRefusal::OutsideRoot);
    assert!(first);
    assert_eq!(w, 4);
    let (w, again) = record_warning(w, RelRefusal::OutsideRoot);
    assert!(!again);
    let (w, other) = record_warning(w, RelRefusal::NoRoot);
    assert!(other);
    assert_eq!(w, 5);
}

#[test]
fn unset_values_are_named() {
    assert_eq!(shown_or_unset(""), "(unset)");
    assert_eq!(shown_or_unset("/proj"), "/proj");
}

#[test]
fn plan_stamps_under_root() {
    let cfg = Config { root: Some("/proj".to_string()), enabled: None };
    let p = plan_transform(&cfg, "/proj/app/page.tsx", Some("development"));
    assert!(p.enabled);
    assert_eq!(p.rel.as_deref(), Some("app/page.tsx"));
    assert_eq!(p.report, None);
}

#[test]
fn plan_reports_refusal_only_when_enabled() {
    let cfg = Config { root: None, enabled: None };
    let p = plan_transform(&cfg, "app/page.tsx", None);
    assert!(p.enabled);
    assert_eq!(p.rel, None);
    assert_eq!(p.report, Some(RelRefusal::NoRoot));

    let p = plan_transform(&cfg, "app/page.tsx", Some("production"));
    assert!(!p.enabled);
    assert_eq!(p.rel, None);
    assert_eq!(p.report, None);

    let cfg = Config { root: Some("/proj".to_string()), enabled: Some(true) };
    let p = plan_transform(&cfg, "/elsewhere/App.jsx", Some("production"));
    assert!(p.enabled);
    assert_eq!(p.report, Some(RelRefusal::OutsideRoot));
}
