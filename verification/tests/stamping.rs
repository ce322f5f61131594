use portbay_swc_plugin_loc::{
    has_loc_attr, rel_posix, stamp_attr, Attribute, ElementName, LocVisitor, OpeningElement,
    ATTR_COMP, ATTR_HOST,
};

fn el(name: ElementName, attrs: Vec<Attribute>) -> OpeningElement {
    OpeningElement { name, attrs }
}

fn ident(s: &str) -> ElementName {
    ElementName::Ident(s.to_string())
}

fn named(n: &str, v: Option<&str>) -> Attribute {
    Attribute::Named { name: n.to_string(), value: v.map(|s| s.to_string()) }
}

fn stamps(e: &OpeningElement) -> Vec<(String, Option<String>)> {
    e.attrs
        .iter()
        .filter_map(|a| match a {
            Attribute::Named { name, value } if name == ATTR_HOST || name == ATTR_COMP => {
                Some((name.clone(), value.clone()))
            }
            _ => None,
        })
        .collect()
}

fn visitor() -> LocVisitor {
    LocVisitor::new(rel_posix("/proj", "/proj/src/App.jsx"), true)
}

#[test]
fn host_gets_loc_with_one_based_column() {
    let v = visitor();
    let mut e = el(ident("div"), vec![named("className", Some("card"))]);
    v.visit_opening_element(&mut e, 2, 9);
    assert_eq!(e.attrs.len(), 2);
    // The author's attribute survives, the stamp comes last.
    assert!(matches!(&e.attrs[0], Attribute::Named { name, .. } if name == "className"));
    assert_eq!(
        stamps(&e),
        vec![("data-pb-loc".to_string(), Some("src/App.jsx:2:10".to_string()))]
    );
}

#[test]
fn component_gets_comp_not_loc() {
    let v = visitor();
    let mut e = el(ident("Hero"), vec![named("title", Some("Welcome"))]);
    v.visit_opening_element(&mut e, 2, 2);
    assert_eq!(
        stamps(&e),
        vec![("data-pb-comp".to_string(), Some("src/App.jsx:2:3".to_string()))]
    );
}

#[test]
fn member_and_namespaced_tags_are_skipped() {
    let v = visitor();
    let mut a = el(ElementName::Member, vec![]);
    let mut b = el(ElementName::Namespaced, vec![]);
    v.visit_opening_element(&mut a, 2, 2);
    v.visit_opening_element(&mut b, 3, 4);
    assert!(a.attrs.is_empty());
    assert!(b.attrs.is_empty());
    assert_eq!(stamp_attr(&ElementName::Member), None);
    assert_eq!(stamp_attr(&ident("")), None);
}

#[test]
fn stamp_attr_by_first_letter() {
    assert_eq!(stamp_attr(&ident("div")), Some("data-pb-loc"));
    assert_eq!(stamp_attr(&ident("my-widget")), Some("data-pb-loc"));
    assert_eq!(stamp_attr(&ident("Hero")), Some("data-pb-comp"));
    assert_eq!(stamp_attr(&ident("_x")), Some("data-pb-comp"));
}

#[test]
fn stamping_twice_stamps_once() {
    let v = visitor();
    let mut e = el(ident("div"), vec![]);
    v.visit_opening_element(&mut e, 1, 16);
    v.visit_opening_element(&mut e, 7, 3);
    assert_eq!(
        stamps(&e),
        vec![("data-pb-loc".to_string(), Some("src/App.jsx:1:17".to_string()))]
    );
    let mut h = el(ident("Hero"), vec![named("title", Some("x"))]);
    v.visit_opening_element(&mut h, 1, 16);
    v.visit_opening_element(&mut h, 1, 16);
    assert_eq!(stamps(&h).len(), 1);
}

#[test]
fn disabled_or_pathless_stamps_nothing() {
    let off = LocVisitor::new(rel_posix("/proj", "/proj/src/App.jsx"), false);
    let mut e = el(ident("div"), vec![]);
    off.visit_opening_element(&mut e, 1, 0);
    assert!(e.attrs.is_empty());

    let outside = LocVisitor::new(rel_posix("/proj", "/elsewhere/App.jsx"), true);
    outside.visit_opening_element(&mut e, 1, 0);
    assert!(e.attrs.is_empty());
    assert_eq!(outside.loc_value(1, 0), None);
}

#[test]
fn spread_and_namespaced_attrs_do_not_count_as_stamps() {
    assert!(!has_loc_attr(&el(ident("div"), vec![Attribute::Other]), "data-pb-loc"));
    assert!(has_loc_attr(
        &el(ident("div"), vec![Attribute::Other, named("data-pb-loc", Some("a:1:1"))]),
        "data-pb-loc"
    ));
    assert!(!has_loc_attr(&el(ident("div"), vec![named("data-pb-comp", None)]), "data-pb-loc"));
    let v = visitor();
    let mut e = el(ident("div"), vec![Attribute::Other]);
    v.visit_opening_element(&mut e, 1, 0);
    assert_eq!(e.attrs.len(), 2);
}

#[test]
fn nested_elements_stamp_independently() {
    // <ul><li>a</li><li>b</li></ul> on one line: ul at col 16, the li's after it.
    let v = visitor();
    let mut ul = el(ident("ul"), vec![]);
    let mut li1 = el(ident("li"), vec![]);
    let mut li2 = el(ident("li"), vec![]);
    v.visit_opening_element(&mut li1, 1, 20);
    v.visit_opening_element(&mut li2, 1, 30);
    v.visit_opening_element(&mut ul, 1, 16);
    assert_eq!(stamps(&ul)[0].1.as_deref(), Some("src/App.jsx:1:17"));
    assert_eq!(stamps(&li1)[0].1.as_deref(), Some("src/App.jsx:1:21"));
    assert_eq!(stamps(&li2)[0].1.as_deref(), Some("src/App.jsx:1:31"));
}

#[test]
fn loc_value_formats_large_numbers() {
    let v = LocVisitor::new(Some("app/page.tsx".to_string()), true);
    assert_eq!(v.loc_value(1, 0).as_deref(), Some("app/page.tsx:1:1"));
    assert_eq!(v.loc_value(120, 9).as_deref(), Some("app/page.tsx:120:10"));
    assert_eq!(v.loc_value(100000, 99).as_deref(), Some("app/page.tsx:100000:100"));
    assert_eq!(v.loc_value(0, 0).as_deref(), Some("app/page.tsx:0:1"));
}

#[test]
fn relative_and_absolute_filenames_give_identical_stamps() {
    let webpack = LocVisitor::new(rel_posix("/proj", "/proj/app/page.tsx"), true);
    let turbopack = LocVisitor::new(rel_posix("/proj", "app/page.tsx"), true);
    let mut a = el(ident("span"), vec![]);
    let mut b = el(ident("span"), vec![]);
    webpack.visit_opening_element(&mut a, 3, 4);
    turbopack.visit_opening_element(&mut b, 3, 4);
    assert_eq!(stamps(&a), stamps(&b));
    assert_eq!(stamps(&a)[0].1.as_deref(), Some("app/page.tsx:3:5"));
}
