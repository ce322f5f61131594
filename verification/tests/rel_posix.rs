use portbay_swc_plugin_loc::RelRefusal::{EmptyPath, EscapesRoot, NoFilename, NoRoot, OutsideRoot};
use portbay_swc_plugin_loc::{is_absolute_pathish, rel_posix, rel_posix_checked, RelRefusal};

#[test]
fn rel_posix_contract() {
    assert_eq!(
        rel_posix("/proj", "/proj/src/App.jsx").as_deref(),
        Some("src/App.jsx")
    );
    assert_eq!(rel_posix("/proj", "/elsewhere/App.jsx"), None);
    assert_eq!(rel_posix("/proj", "/proj"), None); // empty rel
    assert_eq!(rel_posix("", "/proj/x.jsx"), None);
    assert_eq!(rel_posix("/proj", ""), None);
}

#[test]
fn rel_posix_checked_reports_why_it_refused() {
    assert_eq!(rel_posix_checked("/proj", ""), Err(NoFilename));
    assert_eq!(rel_posix_checked("", "app/page.tsx"), Err(NoRoot));
    assert_eq!(
        rel_posix_checked("/proj", "/elsewhere/App.jsx"),
        Err(OutsideRoot)
    );
    assert_eq!(rel_posix_checked("/proj", "../up.jsx"), Err(EscapesRoot));
    assert_eq!(rel_posix_checked("/proj", "/proj"), Err(EmptyPath));
    assert_eq!(rel_posix_checked("/proj", "./"), Err(EmptyPath));
    // Every refusal carries a human explanation for the build warning.
    for r in [NoRoot, NoFilename, OutsideRoot, EscapesRoot, EmptyPath] {
        assert!(!r.why().is_empty());
    }
}

#[test]
fn rel_posix_normalises_separators_and_noise() {
    // Turbopack shapes.
    assert_eq!(
        rel_posix("/proj", "app/page.tsx").as_deref(),
        Some("app/page.tsx")
    );
    assert_eq!(
        rel_posix("/proj", "./app/page.tsx").as_deref(),
        Some("app/page.tsx")
    );
    assert_eq!(
        rel_posix("/proj", "app//nested/page.tsx").as_deref(),
        Some("app/nested/page.tsx")
    );
    // A trailing slash on `root` must not break prefix matching.
    assert_eq!(
        rel_posix("/proj/", "/proj/app/page.tsx").as_deref(),
        Some("app/page.tsx")
    );
    // Component-wise matching: `/proj` must not claim `/project-x`.
    assert_eq!(rel_posix("/proj", "/project-x/app/page.tsx"), None);
    // Windows shapes normalise to POSIX; the drive form counts as absolute.
    assert_eq!(
        rel_posix("C:\\proj", "C:\\proj\\app\\page.tsx").as_deref(),
        Some("app/page.tsx")
    );
    assert_eq!(
        rel_posix("C:/proj", "app\\page.tsx").as_deref(),
        Some("app/page.tsx")
    );
    assert_eq!(rel_posix("C:/proj", "D:/other/page.tsx"), None);
}

#[test]
fn relative_filename_escaping_root_refuses() {
    assert_eq!(rel_posix("/proj", "../secrets/App.jsx"), None);
    assert_eq!(rel_posix("/proj", "app/../../App.jsx"), None);
    assert_eq!(
        rel_posix_checked("/proj", "app/../../App.jsx"),
        Err(RelRefusal::EscapesRoot)
    );
}

#[test]
fn dot_dot_inside_the_path_resolves() {
    assert_eq!(
        rel_posix("/proj", "app/x/../page.tsx").as_deref(),
        Some("app/page.tsx")
    );
    assert_eq!(
        rel_posix("/proj", "/proj/app/./x/../page.tsx").as_deref(),
        Some("app/page.tsx")
    );
    assert_eq!(
        rel_posix_checked("/proj", "/proj/../x.jsx"),
        Err(RelRefusal::EscapesRoot)
    );
    assert_eq!(rel_posix_checked("/proj", "app/.."), Err(RelRefusal::EmptyPath));
}

#[test]
fn absolute_and_relative_shapes_agree() {
    for rel in ["app/page.tsx", "./app//page.tsx", "app/x/../page.tsx", "../up.jsx", "./"] {
        let abs = format!("/proj/{}", rel);
        assert_eq!(rel_posix_checked("/proj", &abs), rel_posix_checked("/proj", rel));
        let drive = format!("C:\\proj/{}", rel);
        assert_eq!(
            rel_posix_checked("C:\\proj", &drive),
            rel_posix_checked("C:\\proj", rel)
        );
    }
}

#[test]
fn emitted_paths_are_clean_and_stable() {
    let inputs = [
        ("/proj", "/proj/src/App.jsx"),
        ("/proj", "./app//nested/./page.tsx"),
        ("C:\\proj", "C:\\proj\\app\\page.tsx"),
        ("/", "/a/b.jsx"),
    ];
    for (root, file) in inputs {
        let out = rel_posix_checked(root, file).unwrap();
        assert!(!out.is_empty());
        assert!(!out.starts_with('/'));
        assert!(!out.contains('\\'));
        for seg in out.split('/') {
            assert!(seg != "" && seg != "." && seg != "..");
        }
        // Handed back as a filename, under any root, it comes out unchanged.
        assert_eq!(rel_posix_checked("/other", &out), Ok(out.clone()));
    }
    assert_eq!(rel_posix("/", "/a/b.jsx").as_deref(), Some("a/b.jsx"));
}

#[test]
fn trailing_slashes_on_root_are_ignored() {
    assert_eq!(
        rel_posix_checked("/proj///", "/proj/app/page.tsx"),
        rel_posix_checked("/proj", "/proj/app/page.tsx")
    );
    assert_eq!(rel_posix_checked("///", "/a.jsx"), Ok("a.jsx".to_string()));
}

#[test]
fn absolute_pathish_shapes() {
    assert!(is_absolute_pathish("/proj"));
    assert!(is_absolute_pathish("C:/proj"));
    assert!(is_absolute_pathish("z:"));
    assert!(!is_absolute_pathish("app/page.tsx"));
    assert!(!is_absolute_pathish("1:/x"));
    assert!(!is_absolute_pathish(""));
    assert!(!is_absolute_pathish("C"));
}

#[test]
fn refusal_explanations() {
    assert_eq!(
        RelRefusal::OutsideRoot.why(),
        "the file is an absolute path outside `root`"
    );
    assert_eq!(
        RelRefusal::NoRoot.why(),
        "no `root` was configured, so every file is treated as outside the project"
    );
}
