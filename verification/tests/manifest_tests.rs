use front::manifest::{version_warning, Manifest, VERSION};

#[test]
fn requires_compares_major_minor_only() {
    let manifest = Manifest {
        required_version: Some("0.57".into()),
        ..Manifest::default()
    };
    let warning = version_warning(&manifest).expect("0.57 != 0.56 at this point in history");
    assert!(warning.contains("0.57"), "{warning}");

    let running = VERSION;
    let same = Manifest {
        required_version: Some(running.to_string()),
        ..Manifest::default()
    };
    assert_eq!(version_warning(&same), None);
    assert_eq!(version_warning(&Manifest::default()), None);
}
