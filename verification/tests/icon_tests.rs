//! Tests of the icon resolver's preference chain.

use datacube::icons::{IconCandidate, first_hit, icon_candidates};

#[test]
fn absolute_path_comes_first() {
    let plan = icon_candidates("/usr/share/icons/app.png", "hicolor", &Vec::new(), &Vec::new());
    match &plan[0] {
        IconCandidate::File { path } => assert_eq!(path, "/usr/share/icons/app.png"),
        _ => panic!("an absolute icon name must be tried as a file first"),
    }
}

#[test]
fn plain_name_starts_with_scalable_theme_lookup() {
    let plan = icon_candidates("firefox", "hicolor", &Vec::new(), &Vec::new());
    match &plan[0] {
        IconCandidate::Lookup { name, theme, scalable, .. } => {
            assert_eq!(name, "firefox");
            assert_eq!(theme.as_deref(), Some("hicolor"));
            assert!(*scalable);
        }
        _ => panic!("a plain icon name must start with a theme lookup"),
    }
}

#[test]
fn sizes_descend_and_unthemed_sweep_follows() {
    let plan = icon_candidates("firefox", "hicolor", &Vec::new(), &Vec::new());
    // Scalable lookup, then nine themed sizes, then nine unconstrained.
    assert_eq!(plan.len(), 1 + 9 + 9);
    let mut last_size = u32::MAX;
    for candidate in &plan[1..10] {
        match candidate {
            IconCandidate::Lookup { theme, size, scalable, .. } => {
                assert!(theme.is_some());
                assert!(!*scalable);
                assert!(*size < last_size);
                last_size = *size;
            }
            _ => panic!("the themed sweep must come before anything else"),
        }
    }
    match &plan[10] {
        IconCandidate::Lookup { theme, size, .. } => {
            assert!(theme.is_none());
            assert_eq!(*size, 512);
        }
        _ => panic!("the unconstrained sweep follows the themed one"),
    }
}

#[test]
fn pixmap_guesses_follow_the_sweeps() {
    let pixmaps = vec!["/usr/share/pixmaps".to_string()];
    let plan = icon_candidates("firefox", "hicolor", &pixmaps, &Vec::new());
    assert_eq!(plan.len(), 1 + 9 + 9 + 3);
    let paths: Vec<&str> = plan[19..]
        .iter()
        .map(|c| match c {
            IconCandidate::File { path } => path.as_str(),
            _ => panic!("pixmap guesses are direct file tests"),
        })
        .collect();
    assert_eq!(
        paths,
        vec![
            "/usr/share/pixmaps/firefox.svg",
            "/usr/share/pixmaps/firefox.png",
            "/usr/share/pixmaps/firefox.xpm",
        ]
    );
}

#[test]
fn export_directories_are_scanned_last() {
    let pixmaps = vec!["/usr/share/pixmaps".to_string()];
    let exports = vec!["/var/exports".to_string()];
    let plan = icon_candidates("firefox", "hicolor", &pixmaps, &exports);
    assert_eq!(plan.len(), 1 + 9 + 9 + 3 + 1 + 9);
    match &plan[22] {
        IconCandidate::ExportScan { dir, scalable, .. } => {
            assert_eq!(dir, "/var/exports");
            assert!(*scalable);
        }
        _ => panic!("export scans come after every file guess"),
    }
}

#[test]
fn first_hit_respects_preference_order() {
    let outcomes = vec![
        None,
        Some("/second.png".to_string()),
        Some("/third.png".to_string()),
    ];
    assert_eq!(first_hit(outcomes), Some("/second.png".to_string()));
    assert_eq!(first_hit(vec![None, None]), None);
    assert_eq!(first_hit(Vec::new()), None);
}
