use symphony_rs::path_safety::{
    is_below, is_within, joined_path, path_climbs, path_components, path_file_name, path_goes_down,
    same_path, Canonicalizer, PathSafetyError, Probe,
};

fn canonicalize(
    path: &str,
    working_dir: Option<&str>,
    files: &dyn Fn(&str) -> Probe,
) -> Result<String, PathSafetyError> {
    let mut walk = Canonicalizer::start(path, working_dir);
    while let Some(candidate) = walk.candidate() {
        walk = walk.step(files(&candidate))?;
    }
    Ok(walk.resolved())
}

#[test]
fn canonicalize_keeps_nonexistent_suffix() {
    let path = canonicalize("./target/does-not-need-to-exist", Some("/work"), &|candidate| {
        if candidate == "/work" { Probe::Present } else { Probe::Missing }
    })
    .expect("canonicalization should work");
    assert!(path.ends_with("target/does-not-need-to-exist"));
    assert_eq!(path, "/work/target/does-not-need-to-exist");
}

#[test]
fn existing_paths_are_normalized() {
    let path = canonicalize("/a//b/./c/", None, &|_| Probe::Present).expect("path");
    assert_eq!(path, "/a/b/c");
    let path = canonicalize("x/..", None, &|_| Probe::Present).expect("path");
    assert_eq!(path, "./x/..");
    let path = canonicalize("/", None, &|_| Probe::Present).expect("path");
    assert_eq!(path, "/");
}

#[test]
fn links_lead_to_their_targets() {
    let path = canonicalize("/a/b", None, &|candidate| match candidate {
        "/a" => Probe::Symlink("/real".to_string()),
        _ => Probe::Missing,
    })
    .expect("path");
    assert_eq!(path, "/real/a/b");
    let path = canonicalize("/x/a", None, &|candidate| match candidate {
        "/x" => Probe::Present,
        "/x/a" => Probe::Symlink("t".to_string()),
        _ => Probe::Missing,
    })
    .expect("path");
    assert_eq!(path, "/x/t/a");
}

#[test]
fn other_answers_are_errors() {
    let error = canonicalize("/a", None, &|_| Probe::Failed("denied".to_string())).expect_err("error");
    assert_eq!(error.message(), "path_canonicalize_failed: /a (denied)");
    let error = canonicalize("/a", None, &|_| Probe::UnreadableLink("gone".to_string())).expect_err("error");
    assert_eq!(error, PathSafetyError::new("/a".to_string(), "gone".to_string()));
}

#[test]
fn joining_and_splitting_agree_with_std() {
    let samples = ["", "/", "a", "a/", "/a", "a/b", "./a", ".", "..", "/a/../b", "a//b/.", "~/x"];
    for base in samples {
        for child in samples {
            let expected = std::path::Path::new(base).join(child);
            assert_eq!(joined_path(base, child), expected.to_string_lossy());
            assert_eq!(same_path(base, child), std::path::Path::new(base) == std::path::Path::new(child));
        }
        let expected: Vec<String> = std::path::Path::new(base)
            .components()
            .map(|c| c.as_os_str().to_string_lossy().to_string())
            .collect();
        assert_eq!(path_components(base), expected);
        assert_eq!(
            path_file_name(base),
            std::path::Path::new(base).file_name().map(|n| n.to_string_lossy().to_string())
        );
    }
}

#[test]
fn paths_below_a_directory_lead_down() {
    assert!(is_within("/r/..", "/r"));
    assert!(!is_below("/r/..", "/r"));
    assert!(is_below("/r/a/b", "/r"));
    assert!(!is_within("/rx", "/r"));
    assert!(is_below("/r/a/../b", "/r"));
    assert!(is_below("/r/a/b/..", "/r"));
    assert!(!is_below("/r/a/..", "/r"));
    assert!(!is_below("/r/../r/a", "/r"));
    assert!(path_goes_down("/r/a/../b", "/r"));
    assert!(path_goes_down("/../r/a", "/../r"));
    assert!(!path_goes_down("/r/a/../../b", "/r"));
    assert!(!path_goes_down("/r", "/r"));
    assert!(!path_goes_down("/", "/r"));
    assert!(!path_goes_down(".", ""));
    assert!(!path_climbs("/r/a/../b", "/r"));
    assert!(path_climbs("/r/a/../..", "/r"));
    assert!(path_climbs("/r/a/..", "/r"));
    assert!(!path_climbs("/x/..", "/r"));
    assert!(!path_climbs("/x/../y", "/r"));
    assert!(!path_climbs("/r/a", "/r"));
}
