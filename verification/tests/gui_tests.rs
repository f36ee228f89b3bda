use dataflow::{BuildInfo, Context, GuiArtifact, OptRefCell, Version, ide_desktop_from_context};

#[test]
fn gui_artifact_keeps_its_root() {
    let artifact = GuiArtifact::new("dist/gui".to_string());
    assert_eq!(artifact.path(), "dist/gui");
}

#[test]
fn desktop_builder_comes_from_the_context() {
    let context = Context { repo_root: "/work/repo".to_string() };
    let ide = ide_desktop_from_context(&context);
    assert_eq!(ide.repo_root, "/work/repo");
}

#[test]
fn build_info_holds_its_versions() {
    let info = BuildInfo {
        commit: "0123abcd".to_string(),
        version: Version { major: 2023, minor: 1, patch: 1 },
        engine_version: Version { major: 2023, minor: 1, patch: 1 },
        name: "Enso".to_string(),
    };
    assert_eq!(info.version, info.engine_version);
    assert_eq!(info.version.major, 2023);
}

#[test]
fn cell_reads_and_writes_through_borrows() {
    let mut cell = OptRefCell::new(10);
    assert_eq!(*cell.borrow(), 10);
    *cell.borrow_mut() = 11;
    assert_eq!(*cell.borrow(), 11);
    assert_eq!(cell.into_inner(), 11);
}

#[test]
fn cell_applies_closures_to_the_held_value() {
    let mut cell = OptRefCell::new(5);
    let doubled = cell.with_borrowed(|x: &i32| x * 2);
    assert_eq!(doubled, 10);
    let previous = cell.with_borrowed_mut(|x: &i32| (x + 1, *x));
    assert_eq!(previous, 5);
    assert_eq!(*cell.borrow(), 6);
}
