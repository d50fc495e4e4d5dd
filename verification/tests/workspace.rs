use artflow::workspace::WorkspaceState;

#[test]
fn workspace_saves_name() {
    let mut w = WorkspaceState::default();
    assert_eq!(w.name, "");
    w.save_current("Painting".to_string());
    assert_eq!(w.name, "Painting");
}
