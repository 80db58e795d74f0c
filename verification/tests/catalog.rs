use hierarchy_engine::controller::Controller;
use hierarchy_engine::model::{Error, Model};
use hierarchy_engine::translators::to_workspace_model;

#[test]
fn the_seed_catalog_starts_on_cyberpunk_red() {
    let model = Model::new();
    assert_eq!(model.current_workspace_name, "Cyberpunk RED");
    assert_eq!(
        to_workspace_model(&model.workspaces),
        vec!["Cyberpunk RED".to_string(), "Donjons et Dragons".to_string()]
    );
    let current = model.get_current_workspace().unwrap();
    assert_eq!(current.name, "Cyberpunk RED");
}

#[test]
fn switching_workspaces_changes_the_rendered_tree() {
    let mut ctrl = Controller::from(Model::new());
    let rows = ctrl.change_workspace("Donjons et Dragons").unwrap();
    assert_eq!(ctrl.model.current_workspace_name, "Donjons et Dragons");
    let titles: Vec<&str> = rows.iter().map(|r| r.title.as_str()).collect();
    assert_eq!(titles, vec!["Donjons", "Emtpy Dossier", "Armes", "Objets"]);
    assert!(rows.iter().all(|r| !r.id.contains("Dossier/Item")));
}

#[test]
fn switching_to_an_unknown_workspace_surfaces_the_error() {
    let mut ctrl = Controller::from(Model::new());
    match ctrl.change_workspace("Inconnu") {
        Err(Error::WorkspaceNotFound { name }) => assert_eq!(name, "Inconnu"),
        _ => panic!("expected WorkspaceNotFound"),
    }
    assert_eq!(ctrl.model.current_workspace_name, "Inconnu");
}

#[test]
fn folding_re_renders_the_current_workspace() {
    let mut ctrl = Controller::from(Model::new());
    let rows = ctrl.reverse_folding("Cyberpunk RED", "/Dossier").unwrap();
    let titles: Vec<&str> = rows.iter().map(|r| r.title.as_str()).collect();
    assert_eq!(
        titles,
        vec!["Dossier", "Item 1", "Item 2", "Emtpy Dossier", "PNJs", "Environments"]
    );
    assert_eq!(rows[1].indentation, 1);
}

#[test]
fn get_workspace_finds_by_name() {
    let model = Model::new();
    assert!(model.get_workspace("Donjons et Dragons").is_some());
    assert!(model.get_workspace("Inconnu").is_none());
}

#[test]
fn error_messages_name_what_is_missing() {
    let workspace_error = Error::WorkspaceNotFound { name: "Inconnu".to_string() };
    assert_eq!(workspace_error.message(), "Workspace Inconnu could not be found");
    let element_error = Error::HierarchyElementNotFound { missing: "Classeur".to_string() };
    assert_eq!(
        element_error.message(),
        "Hierarchy element could not be found: Missing Classeur"
    );
    assert_eq!(
        Error::EmptyPathSearch.message(),
        "Hierarchy element could not be found: Empty search path"
    );
}

#[test]
fn get_current_workspace_fails_after_a_stale_switch() {
    let mut model = Model::new();
    model.set_current_workspace("Inconnu");
    match model.get_current_workspace() {
        Err(Error::WorkspaceNotFound { name }) => assert_eq!(name, "Inconnu"),
        _ => panic!("expected WorkspaceNotFound"),
    }
}
