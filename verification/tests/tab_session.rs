use hierarchy_engine::controller::Controller;
use hierarchy_engine::model::Model;
use hierarchy_engine::tabs::TabData;

#[test]
fn open_twice_keeps_one_tab_and_the_same_index() {
    let mut ctrl = Controller::from(Model::new());
    let first = ctrl.open_dashboard("Cyberpunk RED", "/Dossier/Item 1");
    let second = ctrl.open_dashboard("Cyberpunk RED", "/Dossier/Item 1");
    assert_eq!(first, second);
    assert_eq!(ctrl.tabs.len(), 1);
    assert_eq!(ctrl.active_tab, Some(second));
}

#[test]
fn open_resolves_name_and_content_once() {
    let mut ctrl = Controller::from(Model::new());
    let idx = ctrl.open_dashboard("Cyberpunk RED", "/Dossier/Item 1");
    assert_eq!(idx, 0);
    assert_eq!(ctrl.tabs[0].workspace_name, "Cyberpunk RED");
    assert_eq!(ctrl.tabs[0].id, "/Dossier/Item 1");
    assert_eq!(ctrl.tabs[0].name, "Item 1");
    assert_eq!(ctrl.tabs[0].content, "/Dossier/Item 1");
}

#[test]
fn open_distinguishes_workspaces_with_the_same_path() {
    let mut ctrl = Controller::from(Model::new());
    let first = ctrl.open_dashboard("Cyberpunk RED", "/PNJs");
    let second = ctrl.open_dashboard("Donjons et Dragons", "/PNJs");
    assert_ne!(first, second);
    assert_eq!(ctrl.tabs.len(), 2);
    assert_eq!(ctrl.active_tab, Some(second));
}

#[test]
fn reopening_activates_the_existing_tab() {
    let mut ctrl = Controller::from(Model::new());
    let first = ctrl.open_dashboard("Cyberpunk RED", "/PNJs");
    let _second = ctrl.open_dashboard("Cyberpunk RED", "/Environments");
    let again = ctrl.open_dashboard("Cyberpunk RED", "/PNJs");
    assert_eq!(again, first);
    assert_eq!(ctrl.tabs.len(), 2);
    assert_eq!(ctrl.active_tab, Some(first));
}

#[test]
fn closing_an_absent_tab_changes_nothing() {
    let mut ctrl = Controller::from(Model::new());
    ctrl.open_dashboard("Cyberpunk RED", "/PNJs");
    let tabs_before = ctrl.tabs.clone();
    let active_before = ctrl.active_tab;
    ctrl.tabs_close(TabData {
        workspace_name: "Cyberpunk RED".to_string(),
        id: "/Environments".to_string(),
        name: "Environments".to_string(),
        content: "/Environments".to_string(),
    });
    assert_eq!(ctrl.tabs, tabs_before);
    assert_eq!(ctrl.active_tab, active_before);
}

#[test]
fn closing_a_present_tab_removes_only_it() {
    let mut ctrl = Controller::from(Model::new());
    ctrl.open_dashboard("Cyberpunk RED", "/PNJs");
    ctrl.open_dashboard("Cyberpunk RED", "/Environments");
    ctrl.tabs_close(TabData {
        workspace_name: "Cyberpunk RED".to_string(),
        id: "/PNJs".to_string(),
        name: "PNJs".to_string(),
        content: "/PNJs".to_string(),
    });
    assert_eq!(ctrl.tabs.len(), 1);
    assert_eq!(ctrl.tabs[0].id, "/Environments");
}
