use hierarchy_engine::id_to_path;
use hierarchy_engine::model::{get_hierarchy_element, get_hierarchy_element_by_name, Error, Model};
use hierarchy_engine::translators::to_entries_model;
use hierarchy_engine::workspaces::{folder, leaf, HierarchyElement, Workspace};

fn single_folder_model(folded: bool) -> Model {
    Model {
        current_workspace_name: "Campagne".to_string(),
        workspaces: vec![Workspace {
            name: "Campagne".to_string(),
            hierarchy: vec![folder("Dossier", folded, vec![leaf("Item 1"), leaf("Item 2")])],
        }],
        filter_list: vec![],
    }
}

#[test]
fn flatten_unfolded_folder_yields_three_rows_in_order() {
    let model = single_folder_model(false);
    let rows = to_entries_model(&model.workspaces[0].hierarchy);
    assert_eq!(rows.len(), 3);
    assert_eq!(rows[0].id, "/Dossier");
    assert_eq!(rows[0].title, "Dossier");
    assert_eq!(rows[0].indentation, 0);
    assert!(rows[0].is_folder);
    assert_eq!(rows[1].id, "/Dossier/Item 1");
    assert_eq!(rows[1].title, "Item 1");
    assert_eq!(rows[1].indentation, 1);
    assert!(!rows[1].is_folder);
    assert_eq!(rows[2].id, "/Dossier/Item 2");
    assert_eq!(rows[2].title, "Item 2");
    assert_eq!(rows[2].indentation, 1);
    assert!(!rows[2].is_folder);
}

#[test]
fn flatten_after_folding_yields_only_the_folder_row() {
    let mut model = single_folder_model(false);
    model.reverse_folding("Campagne", "/Dossier").unwrap();
    let rows = to_entries_model(&model.workspaces[0].hierarchy);
    assert_eq!(rows.len(), 1);
    assert_eq!(rows[0].id, "/Dossier");
    assert_eq!(rows[0].indentation, 0);
    assert!(rows[0].is_folder);
}

#[test]
fn toggle_fold_twice_restores_the_original_rows() {
    let mut model = single_folder_model(true);
    let before = to_entries_model(&model.workspaces[0].hierarchy);
    model.reverse_folding("Campagne", "/Dossier").unwrap();
    model.reverse_folding("Campagne", "/Dossier").unwrap();
    let after = to_entries_model(&model.workspaces[0].hierarchy);
    assert_eq!(before, after);
}

#[test]
fn toggle_fold_on_a_leaf_is_a_no_op_success() {
    let mut model = single_folder_model(false);
    let before = to_entries_model(&model.workspaces[0].hierarchy);
    model.reverse_folding("Campagne", "/Dossier/Item 1").unwrap();
    let after = to_entries_model(&model.workspaces[0].hierarchy);
    assert_eq!(before, after);
}

#[test]
fn find_empty_path_fails_with_empty_path_search() {
    let model = single_folder_model(false);
    match get_hierarchy_element(&model.workspaces[0].hierarchy, &id_to_path("")) {
        Err(Error::EmptyPathSearch) => {}
        Err(_) => panic!("expected EmptyPathSearch, got another error"),
        Ok(_) => panic!("expected EmptyPathSearch, got a node"),
    }
}

#[test]
fn find_through_a_leaf_names_the_unreachable_segment() {
    let hierarchy = vec![leaf("PNJs"), leaf("Environments")];
    match get_hierarchy_element(&hierarchy, &id_to_path("/PNJs/Nonexistent")) {
        Err(Error::HierarchyElementNotFound { missing }) => assert_eq!(missing, "Nonexistent"),
        _ => panic!("expected HierarchyElementNotFound"),
    }
}

#[test]
fn find_missing_sibling_names_the_absent_segment() {
    let model = single_folder_model(false);
    match get_hierarchy_element(&model.workspaces[0].hierarchy, &id_to_path("/Classeur")) {
        Err(Error::HierarchyElementNotFound { missing }) => assert_eq!(missing, "Classeur"),
        _ => panic!("expected HierarchyElementNotFound"),
    }
}

#[test]
fn find_resolves_nested_leaves() {
    let model = single_folder_model(false);
    match get_hierarchy_element(&model.workspaces[0].hierarchy, &id_to_path("/Dossier/Item 2")) {
        Ok(HierarchyElement::Dashboard(d)) => assert_eq!(d.name, "Item 2"),
        _ => panic!("expected the leaf Item 2"),
    }
}

#[test]
fn get_hierarchy_element_by_name_picks_the_first_match() {
    let hierarchy = vec![leaf("A"), leaf("B")];
    match get_hierarchy_element_by_name(&hierarchy, "B") {
        Some(HierarchyElement::Dashboard(d)) => assert_eq!(d.name, "B"),
        _ => panic!("expected the leaf B"),
    }
    assert!(get_hierarchy_element_by_name(&hierarchy, "C").is_none());
}

#[test]
fn reverse_folding_in_unknown_workspace_fails() {
    let mut model = single_folder_model(false);
    match model.reverse_folding("Inconnu", "/Dossier") {
        Err(Error::WorkspaceNotFound { name }) => assert_eq!(name, "Inconnu"),
        _ => panic!("expected WorkspaceNotFound"),
    }
}

#[test]
fn is_folder_reports_the_node_kind() {
    let model = single_folder_model(false);
    assert_eq!(model.is_folder("Campagne", "/Dossier").unwrap(), true);
    assert_eq!(model.is_folder("Campagne", "/Dossier/Item 1").unwrap(), false);
}

#[test]
fn toggling_a_nested_folder_hides_only_its_children() {
    let mut model = Model {
        current_workspace_name: "Campagne".to_string(),
        workspaces: vec![Workspace {
            name: "Campagne".to_string(),
            hierarchy: vec![folder(
                "Monde",
                false,
                vec![folder("Ville", false, vec![leaf("Taverne")]), leaf("Carte")],
            )],
        }],
        filter_list: vec![],
    };
    model.reverse_folding("Campagne", "/Monde/Ville").unwrap();
    let rows = to_entries_model(&model.workspaces[0].hierarchy);
    let ids: Vec<&str> = rows.iter().map(|r| r.id.as_str()).collect();
    assert_eq!(ids, vec!["/Monde", "/Monde/Ville", "/Monde/Carte"]);
}

#[test]
fn find_resolves_through_a_folded_folder() {
    let model = single_folder_model(true);
    match get_hierarchy_element(&model.workspaces[0].hierarchy, &id_to_path("/Dossier/Item 1")) {
        Ok(HierarchyElement::Dashboard(d)) => assert_eq!(d.name, "Item 1"),
        _ => panic!("expected the leaf Item 1 despite the fold"),
    }
}

#[test]
fn unknown_workspace_takes_precedence_over_an_empty_path() {
    let mut model = single_folder_model(false);
    match model.reverse_folding("Inconnu", "") {
        Err(Error::WorkspaceNotFound { name }) => assert_eq!(name, "Inconnu"),
        _ => panic!("expected WorkspaceNotFound"),
    }
}

#[test]
fn empty_path_in_a_known_workspace_is_refused() {
    let mut model = single_folder_model(false);
    match model.reverse_folding("Campagne", "//") {
        Err(Error::EmptyPathSearch) => {}
        _ => panic!("expected EmptyPathSearch"),
    }
}
