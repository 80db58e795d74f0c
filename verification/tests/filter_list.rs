use hierarchy_engine::controller::Controller;
use hierarchy_engine::model::Model;

#[test]
fn the_seed_filters_start_disabled() {
    let ctrl = Controller::from(Model::new());
    let entries = ctrl.filter_displayed_tags("");
    let names: Vec<&str> = entries.iter().map(|e| e.name.as_str()).collect();
    assert_eq!(names, vec!["nsfw", "fantasy", "scifi"]);
    assert!(entries.iter().all(|e| !e.enable));
}

#[test]
fn searching_filters_by_substring() {
    let ctrl = Controller::from(Model::new());
    let entries = ctrl.filter_displayed_tags("sci");
    assert_eq!(entries.len(), 1);
    assert_eq!(entries[0].name, "scifi");
    let entries = ctrl.filter_displayed_tags("f");
    let names: Vec<&str> = entries.iter().map(|e| e.name.as_str()).collect();
    assert_eq!(names, vec!["nsfw", "fantasy", "scifi"]);
    assert!(ctrl.filter_displayed_tags("xyz").is_empty());
}

#[test]
fn inverting_a_filter_toggles_exactly_that_filter() {
    let mut ctrl = Controller::from(Model::new());
    ctrl.invert_filter_activation("fantasy");
    let entries = ctrl.filter_displayed_tags("");
    assert!(!entries[0].enable);
    assert!(entries[1].enable);
    assert!(!entries[2].enable);
    ctrl.invert_filter_activation("fantasy");
    let entries = ctrl.filter_displayed_tags("");
    assert!(entries.iter().all(|e| !e.enable));
}

#[test]
fn resetting_disables_everything_and_reports_the_matches() {
    let mut ctrl = Controller::from(Model::new());
    ctrl.invert_filter_activation("nsfw");
    ctrl.invert_filter_activation("scifi");
    let entries = ctrl.reset_filters("s");
    assert!(entries.iter().all(|e| !e.enable));
    let names: Vec<&str> = entries.iter().map(|e| e.name.as_str()).collect();
    assert_eq!(names, vec!["nsfw", "fantasy", "scifi"]);
}
