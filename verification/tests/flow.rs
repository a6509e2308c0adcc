use voxel_map_editor::grid::GenerateMapEvent;
use voxel_map_editor::lifecycle::{AppState, MenuState, ScreenLifecycle};
use voxel_map_editor::registry::{DimensionKind, RegistryError, WidgetId};
use voxel_map_editor::router::SubmissionRouter;

fn wid(index: u32) -> WidgetId {
    WidgetId { index, generation: 0 }
}

fn three_field_router() -> (SubmissionRouter, WidgetId, WidgetId, WidgetId) {
    let mut router = SubmissionRouter::new();
    let a = wid(1);
    let b = wid(2);
    let c = wid(3);
    router.register(a, DimensionKind::Width).unwrap();
    router.register(b, DimensionKind::Length).unwrap();
    router.register(c, DimensionKind::Height).unwrap();
    (router, a, b, c)
}

#[test]
fn third_valid_submission_fires_exactly_once() {
    let (mut router, a, b, c) = three_field_router();
    assert_eq!(router.handle_submission(a, "4").unwrap().is_none(), true);
    assert_eq!(router.handle_submission(b, "3").unwrap().is_none(), true);
    let fired = router.handle_submission(c, "2").unwrap();
    assert!(fired.is_some());
}

#[test]
fn fired_event_carries_the_full_grid() {
    let (mut router, a, b, c) = three_field_router();
    router.handle_submission(a, "4").unwrap();
    router.handle_submission(b, "3").unwrap();
    let ev: GenerateMapEvent = router.handle_submission(c, "2").unwrap().unwrap();
    let map = ev.0;
    assert_eq!(map.dimensions.width, 4);
    assert_eq!(map.dimensions.length, 3);
    assert_eq!(map.dimensions.height, 2);
    assert_eq!(map.nodes.len(), 24);
    // First tile: x = 0 - 4/2 = -2, y = 0 - 4/2 = -2, z = 0.
    let first = map.nodes[0];
    assert_eq!(first.x_half as f32 / 2.0, -2.0);
    assert_eq!(first.y_half as f32 / 2.0, -2.0);
    assert_eq!(first.z_half as f32 / 2.0, 0.0);
    // Last tile: x = 3 - 2 = 1, y = 2 - 2 = 0, z = 1.
    let last = map.nodes[23];
    assert_eq!(last.x_half as f32 / 2.0, 1.0);
    assert_eq!(last.y_half as f32 / 2.0, 0.0);
    assert_eq!(last.z_half as f32 / 2.0, 1.0);
}

#[test]
fn zero_width_never_fires() {
    let (mut router, a, b, c) = three_field_router();
    assert!(router.handle_submission(a, "0").unwrap().is_none());
    assert!(router.handle_submission(b, "5").unwrap().is_none());
    assert!(router.handle_submission(c, "5").unwrap().is_none());
    // Re-flushing the same texts still fires nothing: the width is still 0.
    assert!(router.handle_submission(a, "0").unwrap().is_none());
    assert!(router.handle_submission(b, "5").unwrap().is_none());
    assert!(router.handle_submission(c, "5").unwrap().is_none());
}

#[test]
fn nonnumeric_text_blocks_the_trigger() {
    let (mut router, a, b, c) = three_field_router();
    assert!(router.handle_submission(a, "4").unwrap().is_none());
    assert!(router.handle_submission(b, "3").unwrap().is_none());
    assert!(router.handle_submission(c, "two").unwrap().is_none());
    assert!(!router.all_valid());
    // Fixing the bad field completes the set and fires.
    assert!(router.handle_submission(c, "2").unwrap().is_some());
}

#[test]
fn resubmission_without_change_does_not_refire() {
    let (mut router, a, b, c) = three_field_router();
    router.handle_submission(a, "4").unwrap();
    router.handle_submission(b, "3").unwrap();
    assert!(router.handle_submission(c, "2").unwrap().is_some());
    // The same completed input set must not produce a second request.
    assert!(router.handle_submission(a, "4").unwrap().is_none());
    assert!(router.handle_submission(b, "3").unwrap().is_none());
    assert!(router.handle_submission(c, "2").unwrap().is_none());
}

#[test]
fn changing_a_field_rearms_the_trigger() {
    let (mut router, a, b, c) = three_field_router();
    router.handle_submission(a, "4").unwrap();
    router.handle_submission(b, "3").unwrap();
    assert!(router.handle_submission(c, "2").unwrap().is_some());
    // An intervening field change makes a new completed set: fires again.
    let again = router.handle_submission(a, "5").unwrap();
    assert!(again.is_some());
    assert_eq!(again.unwrap().0.nodes.len(), 5 * 3 * 2);
}

#[test]
fn unknown_widget_submission_is_reported_and_dropped() {
    let (mut router, a, _b, _c) = three_field_router();
    assert_eq!(
        router.handle_submission(wid(9), "4").unwrap_err(),
        RegistryError::UnknownWidget
    );
    // The known fields are untouched.
    assert!(router.handle_submission(a, "4").unwrap().is_none());
}

#[test]
fn clear_rearms_and_empties_the_router() {
    let (mut router, a, b, c) = three_field_router();
    router.handle_submission(a, "4").unwrap();
    router.handle_submission(b, "3").unwrap();
    assert!(router.handle_submission(c, "2").unwrap().is_some());
    router.clear();
    assert_eq!(router.handle_submission(a, "4").unwrap_err(), RegistryError::UnknownWidget);
    assert!(!router.all_valid());
}

#[test]
fn app_and_menu_states_default_forward() {
    let s: AppState = Default::default();
    assert_eq!(s, AppState::Loading);
    let m: MenuState = Default::default();
    assert_eq!(m, MenuState::MainMenu);
}

#[test]
fn lifecycle_runs_the_whole_flow() {
    let mut life = ScreenLifecycle::new();
    assert_eq!(life.app_state, AppState::Loading);
    assert_eq!(life.menu_state, MenuState::MainMenu);
    life.startup();
    assert_eq!(life.app_state, AppState::Menu);
    life.press_start();
    assert_eq!(life.menu_state, MenuState::Options);
    let (a, b, c) = (wid(1), wid(2), wid(3));
    life.enter_options(a, b, c).unwrap();
    assert!(life.field_submitted(a, "4").unwrap().is_none());
    assert!(life.field_submitted(b, "3").unwrap().is_none());
    let ev = life.field_submitted(c, "2").unwrap().unwrap();
    assert_eq!(ev.0.nodes.len(), 24);
    assert_eq!(life.app_state, AppState::Generating);
    // The options screen was torn down with the generation: its widgets
    // are gone, so a stale resubmission is reported as unknown.
    assert_eq!(life.field_submitted(a, "4").unwrap_err(), RegistryError::UnknownWidget);
}

#[test]
fn back_button_clears_and_revisit_starts_fresh() {
    let mut life = ScreenLifecycle::new();
    life.startup();
    life.press_start();
    let (a, b, c) = (wid(1), wid(2), wid(3));
    life.enter_options(a, b, c).unwrap();
    life.field_submitted(a, "4").unwrap();
    life.field_submitted(b, "3").unwrap();
    life.press_back();
    assert_eq!(life.menu_state, MenuState::MainMenu);
    // Re-entering rebuilds the registry from scratch: the same identities
    // register cleanly and the old values are gone.
    life.press_start();
    life.enter_options(a, b, c).unwrap();
    assert!(life.field_submitted(c, "2").unwrap().is_none());
    assert!(life.field_submitted(a, "4").unwrap().is_none());
    assert!(life.field_submitted(b, "3").unwrap().is_some());
}

#[test]
fn press_start_outside_main_menu_is_ignored() {
    let mut life = ScreenLifecycle::new();
    life.startup();
    life.press_start();
    assert_eq!(life.menu_state, MenuState::Options);
    life.press_start();
    assert_eq!(life.menu_state, MenuState::Options);
}

#[test]
fn press_back_outside_options_is_ignored() {
    let mut life = ScreenLifecycle::new();
    life.startup();
    life.press_back();
    assert_eq!(life.menu_state, MenuState::MainMenu);
}

#[test]
fn enter_options_rejects_duplicate_identities() {
    let mut life = ScreenLifecycle::new();
    life.startup();
    life.press_start();
    assert_eq!(
        life.enter_options(wid(1), wid(1), wid(2)),
        Err(RegistryError::DuplicateWidget)
    );
}
