use classicube_pet_plugin::lifecycle::{
    free, initialize, is_plugin_active, on_new_map, on_new_map_loaded, reset, LifecycleAction,
    Plugin,
};

#[test]
fn new_plugin_is_inactive_and_ignores_events() {
    let p = Plugin::new();
    assert!(!is_plugin_active(&p));
    assert_eq!(reset(&p), LifecycleAction::Nothing);
    assert_eq!(on_new_map(&p), LifecycleAction::Nothing);
    assert_eq!(on_new_map_loaded(&p), LifecycleAction::Nothing);
}

#[test]
fn initialize_is_idempotent() {
    let mut p = Plugin::new();
    assert_eq!(initialize(&mut p), LifecycleAction::InitModules);
    assert!(is_plugin_active(&p));
    assert_eq!(initialize(&mut p), LifecycleAction::Nothing);
    assert!(is_plugin_active(&p));
}

#[test]
fn active_plugin_forwards_events() {
    let mut p = Plugin::new();
    initialize(&mut p);
    assert_eq!(reset(&p), LifecycleAction::ResetModules);
    assert_eq!(on_new_map(&p), LifecycleAction::NewMap);
    assert_eq!(on_new_map_loaded(&p), LifecycleAction::NewMapLoaded);
}

#[test]
fn free_after_initialize_frees_once() {
    let mut p = Plugin::new();
    initialize(&mut p);
    assert_eq!(free(&mut p), LifecycleAction::FreeModules);
    assert!(!is_plugin_active(&p));
    assert_eq!(free(&mut p), LifecycleAction::Nothing);
    assert_eq!(reset(&p), LifecycleAction::Nothing);
}

#[test]
fn free_without_initialize_does_nothing() {
    let mut p = Plugin::new();
    assert_eq!(free(&mut p), LifecycleAction::Nothing);
    assert!(!is_plugin_active(&p));
}

#[test]
fn reinitialize_after_free() {
    let mut p = Plugin::new();
    initialize(&mut p);
    free(&mut p);
    assert_eq!(initialize(&mut p), LifecycleAction::InitModules);
    assert!(is_plugin_active(&p));
}
