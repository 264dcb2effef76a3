//! The plugin's lifecycle: ClassiCube calls Init, Free, Reset, OnNewMap and
//! OnNewMapLoaded; the modules exist between an Init and the next Free.

use vstd::prelude::*;

verus! {

/// What the host must do with the plugin's modules for a lifecycle call.
#[derive(Clone, Copy, PartialEq, Eq, Structural, Debug)]
pub enum LifecycleAction {
    /// Nothing: the call does not apply in the current state.
    Nothing,
    /// Create every module.
    InitModules,
    /// Free every module (children in reverse order, then the root).
    FreeModules,
    /// Forward Reset to the modules.
    ResetModules,
    /// Forward OnNewMap to the modules.
    NewMap,
    /// Forward OnNewMapLoaded to the modules.
    NewMapLoaded,
}

/// Init on a plugin whose modules exist (`active`) or not: the new state and the action.
pub open spec fn init_step(active: bool) -> (bool, LifecycleAction) {
    if active {
        (true, LifecycleAction::Nothing)
    } else {
        (true, LifecycleAction::InitModules)
    }
}

/// Free on a plugin whose modules exist (`active`) or not: the new state and the action.
pub open spec fn free_step(active: bool) -> (bool, LifecycleAction) {
    if active {
        (false, LifecycleAction::FreeModules)
    } else {
        (false, LifecycleAction::Nothing)
    }
}

/// A forwarded event is acted on only while the modules exist.
pub open spec fn forwarded(active: bool, action: LifecycleAction) -> LifecycleAction {
    if active {
        action
    } else {
        LifecycleAction::Nothing
    }
}

/// Whether the plugin's modules currently exist.
pub struct Plugin {
    active: bool,
}

impl View for Plugin {
    type V = bool;

    closed spec fn view(&self) -> bool {
        self.active
    }
}

impl Plugin {
    /// A plugin that has not been initialised.
    pub fn new() -> (p: Plugin)
        ensures
            !p@,
    {
        Plugin { active: false }
    }
}

/// Whether the plugin is initialised (between Init and Free). Commands
/// invoked outside that window touch no torn-down state.
pub fn is_plugin_active(plugin: &Plugin) -> (r: bool)
    ensures
        r == plugin@,
{
    plugin.active
}

/// Init: create the modules unless they already exist.
pub fn initialize(plugin: &mut Plugin) -> (a: LifecycleAction)
    ensures
        (final(plugin)@, a) == init_step(old(plugin)@),
{
    if plugin.active {
        LifecycleAction::Nothing
    } else {
        plugin.active = true;
        LifecycleAction::InitModules
    }
}

/// Free: tear the modules down if they exist.
pub fn free(plugin: &mut Plugin) -> (a: LifecycleAction)
    ensures
        (final(plugin)@, a) == free_step(old(plugin)@),
{
    if plugin.active {
        plugin.active = false;
        LifecycleAction::FreeModules
    } else {
        LifecycleAction::Nothing
    }
}

/// Reset: forwarded to the modules if they exist.
pub fn reset(plugin: &Plugin) -> (a: LifecycleAction)
    ensures
        a == forwarded(plugin@, LifecycleAction::ResetModules),
{
    if plugin.active {
        LifecycleAction::ResetModules
    } else {
        LifecycleAction::Nothing
    }
}

/// OnNewMap: forwarded to the modules if they exist.
pub fn on_new_map(plugin: &Plugin) -> (a: LifecycleAction)
    ensures
        a == forwarded(plugin@, LifecycleAction::NewMap),
{
    if plugin.active {
        LifecycleAction::NewMap
    } else {
        LifecycleAction::Nothing
    }
}

/// OnNewMapLoaded: forwarded to the modules if they exist.
pub fn on_new_map_loaded(plugin: &Plugin) -> (a: LifecycleAction)
    ensures
        a == forwarded(plugin@, LifecycleAction::NewMapLoaded),
{
    if plugin.active {
        LifecycleAction::NewMapLoaded
    } else {
        LifecycleAction::Nothing
    }
}

/// Init is idempotent: a second Init (without a Free between) creates
/// nothing, and the modules stay up.
pub proof fn law_init_idempotent(active: bool)
    ensures
        init_step(init_step(active).0) == (true, LifecycleAction::Nothing),
{
}

/// After an Init, a Free tears the modules down exactly once: a second
/// Free does nothing.
pub proof fn law_free_after_init_frees_once(active: bool)
    ensures
        free_step(init_step(active).0) == (false, LifecycleAction::FreeModules),
        free_step(free_step(init_step(active).0).0) == (false, LifecycleAction::Nothing),
{
}

/// Between a Free and the next Init (the hot-reload gap), forwarded events
/// reach no module.
pub proof fn law_freed_plugin_ignores_events(active: bool, action: LifecycleAction)
    ensures
        forwarded(free_step(active).0, action) == LifecycleAction::Nothing,
{
}

} // verus!
