//! Screen lifecycle: the coarse application state, the menu sub-state, and
//! the ordering of widget registration and teardown around the options
//! screen.
//!
//! The application state only moves forward here: `Loading` to `Menu` at
//! startup, `Menu` to `Generating` when a generation request fires. `InApp`
//! is entered by a collaborator outside this library. The menu sub-state
//! moves between the main menu and the options screen independently; every
//! exit from the options screen tears its widgets down, so the registry is
//! cleared on each rebuild and no stale entry survives a revisit.

use crate::grid::GenerateMapEvent;
use crate::registry::{Dimension, DimensionKind, RegistryError, WidgetId};
use crate::router::{
    SubmissionRouter, step_dispatched, step_fields, step_fires,
};
use vstd::prelude::*;

verus! {

/// The process-wide application phase.
#[derive(Clone, Copy, Debug, PartialEq, Eq, Structural)]
pub enum AppState {
    Loading,
    Menu,
    Generating,
    InApp,
}

impl Default for AppState {
    fn default() -> (s: AppState)
        ensures
            s == AppState::Loading,
    {
        AppState::Loading
    }
}

/// The menu sub-state, independent of the application phase.
#[derive(Clone, Copy, Debug, PartialEq, Eq, Structural)]
pub enum MenuState {
    MainMenu,
    Settings,
    Options,
}

impl Default for MenuState {
    fn default() -> (s: MenuState)
        ensures
            s == MenuState::MainMenu,
    {
        MenuState::MainMenu
    }
}

/// Owns the state transitions and the widget registration ordering around
/// the options screen. The presentation layer reports button presses and
/// text submissions; the render layer consumes the returned events.
pub struct ScreenLifecycle {
    pub app_state: AppState,
    pub menu_state: MenuState,
    pub router: SubmissionRouter,
}

impl ScreenLifecycle {
    pub open spec fn wf(self) -> bool {
        self.router.wf()
    }

    pub fn new() -> (r: ScreenLifecycle)
        ensures
            r.wf(),
            r.app_state == AppState::Loading,
            r.menu_state == MenuState::MainMenu,
            r.router.fields() == Map::<WidgetId, Dimension>::empty(),
            !r.router.spec_dispatched(),
    {
        ScreenLifecycle {
            app_state: AppState::Loading,
            menu_state: MenuState::MainMenu,
            router: SubmissionRouter::new(),
        }
    }

    /// Startup: the application enters the menu.
    pub fn startup(&mut self)
        requires
            old(self).wf(),
        ensures
            final(self).wf(),
            final(self).app_state == AppState::Menu,
            final(self).menu_state == old(self).menu_state,
            final(self).router == old(self).router,
    {
        self.app_state = AppState::Menu;
    }

    /// The start button: from the main menu, opens the options screen.
    /// Anywhere else the press is ignored.
    pub fn press_start(&mut self)
        requires
            old(self).wf(),
        ensures
            final(self).wf(),
            final(self).menu_state == (if old(self).menu_state == MenuState::MainMenu {
                MenuState::Options
            } else {
                old(self).menu_state
            }),
            final(self).app_state == old(self).app_state,
            final(self).router == old(self).router,
    {
        if self.menu_state == MenuState::MainMenu {
            self.menu_state = MenuState::Options;
        }
    }

    /// Building the options screen: the registry is cleared — stale entries
    /// from an earlier visit must not survive — and the three fresh widgets
    /// are registered, one per kind. Refused, with nothing changed, when the
    /// three identities are not distinct.
    pub fn enter_options(
        &mut self,
        width_id: WidgetId,
        length_id: WidgetId,
        height_id: WidgetId,
    ) -> (r: Result<(), RegistryError>)
        requires
            old(self).wf(),
        ensures
            final(self).wf(),
            final(self).app_state == old(self).app_state,
            final(self).menu_state == old(self).menu_state,
            match r {
                Ok(()) => width_id != length_id && width_id != height_id && length_id != height_id
                    && final(self).router.fields() == Map::<WidgetId, Dimension>::empty().insert(
                    width_id,
                    Dimension::Width(0),
                ).insert(length_id, Dimension::Length(0)).insert(height_id, Dimension::Height(0))
                    && !final(self).router.spec_dispatched(),
                Err(RegistryError::DuplicateWidget) => !(width_id != length_id && width_id
                    != height_id && length_id != height_id) && *final(self) == *old(self),
                _ => false,
            },
    {
        if width_id == length_id || width_id == height_id || length_id == height_id {
            return Err(RegistryError::DuplicateWidget);
        }
        self.router.clear();
        let r1 = self.router.register(width_id, DimensionKind::Width);
        proof {
            assert(!Map::<WidgetId, Dimension>::empty().contains_key(width_id));
            if r1 is Err {
                assert(false);
            }
        }
        let ghost m1 = Map::<WidgetId, Dimension>::empty().insert(width_id, Dimension::Width(0));
        let r2 = self.router.register(length_id, DimensionKind::Length);
        proof {
            assert(self.router.fields() == m1.insert(length_id, Dimension::Length(0))) by {
                assert(!m1.contains_key(length_id));
                if crate::registry::spec_has_kind(m1, DimensionKind::Length) {
                    let w = choose|w: WidgetId|
                        m1.contains_key(w) && m1[w].kind() == DimensionKind::Length;
                    assert(w == width_id);
                }
                if r2 is Err {
                    assert(false);
                }
            }
        }
        let ghost m2 = m1.insert(length_id, Dimension::Length(0));
        let r3 = self.router.register(height_id, DimensionKind::Height);
        proof {
            assert(self.router.fields() == m2.insert(height_id, Dimension::Height(0))) by {
                assert(!m2.contains_key(height_id));
                if crate::registry::spec_has_kind(m2, DimensionKind::Height) {
                    let w = choose|w: WidgetId|
                        m2.contains_key(w) && m2[w].kind() == DimensionKind::Height;
                    assert(w == width_id || w == length_id);
                }
                if r3 is Err {
                    assert(false);
                }
            }
        }
        Ok(())
    }

    /// The back button: from the options screen, returns to the main menu
    /// and tears the widgets down, clearing the registry. Anywhere else the
    /// press is ignored.
    pub fn press_back(&mut self)
        requires
            old(self).wf(),
        ensures
            final(self).wf(),
            final(self).app_state == old(self).app_state,
            if old(self).menu_state == MenuState::Options {
                final(self).menu_state == MenuState::MainMenu && final(self).router.fields()
                    == Map::<WidgetId, Dimension>::empty() && !final(self).router.spec_dispatched()
            } else {
                *final(self) == *old(self)
            },
    {
        if self.menu_state == MenuState::Options {
            self.menu_state = MenuState::MainMenu;
            self.router.clear();
        }
    }

    /// One field submission, routed through `SubmissionRouter`. When it
    /// fires, the application moves to `Generating` and the options screen
    /// is torn down — the registry is cleared — while the returned event
    /// carries the grid for the render layer.
    pub fn field_submitted(&mut self, id: WidgetId, text: &str) -> (r: Result<
        Option<GenerateMapEvent>,
        RegistryError,
    >)
        requires
            old(self).wf(),
        ensures
            final(self).wf(),
            final(self).menu_state == old(self).menu_state,
            match r {
                Ok(opt) => old(self).router.fields().contains_key(id) && match opt {
                    Some(ev) => step_fires(
                        old(self).router.fields(),
                        old(self).router.spec_dispatched(),
                        id,
                        text@,
                    ) && ({
                        let dims = crate::registry::spec_extract(
                            step_fields(old(self).router.fields(), id, text@),
                        );
                        ev.0.dimensions == dims && ev.0.nodes@ == crate::grid::grid_tiles(
                            dims.width as int,
                            dims.length as int,
                            dims.height as int,
                        )
                    }) && final(self).app_state == AppState::Generating
                        && final(self).router.fields() == Map::<WidgetId, Dimension>::empty()
                        && !final(self).router.spec_dispatched(),
                    None => !step_fires(
                        old(self).router.fields(),
                        old(self).router.spec_dispatched(),
                        id,
                        text@,
                    ) && final(self).app_state == old(self).app_state && final(self).router.fields()
                        == step_fields(old(self).router.fields(), id, text@)
                        && final(self).router.spec_dispatched() == step_dispatched(
                        old(self).router.fields(),
                        old(self).router.spec_dispatched(),
                        id,
                        text@,
                    ),
                },
                Err(e) => e == RegistryError::UnknownWidget && !old(
                    self,
                ).router.fields().contains_key(id) && *final(self) == *old(self),
            },
    {
        match self.router.handle_submission(id, text) {
            Err(e) => Err(e),
            Ok(None) => Ok(None),
            Ok(Some(ev)) => {
                self.app_state = AppState::Generating;
                self.router.clear();
                Ok(Some(ev))
            },
        }
    }
}

} // verus!
