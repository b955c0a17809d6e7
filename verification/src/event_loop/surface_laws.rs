//! What actions on layer surfaces do to the surfaces that exist.

use vstd::prelude::*;

use crate::event_loop::command::Command;
use crate::event_loop::model::{act_on_surface, Phase};
use crate::event_loop::state::{
    first_where, is_first, lemma_first_exists, lemma_first_found, with_id, StateModel,
};
use crate::layer_surface::{Action, LayerSettings};
use crate::window::{Id, ObjectId};

verus! {

impl Action {
    /// The surface that the action is about; none if it creates one.
    pub open spec fn target(self) -> Option<Id> {
        match self {
            Action::LayerSurface { .. } => None,
            Action::Size { id, .. } => Some(id),
            Action::Destroy(id) => Some(id),
            Action::Anchor { id, .. } => Some(id),
            Action::ExclusiveZone { id, .. } => Some(id),
            Action::Margin { id, .. } => Some(id),
            Action::KeyboardInteractivity { id, .. } => Some(id),
            Action::Layer { id, .. } => Some(id),
        }
    }
}

impl<T, E> Command<T, E> {
    /// The surface that the command makes a request of.
    pub open spec fn addressee(self) -> Option<ObjectId> {
        match self {
            Command::SetSize { surface, .. } => Some(surface),
            Command::SetAnchor { surface, .. } => Some(surface),
            Command::SetExclusiveZone { surface, .. } => Some(surface),
            Command::SetMargin { surface, .. } => Some(surface),
            Command::SetKeyboardInteractivity { surface, .. } => Some(surface),
            Command::SetLayer { surface, .. } => Some(surface),
            _ => None,
        }
    }
}

/// A surface is found exactly if one has the identifier.
pub proof fn law_surface_is_found<T, E>(state: StateModel<T, E>, id: Id)
    ensures
        first_where(state.layer_surfaces, with_id(id)) is Some <==> exists|i: int|
            0 <= i < state.layer_surfaces.len() && (#[trigger] state.layer_surfaces[i]).id == id,
        first_where(state.layer_surfaces, with_id(id)) matches Some(at) ==> is_first(
            state.layer_surfaces,
            with_id(id),
            at,
        ),
{
    if exists|i: int|
        0 <= i < state.layer_surfaces.len() && (#[trigger] state.layer_surfaces[i]).id == id {
        let i = choose|i: int|
            0 <= i < state.layer_surfaces.len() && (#[trigger] state.layer_surfaces[i]).id == id;
        lemma_first_exists(state.layer_surfaces, with_id(id), i);
    }
}

/// An action leads to something exactly if it creates a surface or its surface exists. It
/// leaves every other surface as it is, and everything but the layer surfaces; a request goes
/// to the surface that the application named, and that one keeps its identifiers.
pub proof fn law_action_touches_one_surface<T, E>(state: StateModel<T, E>, action: Action)
    ensures
        act_on_surface(state, action) is None <==> (action.target() matches Some(id) && first_where(
            state.layer_surfaces,
            with_id(id),
        ) is None),
        act_on_surface(state, action) matches Some((after, phase, command)) ==> {
            &&& after == (StateModel { layer_surfaces: after.layer_surfaces, ..state })
            &&& action.target() is None ==> after == state
            &&& action.target() matches Some(id) ==> {
                let at = first_where(state.layer_surfaces, with_id(id))->0;
                &&& 0 <= at < state.layer_surfaces.len()
                &&& action is Destroy ==> after.layer_surfaces == state.layer_surfaces.remove(at)
                &&& !(action is Destroy) ==> {
                    &&& command.addressee() == Some(state.layer_surfaces[at].surface)
                    &&& after.layer_surfaces.len() == state.layer_surfaces.len()
                    &&& after.layer_surfaces[at].id == id
                    &&& after.layer_surfaces[at].surface == state.layer_surfaces[at].surface
                    &&& forall|i: int|
                        0 <= i < state.layer_surfaces.len() && i != at ==> (
                        #[trigger] after.layer_surfaces[i]) == state.layer_surfaces[i]
                }
            }
        },
{
    if let Some(id) = action.target() {
        law_surface_is_found(state, id);
    }
}

/// A surface that has just been created under a new identifier is the one that later actions
/// on that identifier find, and destroying it leaves the surfaces that were there before.
pub proof fn law_destroy_undoes_create<T, E>(
    state: StateModel<T, E>,
    id: Id,
    settings: LayerSettings,
    surface: ObjectId,
)
    requires
        first_where(state.layer_surfaces, with_id(id)) is None,
    ensures
        first_where(
            state.with_layer_surface(id, settings, surface).layer_surfaces,
            with_id(id),
        ) == Some(state.layer_surfaces.len() as int),
        act_on_surface(
            state.with_layer_surface(id, settings, surface),
            Action::Destroy(id),
        ) matches Some((after, phase, _)) && after == state && phase == (Phase::SurfaceDone {
            surface,
        }),
{
    let created = state.with_layer_surface(id, settings, surface);
    law_surface_is_found(state, id);
    assert forall|i: int| 0 <= i < state.layer_surfaces.len() implies !with_id(id)(
        #[trigger] created.layer_surfaces[i],
    ) by {
        assert(state.layer_surfaces[i].id != id);
    }
    lemma_first_found(created.layer_surfaces, with_id(id), state.layer_surfaces.len() as int);
    assert(created.layer_surfaces.remove(state.layer_surfaces.len() as int)
        =~= state.layer_surfaces);
}

} // verus!
