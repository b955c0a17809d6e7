//! What the loop and the handlers of the compositor's messages share.

use std::collections::HashMap;

use vstd::prelude::*;

use crate::application::Event;
use crate::layer_surface::{IcedLayerSurface, LayerSettings, SctkLayerSurface};
use crate::sctk_event::{SctkEvent, SurfaceCompositorUpdate, SurfaceUserRequest};
use crate::window::{Id, ObjectId};

verus! {

broadcast use vstd::std_specs::hash::group_hash_axioms;

/// A window that exists.
#[derive(Debug, Clone, Copy)]
pub struct SctkWindow {
    /// The Wayland surface behind it.
    pub surface: ObjectId,
}

/// The state that the handlers of the compositor's messages fill and the loop empties.
///
/// Requests and updates are kept under the number of the surface that they are about.
pub struct SctkState<T, E> {
    /// The surface that the cursor is drawn on.
    pub cursor_surface: Option<ObjectId>,
    /// The pool of shared memory that surfaces are drawn in.
    pub multipool: Option<ObjectId>,
    /// The outputs that exist.
    pub outputs: Vec<ObjectId>,
    /// The seats that exist.
    pub seats: Vec<ObjectId>,
    /// The windows that exist.
    pub windows: Vec<SctkWindow>,
    /// The layer surfaces that exist.
    pub layer_surfaces: Vec<SctkLayerSurface>,
    /// The surfaces of the popups that exist.
    pub popups: Vec<ObjectId>,
    /// The surface that has the keyboard focus.
    pub kbd_focus: Option<ObjectId>,
    /// What was asked for each window.
    pub window_user_requests: HashMap<u64, SurfaceUserRequest>,
    /// What the compositor changed about each window.
    pub window_compositor_updates: HashMap<u64, SurfaceCompositorUpdate>,
    /// What was asked for each layer surface.
    pub layer_surface_user_requests: HashMap<u64, SurfaceUserRequest>,
    /// What the compositor changed about each layer surface.
    pub layer_surface_compositor_updates: HashMap<u64, SurfaceCompositorUpdate>,
    /// What was asked for each popup.
    pub popup_user_requests: HashMap<u64, SurfaceUserRequest>,
    /// What the compositor changed about each popup.
    pub popup_compositor_updates: HashMap<u64, SurfaceCompositorUpdate>,
    /// The events that the compositor's messages led to, oldest first.
    pub sctk_events: Vec<SctkEvent<E>>,
    /// The events that the application sent, oldest first.
    pub pending_user_events: Vec<Event<T, E>>,
}

/// The contents of an [`SctkState`].
#[verifier::ext_equal]
pub struct StateModel<T, E> {
    pub cursor_surface: Option<ObjectId>,
    pub multipool: Option<ObjectId>,
    pub outputs: Seq<ObjectId>,
    pub seats: Seq<ObjectId>,
    pub windows: Seq<SctkWindow>,
    pub layer_surfaces: Seq<SctkLayerSurface>,
    pub popups: Seq<ObjectId>,
    pub kbd_focus: Option<ObjectId>,
    pub window_user_requests: Map<u64, SurfaceUserRequest>,
    pub window_compositor_updates: Map<u64, SurfaceCompositorUpdate>,
    pub layer_surface_user_requests: Map<u64, SurfaceUserRequest>,
    pub layer_surface_compositor_updates: Map<u64, SurfaceCompositorUpdate>,
    pub popup_user_requests: Map<u64, SurfaceUserRequest>,
    pub popup_compositor_updates: Map<u64, SurfaceCompositorUpdate>,
    pub sctk_events: Seq<SctkEvent<E>>,
    pub pending_user_events: Seq<Event<T, E>>,
}

impl<T, E> View for SctkState<T, E> {
    type V = StateModel<T, E>;

    open spec fn view(&self) -> StateModel<T, E> {
        StateModel {
            cursor_surface: self.cursor_surface,
            multipool: self.multipool,
            outputs: self.outputs@,
            seats: self.seats@,
            windows: self.windows@,
            layer_surfaces: self.layer_surfaces@,
            popups: self.popups@,
            kbd_focus: self.kbd_focus,
            window_user_requests: self.window_user_requests@,
            window_compositor_updates: self.window_compositor_updates@,
            layer_surface_user_requests: self.layer_surface_user_requests@,
            layer_surface_compositor_updates: self.layer_surface_compositor_updates@,
            popup_user_requests: self.popup_user_requests@,
            popup_compositor_updates: self.popup_compositor_updates@,
            sctk_events: self.sctk_events@,
            pending_user_events: self.pending_user_events@,
        }
    }
}

/// What comes out of the channel that the application sends its events through.
#[derive(Debug)]
pub enum ChannelEvent<M> {
    /// A message was sent.
    Msg(M),
    /// Every sender is gone.
    Closed,
}

impl<T, E> StateModel<T, E> {
    /// Nothing exists and nothing waits.
    pub open spec fn empty() -> Self {
        StateModel {
            cursor_surface: None,
            multipool: None,
            outputs: seq![],
            seats: seq![],
            windows: seq![],
            layer_surfaces: seq![],
            popups: seq![],
            kbd_focus: None,
            window_user_requests: map![],
            window_compositor_updates: map![],
            layer_surface_user_requests: map![],
            layer_surface_compositor_updates: map![],
            popup_user_requests: map![],
            popup_compositor_updates: map![],
            sctk_events: seq![],
            pending_user_events: seq![],
        }
    }
}

/// Whether one of the windows has this surface.
pub open spec fn has_window(windows: Seq<SctkWindow>, surface: ObjectId) -> bool {
    exists|i: int| 0 <= i < windows.len() && (#[trigger] windows[i]).surface == surface
}

/// Whether one of the windows has this surface.
pub fn window_exists(windows: &Vec<SctkWindow>, surface: ObjectId) -> (found: bool)
    ensures
        found == has_window(windows@, surface),
{
    let mut i: usize = 0;
    while i < windows.len()
        invariant
            i <= windows@.len(),
            forall|j: int| 0 <= j < i ==> (#[trigger] windows@[j]).surface != surface,
        decreases windows@.len() - i,
    {
        if windows[i].surface == surface {
            return true;
        }
        i = i + 1;
    }
    false
}

/// Whether the item at `at` is the first that `wanted` accepts.
pub open spec fn is_first<A>(items: Seq<A>, wanted: spec_fn(A) -> bool, at: int) -> bool {
    &&& 0 <= at < items.len()
    &&& wanted(items[at])
    &&& forall|i: int| 0 <= i < at ==> !wanted(#[trigger] items[i])
}

/// The place of the first item that `wanted` accepts.
pub open spec fn first_where<A>(items: Seq<A>, wanted: spec_fn(A) -> bool) -> Option<int> {
    if exists|at: int| is_first(items, wanted, at) {
        Some(choose|at: int| is_first(items, wanted, at))
    } else {
        None
    }
}

/// The first item is found where it is.
pub proof fn lemma_first_found<A>(items: Seq<A>, wanted: spec_fn(A) -> bool, at: int)
    requires
        is_first(items, wanted, at),
    ensures
        first_where(items, wanted) == Some(at),
{
    let chosen = choose|i: int| is_first(items, wanted, i);
    assert(is_first(items, wanted, chosen));
    if chosen < at {
        assert(!wanted(items[chosen]));
    } else if at < chosen {
        assert(!wanted(items[at]));
    }
}

/// Where an item is accepted there is a first one.
pub proof fn lemma_first_exists<A>(items: Seq<A>, wanted: spec_fn(A) -> bool, i: int)
    requires
        0 <= i < items.len(),
        wanted(items[i]),
    ensures
        first_where(items, wanted) is Some,
    decreases i,
{
    if !is_first(items, wanted, i) {
        let j = choose|j: int| 0 <= j < i && wanted(#[trigger] items[j]);
        lemma_first_exists(items, wanted, j);
    }
}

/// Accepts the layer surface that the application knows under `id`.
pub open spec fn with_id(id: Id) -> spec_fn(SctkLayerSurface) -> bool {
    |l: SctkLayerSurface| l.id == id
}

/// Accepts the layer surface that `surface` is behind.
pub open spec fn with_surface(surface: ObjectId) -> spec_fn(SctkLayerSurface) -> bool {
    |l: SctkLayerSurface| l.surface == surface
}

/// The place of the layer surface that the application knows under `id`.
pub fn position_of_id(layer_surfaces: &Vec<SctkLayerSurface>, id: Id) -> (at: Option<usize>)
    ensures
        match at {
            Some(i) => {
                &&& i < layer_surfaces@.len()
                &&& first_where(layer_surfaces@, with_id(id)) == Some(i as int)
            },
            None => first_where(layer_surfaces@, with_id(id)) is None,
        },
{
    let mut i: usize = 0;
    while i < layer_surfaces.len()
        invariant
            i <= layer_surfaces@.len(),
            forall|j: int| 0 <= j < i ==> !with_id(id)(#[trigger] layer_surfaces@[j]),
        decreases layer_surfaces@.len() - i,
    {
        if layer_surfaces[i].id == id {
            proof {
                lemma_first_found(layer_surfaces@, with_id(id), i as int);
            }
            return Some(i);
        }
        i = i + 1;
    }
    None
}

/// Whether one of the layer surfaces has `surface` behind it.
pub fn has_layer_surface(layer_surfaces: &Vec<SctkLayerSurface>, surface: ObjectId) -> (found: bool)
    ensures
        found == (first_where(layer_surfaces@, with_surface(surface)) is Some),
{
    let mut i: usize = 0;
    while i < layer_surfaces.len()
        invariant
            i <= layer_surfaces@.len(),
            forall|j: int| 0 <= j < i ==> !with_surface(surface)(#[trigger] layer_surfaces@[j]),
        decreases layer_surfaces@.len() - i,
    {
        if layer_surfaces[i].surface == surface {
            proof {
                lemma_first_found(layer_surfaces@, with_surface(surface), i as int);
            }
            return true;
        }
        i = i + 1;
    }
    false
}

impl<T, E> StateModel<T, E> {
    /// The state once a layer surface exists.
    pub open spec fn with_layer_surface(
        self,
        id: Id,
        settings: LayerSettings,
        surface: ObjectId,
    ) -> Self {
        StateModel {
            layer_surfaces: self.layer_surfaces.push(SctkLayerSurface { id, surface, settings }),
            ..self
        }
    }

    /// The state once the settings of one layer surface have changed.
    pub open spec fn with_settings(self, at: int, settings: LayerSettings) -> Self {
        StateModel {
            layer_surfaces: self.layer_surfaces.update(
                at,
                SctkLayerSurface { settings, ..self.layer_surfaces[at] },
            ),
            ..self
        }
    }

    /// The state once one layer surface is gone.
    pub open spec fn without_layer_surface(self, at: int) -> Self {
        StateModel { layer_surfaces: self.layer_surfaces.remove(at), ..self }
    }

    /// The state once a message has come out of the application's channel.
    pub open spec fn after_channel(self, event: ChannelEvent<Event<T, E>>) -> Self {
        match event {
            ChannelEvent::Msg(message) => StateModel {
                pending_user_events: self.pending_user_events.push(message),
                ..self
            },
            ChannelEvent::Closed => self,
        }
    }
}

impl<T, E> SctkState<T, E> {
    /// Nothing exists and nothing waits.
    pub fn new() -> (state: Self)
        ensures
            state@ == StateModel::<T, E>::empty(),
    {
        SctkState {
            cursor_surface: None,
            multipool: None,
            outputs: Vec::new(),
            seats: Vec::new(),
            windows: Vec::new(),
            layer_surfaces: Vec::new(),
            popups: Vec::new(),
            kbd_focus: None,
            window_user_requests: HashMap::new(),
            window_compositor_updates: HashMap::new(),
            layer_surface_user_requests: HashMap::new(),
            layer_surface_compositor_updates: HashMap::new(),
            popup_user_requests: HashMap::new(),
            popup_compositor_updates: HashMap::new(),
            sctk_events: Vec::new(),
            pending_user_events: Vec::new(),
        }
    }

    /// Queues the event that the application sent; a closed channel changes nothing.
    pub fn handle_channel_event(&mut self, event: ChannelEvent<Event<T, E>>)
        ensures
            final(self)@ == old(self)@.after_channel(event),
    {
        match event {
            ChannelEvent::Msg(message) => {
                self.pending_user_events.push(message);
            },
            ChannelEvent::Closed => {},
        }
    }

    /// Takes note of a layer surface that the compositor has created.
    pub(crate) fn add_layer_surface(&mut self, id: Id, settings: LayerSettings, surface: ObjectId)
        ensures
            final(self)@ == old(self)@.with_layer_surface(id, settings, surface),
    {
        self.layer_surfaces.push(SctkLayerSurface { id, surface, settings });
    }

    /// Takes note of the layer surface that the compositor created from a description, and
    /// gives the identifiers under which the application and the compositor know it.
    pub fn get_layer_surface(&mut self, layer_surface: IcedLayerSurface, surface: ObjectId) -> (ids: (
        Id,
        ObjectId,
    ))
        ensures
            final(self)@ == old(self)@.with_layer_surface(
                layer_surface.id,
                layer_surface.settings,
                surface,
            ),
            ids == (layer_surface.id, surface),
    {
        self.add_layer_surface(layer_surface.id, layer_surface.settings, surface);
        (layer_surface.id, surface)
    }
}

} // verus!
