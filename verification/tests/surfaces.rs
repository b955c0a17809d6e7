use sctk_event_loop::application::Event;
use sctk_event_loop::event_loop::command::{Command, Reply};
use sctk_event_loop::event_loop::control_flow::ControlFlow;
use sctk_event_loop::event_loop::state::{has_layer_surface, position_of_id, SctkState};
use sctk_event_loop::event_loop::SctkEventLoop;
use sctk_event_loop::layer_surface::{
    Action, Anchor, IcedLayerSurface, IcedMargin, KeyboardInteractivity, Layer, LayerSettings,
};
use sctk_event_loop::sctk_event::{IcedSctkEvent, LayerSurfaceEventVariant, SctkEvent};
use sctk_event_loop::window::{Id, ObjectId};

type Loop = SctkEventLoop<u8, u8>;

fn settings() -> LayerSettings {
    LayerSettings {
        requested_size: (Some(100), None),
        anchor: Anchor { bits: 3 },
        exclusive_zone: -1,
        margin: IcedMargin { top: 1, right: 2, bottom: 3, left: 4 },
        keyboard_interactivity: KeyboardInteractivity::OnDemand,
        layer: Layer::Bottom,
    }
}

fn description(id: u64) -> IcedLayerSurface {
    IcedLayerSurface { id: Id(id), namespace: String::from("dock"), settings: settings() }
}

/// A loop with surfaces 10, 20 and 10 again, whose objects are 1, 2 and 3, about to take up the
/// events of the application.
fn with_surfaces() -> Loop {
    let (sender, _channel) = calloop::channel::channel();
    let mut l: Loop = SctkEventLoop::new(sender);
    assert_eq!(l.get_layer_surface(description(10), ObjectId(1)), (Id(10), ObjectId(1)));
    assert_eq!(l.get_layer_surface(description(20), ObjectId(2)), (Id(20), ObjectId(2)));
    assert_eq!(l.get_layer_surface(description(10), ObjectId(3)), (Id(10), ObjectId(3)));
    l.run_return();
    l.resume(Reply::Returned(ControlFlow::Poll));
    l.resume(Reply::Done);
    l.resume(Reply::Pending(Ok(0)));
    l.resume(Reply::Dispatched(Ok(())));
    l
}

fn act(l: &mut Loop, action: Action) -> Command<u8, u8> {
    l.state_mut().pending_user_events.push(Event::LayerSurface(action));
    l.resume(Reply::Returned(ControlFlow::Poll))
}

fn is_over(command: Command<u8, u8>) -> bool {
    matches!(command, Command::Callback(IcedSctkEvent::MainEventsCleared))
}

#[test]
fn a_size_is_noted_and_asked_for() {
    let mut l = with_surfaces();
    match act(&mut l, Action::Size { id: Id(20), width: Some(640), height: None }) {
        Command::SetSize { surface, width, height } => {
            assert_eq!((surface, width, height), (ObjectId(2), 640, 0));
        }
        other => panic!("{:?}", other),
    }
    let surfaces = &l.state().layer_surfaces;
    assert_eq!(surfaces[1].settings.requested_size, (Some(640), None));
    assert_eq!(surfaces[1].settings.exclusive_zone, -1);
    assert_eq!(surfaces[0].settings.requested_size, (Some(100), None));
    assert!(is_over(l.resume(Reply::Done)));
}

#[test]
fn the_first_surface_of_an_identifier_is_meant() {
    let mut l = with_surfaces();
    match act(&mut l, Action::Size { id: Id(10), width: None, height: Some(7) }) {
        Command::SetSize { surface, width, height } => {
            assert_eq!((surface, width, height), (ObjectId(1), 0, 7));
        }
        other => panic!("{:?}", other),
    }
    assert_eq!(l.state().layer_surfaces[0].settings.requested_size, (None, Some(7)));
    assert_eq!(l.state().layer_surfaces[2].settings.requested_size, (Some(100), None));
}

#[test]
fn an_anchor_is_noted_and_asked_for() {
    let mut l = with_surfaces();
    match act(&mut l, Action::Anchor { id: Id(20), anchor: Anchor { bits: 12 } }) {
        Command::SetAnchor { surface, anchor } => {
            assert_eq!((surface, anchor.bits), (ObjectId(2), 12));
        }
        other => panic!("{:?}", other),
    }
    assert_eq!(l.state().layer_surfaces[1].settings.anchor, Anchor { bits: 12 });
    assert!(is_over(l.resume(Reply::Done)));
}

#[test]
fn an_exclusive_zone_is_noted_and_asked_for() {
    let mut l = with_surfaces();
    match act(&mut l, Action::ExclusiveZone { id: Id(20), exclusive_zone: 48 }) {
        Command::SetExclusiveZone { surface, exclusive_zone } => {
            assert_eq!((surface, exclusive_zone), (ObjectId(2), 48));
        }
        other => panic!("{:?}", other),
    }
    assert_eq!(l.state().layer_surfaces[1].settings.exclusive_zone, 48);
    assert!(is_over(l.resume(Reply::Done)));
}

#[test]
fn a_margin_is_noted_and_asked_for() {
    let mut l = with_surfaces();
    let margin = IcedMargin { top: 5, right: 6, bottom: 7, left: 8 };
    match act(&mut l, Action::Margin { id: Id(20), margin }) {
        Command::SetMargin { surface, top, right, bottom, left } => {
            assert_eq!((surface, top, right, bottom, left), (ObjectId(2), 5, 6, 7, 8));
        }
        other => panic!("{:?}", other),
    }
    assert_eq!(l.state().layer_surfaces[1].settings.margin, margin);
    assert!(is_over(l.resume(Reply::Done)));
}

#[test]
fn keyboard_interactivity_is_noted_and_asked_for() {
    let mut l = with_surfaces();
    let wanted = KeyboardInteractivity::Exclusive;
    match act(&mut l, Action::KeyboardInteractivity { id: Id(20), keyboard_interactivity: wanted }) {
        Command::SetKeyboardInteractivity { surface, keyboard_interactivity } => {
            assert_eq!((surface, keyboard_interactivity), (ObjectId(2), wanted));
        }
        other => panic!("{:?}", other),
    }
    assert_eq!(l.state().layer_surfaces[1].settings.keyboard_interactivity, wanted);
    assert!(is_over(l.resume(Reply::Done)));
}

#[test]
fn a_layer_is_noted_and_asked_for() {
    let mut l = with_surfaces();
    match act(&mut l, Action::Layer { id: Id(20), layer: Layer::Overlay }) {
        Command::SetLayer { surface, layer } => {
            assert_eq!((surface, layer), (ObjectId(2), Layer::Overlay));
        }
        other => panic!("{:?}", other),
    }
    assert_eq!(l.state().layer_surfaces[1].settings.layer, Layer::Overlay);
    assert!(is_over(l.resume(Reply::Done)));
}

#[test]
fn nothing_is_asked_of_an_unknown_surface() {
    let id = Id(99);
    let margin = IcedMargin { top: 0, right: 0, bottom: 0, left: 0 };
    let actions = vec![
        Action::Size { id, width: Some(1), height: Some(1) },
        Action::Destroy(id),
        Action::Anchor { id, anchor: Anchor { bits: 0 } },
        Action::ExclusiveZone { id, exclusive_zone: 0 },
        Action::Margin { id, margin },
        Action::KeyboardInteractivity {
            id,
            keyboard_interactivity: KeyboardInteractivity::Never,
        },
        Action::Layer { id, layer: Layer::Top },
    ];
    let mut l = with_surfaces();
    for action in actions {
        l.state_mut().pending_user_events.push(Event::LayerSurface(action));
    }
    assert!(is_over(l.resume(Reply::Returned(ControlFlow::Poll))));
    assert_eq!(l.state().layer_surfaces.len(), 3);
}

#[test]
fn a_surface_is_created_before_the_application_hears_of_it() {
    let mut l = with_surfaces();
    match act(&mut l, Action::LayerSurface { builder: description(30) }) {
        Command::CreateLayerSurface(builder) => {
            assert_eq!(builder.id, Id(30));
            assert_eq!(builder.namespace, "dock");
        }
        other => panic!("{:?}", other),
    }
    assert_eq!(l.state().layer_surfaces.len(), 3);
    match l.resume(Reply::Surface(ObjectId(4))) {
        Command::Callback(IcedSctkEvent::SctkEvent(SctkEvent::LayerSurfaceEvent {
            variant: LayerSurfaceEventVariant::Created(object, id),
            id: surface,
        })) => assert_eq!((object, id, surface), (ObjectId(4), Id(30), ObjectId(4))),
        other => panic!("{:?}", other),
    }
    let created = l.state().layer_surfaces[3];
    assert_eq!((created.id, created.surface), (Id(30), ObjectId(4)));
    assert_eq!(created.settings.requested_size, (Some(100), None));
    assert!(is_over(l.resume(Reply::Returned(ControlFlow::Poll))));
}

#[test]
fn a_surface_is_given_up_after_the_application_heard_of_it() {
    let mut l = with_surfaces();
    match act(&mut l, Action::Destroy(Id(10))) {
        Command::Callback(IcedSctkEvent::SctkEvent(SctkEvent::LayerSurfaceEvent {
            variant: LayerSurfaceEventVariant::Done,
            id,
        })) => assert_eq!(id, ObjectId(1)),
        other => panic!("{:?}", other),
    }
    let left: Vec<u64> = l.state().layer_surfaces.iter().map(|s| s.surface.0).collect();
    assert_eq!(left, vec![2, 3]);
    match l.resume(Reply::Returned(ControlFlow::ExitWithCode(6))) {
        Command::DropLayerSurface(surface) => assert_eq!(surface, ObjectId(1)),
        other => panic!("{:?}", other),
    }
    assert_eq!(l.control_flow(), ControlFlow::ExitWithCode(6));
    assert!(is_over(l.resume(Reply::Done)));
}

#[test]
fn destroying_undoes_creating() {
    let mut state: SctkState<u8, u8> = SctkState::new();
    assert_eq!(position_of_id(&state.layer_surfaces, Id(5)), None);
    assert_eq!(state.get_layer_surface(description(5), ObjectId(50)), (Id(5), ObjectId(50)));
    assert_eq!(position_of_id(&state.layer_surfaces, Id(5)), Some(0));
    assert!(has_layer_surface(&state.layer_surfaces, ObjectId(50)));
    assert!(!has_layer_surface(&state.layer_surfaces, ObjectId(5)));
    state.layer_surfaces.remove(0);
    assert!(!has_layer_surface(&state.layer_surfaces, ObjectId(50)));
}
