use std::collections::{HashMap, VecDeque};

use sctk_event_loop::application::Event;
use sctk_event_loop::event_loop::command::{Command, Reply};
use sctk_event_loop::event_loop::control_flow::ControlFlow;
use sctk_event_loop::event_loop::queues::{
    collect_requested, forget_requested, order_events, split_draws, take_requests,
};
use sctk_event_loop::event_loop::state::{window_exists, SctkState, SctkWindow};
use sctk_event_loop::event_loop::SctkEventLoop;
use sctk_event_loop::layer_surface::{
    Anchor, IcedLayerSurface, IcedMargin, KeyboardInteractivity, Layer, LayerSettings,
};
use sctk_event_loop::sctk_event::{IcedSctkEvent, SctkEvent, SurfaceUserRequest};
use sctk_event_loop::window::{Id, ObjectId};

type Loop = SctkEventLoop<u8, u8>;

const NOTHING: SurfaceUserRequest =
    SurfaceUserRequest { redraw_requested: false, refresh_frame: false };
const REDRAW: SurfaceUserRequest =
    SurfaceUserRequest { redraw_requested: true, refresh_frame: false };
const REFRESH: SurfaceUserRequest =
    SurfaceUserRequest { redraw_requested: false, refresh_frame: true };

fn description(id: u64) -> IcedLayerSurface {
    IcedLayerSurface {
        id: Id(id),
        namespace: String::new(),
        settings: LayerSettings {
            requested_size: (None, None),
            anchor: Anchor { bits: 0 },
            exclusive_zone: 0,
            margin: IcedMargin { top: 0, right: 0, bottom: 0, left: 0 },
            keyboard_interactivity: KeyboardInteractivity::Never,
            layer: Layer::Background,
        },
    }
}

/// A loop that has just told the application why it woke up.
fn awake() -> Loop {
    let (sender, _channel) = calloop::channel::channel();
    let mut l: Loop = SctkEventLoop::new(sender);
    l.run_return();
    l.resume(Reply::Returned(ControlFlow::Poll));
    go_on(&mut l);
    l
}

fn go_on(l: &mut Loop) {
    l.resume(Reply::Done);
    l.resume(Reply::Pending(Ok(0)));
    l.resume(Reply::Dispatched(Ok(())));
}

/// The redraws and commits of the turn.
fn drawing(l: &mut Loop) -> Vec<String> {
    let mut seen = Vec::new();
    let mut command = l.resume(Reply::Returned(ControlFlow::Poll));
    loop {
        command = match command {
            Command::Flush => return seen,
            Command::Callback(IcedSctkEvent::RedrawRequested(id)) => {
                seen.push(format!("redraw {}", id.0));
                l.resume(Reply::Returned(ControlFlow::Poll))
            }
            Command::Callback(_) => l.resume(Reply::Returned(ControlFlow::Poll)),
            Command::Commit(id) => {
                seen.push(format!("commit {}", id.0));
                l.resume(Reply::Done)
            }
            Command::RefreshFrame(id) => {
                seen.push(format!("refresh {}", id.0));
                l.resume(Reply::Done)
            }
            other => panic!("{:?}", other),
        };
    }
}

#[test]
fn a_drawing_leads_to_a_redraw() {
    let mut l = awake();
    l.state_mut().sctk_events.push(SctkEvent::Draw(ObjectId(4)));
    l.state_mut().sctk_events.push(SctkEvent::Draw(ObjectId(2)));
    assert_eq!(drawing(&mut l), vec!["redraw 4", "redraw 2"]);
}

#[test]
fn what_is_drawn_on_a_layer_surface_is_committed() {
    let mut l = awake();
    l.get_layer_surface(description(1), ObjectId(2));
    l.state_mut().sctk_events.push(SctkEvent::Draw(ObjectId(4)));
    l.state_mut().sctk_events.push(SctkEvent::Draw(ObjectId(2)));
    l.state_mut().sctk_events.push(SctkEvent::Draw(ObjectId(5)));
    assert_eq!(drawing(&mut l), vec!["redraw 4", "redraw 2", "commit 2", "redraw 5"]);
}

#[test]
fn a_request_takes_the_place_of_a_drawing() {
    let mut l = awake();
    l.get_layer_surface(description(1), ObjectId(2));
    l.state_mut().sctk_events.push(SctkEvent::Draw(ObjectId(2)));
    l.state_mut().window_user_requests.insert(2, REDRAW);
    assert_eq!(drawing(&mut l), vec!["redraw 2"]);
}

#[test]
fn a_request_takes_the_place_of_one_drawing_only() {
    let mut l = awake();
    l.state_mut().sctk_events.push(SctkEvent::Draw(ObjectId(2)));
    l.state_mut().sctk_events.push(SctkEvent::Draw(ObjectId(3)));
    l.state_mut().sctk_events.push(SctkEvent::Draw(ObjectId(2)));
    l.state_mut().window_user_requests.insert(2, REDRAW);
    assert_eq!(drawing(&mut l), vec!["redraw 2", "redraw 3", "redraw 2"]);
}

#[test]
fn an_entry_without_a_wish_takes_the_place_of_a_drawing() {
    let mut l = awake();
    l.state_mut().sctk_events.push(SctkEvent::Draw(ObjectId(2)));
    l.state_mut().window_user_requests.insert(2, NOTHING);
    assert_eq!(drawing(&mut l), Vec::<String>::new());
}

#[test]
fn refreshing_a_frame_forces_a_redraw() {
    let mut l = awake();
    l.state_mut().windows.push(SctkWindow { surface: ObjectId(8) });
    l.state_mut().window_user_requests.insert(8, REFRESH);
    assert!(window_exists(&l.state().windows, ObjectId(8)));
    assert_eq!(drawing(&mut l), vec!["refresh 8", "redraw 8"]);
}

#[test]
fn requests_are_served_once() {
    let mut l = awake();
    l.state_mut().window_user_requests.insert(3, REDRAW);
    assert_eq!(drawing(&mut l), vec!["redraw 3"]);
    assert_eq!(l.state().window_user_requests.get(&3), Some(&NOTHING));
    go_on(&mut l);
    assert_eq!(drawing(&mut l), Vec::<String>::new());
}

#[test]
fn every_request_is_served() {
    let mut l = awake();
    for key in 0..20u64 {
        l.state_mut().window_user_requests.insert(key, REDRAW);
    }
    let mut seen = drawing(&mut l);
    seen.sort();
    let mut wanted: Vec<String> = (0..20u64).map(|key| format!("redraw {}", key)).collect();
    wanted.sort();
    assert_eq!(seen, wanted);
}

#[test]
fn windows_are_found_by_their_surface() {
    let mut state: SctkState<u8, u8> = SctkState::new();
    assert!(!window_exists(&state.windows, ObjectId(9)));
    state.windows.push(SctkWindow { surface: ObjectId(8) });
    assert!(!window_exists(&state.windows, ObjectId(9)));
    state.windows.push(SctkWindow { surface: ObjectId(9) });
    assert!(window_exists(&state.windows, ObjectId(9)));
    assert!(!window_exists(&state.windows, ObjectId(10)));
}

#[test]
fn requests_are_taken_and_settled() {
    let mut requests = HashMap::new();
    requests.insert(1u64, REDRAW);
    requests.insert(2u64, REFRESH);
    requests.insert(3u64, NOTHING);
    let mut order = take_requests(&mut requests);
    order.sort_by_key(|entry| entry.0 .0);
    assert_eq!(order, vec![(ObjectId(1), REDRAW), (ObjectId(2), REFRESH), (ObjectId(3), NOTHING)]);
    assert_eq!(requests.len(), 3);
    assert!(requests.values().all(|request| *request == SurfaceUserRequest::default()));
    assert_eq!(
        collect_requested(&order),
        VecDeque::from(vec![(ObjectId(1), REDRAW), (ObjectId(2), REFRESH)])
    );

    let mut must_redraw =
        VecDeque::from(vec![ObjectId(9), ObjectId(3), ObjectId(1), ObjectId(3)]);
    forget_requested(&mut must_redraw, &order);
    assert_eq!(must_redraw, VecDeque::from(vec![ObjectId(9), ObjectId(3)]));
}

#[test]
fn drawings_are_set_apart() {
    let (others, drawn) = split_draws(vec![
        SctkEvent::Draw(ObjectId(1)),
        SctkEvent::Other(10u8),
        SctkEvent::Draw(ObjectId(2)),
        SctkEvent::Other(20u8),
    ]);
    assert_eq!(format!("{:?}", others), "[Other(10), Other(20)]");
    assert_eq!(drawn, VecDeque::from(vec![ObjectId(1), ObjectId(2)]));
}

#[test]
fn events_that_go_back_come_first() {
    let queue: VecDeque<Event<u8, u8>> = order_events(vec![
        Event::SetCursor(sctk_event_loop::application::Interaction::Text),
        Event::SctkEvent(IcedSctkEvent::UserEvent(1)),
        Event::SctkEvent(IcedSctkEvent::UserEvent(2)),
    ]);
    assert_eq!(
        format!("{:?}", queue),
        "[SctkEvent(UserEvent(1)), SctkEvent(UserEvent(2)), SetCursor(Text)]"
    );
}
