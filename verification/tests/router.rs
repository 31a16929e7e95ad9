use anisearch::navigation::NavigationCommand;
use anisearch::paginate::{Effect, Page, Paginator};
use anisearch::router::{Control, InteractionEvent, Router, RouterAction};

const AUTHOR: u64 = 1001;

fn ids(token: u64) -> Vec<String> {
    let mut p: Paginator<String, String> =
        Paginator::builder().pages(vec![Page::new("a".to_string())]).build();
    p.create_custom_ids(token);
    p.custom_ids().clone()
}

fn router() -> Router {
    Router::new(42, AUTHOR, ids(42))
}

fn click(user: u64, id: &str) -> InteractionEvent {
    InteractionEvent::Component { user, custom_id: id.to_string() }
}

fn submit(user: u64, id: &str, page: &str) -> InteractionEvent {
    InteractionEvent::ModalSubmit { user, custom_id: id.to_string(), page: page.to_string() }
}

#[test]
fn controls_become_commands() {
    let mut r = router();
    assert_eq!(r.handle(&click(AUTHOR, "42_first")), RouterAction::Forward(NavigationCommand::First));
    assert_eq!(
        r.handle(&click(AUTHOR, "42_prev")),
        RouterAction::Forward(NavigationCommand::Previous)
    );
    assert_eq!(r.handle(&click(AUTHOR, "42_next")), RouterAction::Forward(NavigationCommand::Next));
    assert_eq!(r.handle(&click(AUTHOR, "42_last")), RouterAction::Forward(NavigationCommand::Last));
    assert!(!r.is_modal_active());
    assert!(!r.is_terminated());
}

#[test]
fn events_of_others_are_ignored() {
    let mut r = router();
    assert_eq!(r.handle(&click(AUTHOR + 1, "42_next")), RouterAction::Ignore);
    assert_eq!(r.handle(&click(AUTHOR, "43_next")), RouterAction::Ignore);
    assert_eq!(r.handle(&click(AUTHOR, "4_next")), RouterAction::Ignore);
    assert_eq!(r.handle(&click(AUTHOR, "42_unknown")), RouterAction::Ignore);
    assert_eq!(r.handle(&click(AUTHOR, "42_modal")), RouterAction::Ignore);
    assert_eq!(r.handle(&click(AUTHOR + 1, "42_page")), RouterAction::Ignore);
    assert!(!r.is_modal_active());
}

#[test]
fn accepts_checks_user_and_namespace() {
    let r = router();
    assert!(r.accepts(AUTHOR, "42_next"));
    assert!(r.accepts(AUTHOR, "42_"));
    assert!(r.accepts(AUTHOR, "42_unknown"));
    assert!(!r.accepts(AUTHOR, "42"));
    assert!(!r.accepts(AUTHOR, "420_next"));
    assert!(!r.accepts(AUTHOR, "42-next"));
    assert!(!r.accepts(AUTHOR, "4"));
    assert!(!r.accepts(AUTHOR, ""));
    assert!(!r.accepts(AUTHOR, "_42"));
    assert!(!r.accepts(AUTHOR + 1, "42_next"));
    assert_eq!(r.modal_id(), "42_modal");
}

#[test]
fn control_of_names_the_control() {
    let r = router();
    assert_eq!(r.control_of(&"42_first".to_string()), Some(Control::First));
    assert_eq!(r.control_of(&"42_prev".to_string()), Some(Control::Previous));
    assert_eq!(r.control_of(&"42_next".to_string()), Some(Control::Next));
    assert_eq!(r.control_of(&"42_last".to_string()), Some(Control::Last));
    assert_eq!(r.control_of(&"42_page".to_string()), Some(Control::GotoTrigger));
    assert_eq!(r.control_of(&"42_modal".to_string()), None);
    assert_eq!(r.control_of(&"".to_string()), None);
}

#[test]
fn two_triggers_in_a_row_spawn_one_modal() {
    let mut r = router();
    assert_eq!(r.handle(&click(AUTHOR, "42_page")), RouterAction::OpenModal { spawn: true });
    assert!(r.is_modal_active());
    assert_eq!(r.handle(&click(AUTHOR, "42_page")), RouterAction::OpenModal { spawn: false });
    assert_eq!(r.handle(&click(AUTHOR, "42_page")), RouterAction::OpenModal { spawn: false });
    assert!(r.is_modal_active());
}

#[test]
fn at_most_one_modal_over_a_long_run() {
    let mut r = router();
    let mut live: i32 = 0;
    let events = [
        click(AUTHOR, "42_page"),
        click(AUTHOR, "42_page"),
        click(AUTHOR, "42_next"),
        InteractionEvent::ModalClosed,
        InteractionEvent::ModalClosed,
        click(AUTHOR, "42_page"),
        submit(AUTHOR, "42_modal", "x"),
        click(AUTHOR, "42_page"),
        click(AUTHOR, "42_page"),
        submit(AUTHOR, "42_modal", "2"),
        click(AUTHOR, "42_page"),
        InteractionEvent::Timeout,
        click(AUTHOR, "42_page"),
    ];
    for event in events.iter() {
        let before = r.is_modal_active();
        let action = r.handle(event);
        if action == (RouterAction::OpenModal { spawn: true }) {
            live += 1;
        }
        if before && !r.is_modal_active() {
            live -= 1;
        }
        assert!(live == 0 || live == 1);
        assert_eq!(live == 1, r.is_modal_active());
    }
    assert!(r.is_terminated());
}

#[test]
fn submission_becomes_goto() {
    let mut r = router();
    r.handle(&click(AUTHOR, "42_page"));
    assert_eq!(
        r.handle(&submit(AUTHOR, "42_modal", "3")),
        RouterAction::Forward(NavigationCommand::GoTo(3))
    );
    assert!(!r.is_modal_active());
    assert_eq!(r.handle(&click(AUTHOR, "42_page")), RouterAction::OpenModal { spawn: true });
}

#[test]
fn bad_submission_is_acknowledged() {
    for text in ["", "abc", "0", "-1", "1e3", " 4"] {
        let mut r = router();
        r.handle(&click(AUTHOR, "42_page"));
        assert_eq!(r.handle(&submit(AUTHOR, "42_modal", text)), RouterAction::Acknowledge);
        assert!(!r.is_modal_active());
    }
}

#[test]
fn stray_submissions_are_ignored() {
    let mut r = router();
    assert_eq!(r.handle(&submit(AUTHOR, "42_modal", "3")), RouterAction::Ignore);
    r.handle(&click(AUTHOR, "42_page"));
    assert_eq!(r.handle(&submit(AUTHOR + 1, "42_modal", "3")), RouterAction::Ignore);
    assert_eq!(r.handle(&submit(AUTHOR, "43_modal", "3")), RouterAction::Ignore);
    assert!(r.is_modal_active());
}

#[test]
fn modal_end_frees_the_slot() {
    let mut r = router();
    r.handle(&click(AUTHOR, "42_page"));
    assert_eq!(r.handle(&InteractionEvent::ModalClosed), RouterAction::Ignore);
    assert!(!r.is_modal_active());
    assert_eq!(r.handle(&click(AUTHOR, "42_page")), RouterAction::OpenModal { spawn: true });
}

#[test]
fn timeout_terminates_and_aborts_modal() {
    let mut r = router();
    assert_eq!(r.handle(&InteractionEvent::Timeout), RouterAction::Terminate { abort_modal: false });
    assert!(r.is_terminated());

    let mut r = router();
    r.handle(&click(AUTHOR, "42_page"));
    assert_eq!(r.handle(&InteractionEvent::Timeout), RouterAction::Terminate { abort_modal: true });
    assert!(r.is_terminated());
    assert!(!r.is_modal_active());
}

#[test]
fn failure_terminates_like_timeout() {
    let mut r = router();
    r.handle(&click(AUTHOR, "42_page"));
    assert_eq!(r.handle(&InteractionEvent::Failed), RouterAction::Terminate { abort_modal: true });
    assert!(r.is_terminated());
}

#[test]
fn terminated_router_ignores_everything() {
    let mut r = router();
    r.handle(&InteractionEvent::Timeout);
    assert_eq!(r.handle(&click(AUTHOR, "42_next")), RouterAction::Ignore);
    assert_eq!(r.handle(&click(AUTHOR, "42_page")), RouterAction::Ignore);
    assert_eq!(r.handle(&submit(AUTHOR, "42_modal", "1")), RouterAction::Ignore);
    assert_eq!(r.handle(&InteractionEvent::ModalClosed), RouterAction::Ignore);
    assert_eq!(r.handle(&InteractionEvent::Timeout), RouterAction::Ignore);
    assert_eq!(r.handle(&InteractionEvent::Failed), RouterAction::Ignore);
    assert!(r.is_terminated());
    assert!(!r.is_modal_active());
}

#[test]
fn router_timeout_ends_the_session_with_one_final_view() {
    let pages = vec![Page::new("a".to_string()), Page::new("b".to_string())];
    let mut session: Paginator<String, String> = Paginator::builder().pages(pages).build();
    session.create_custom_ids(42);
    let mut r = Router::new(42, AUTHOR, session.custom_ids().clone());
    let mut renders = 0;
    match r.handle(&InteractionEvent::Timeout) {
        RouterAction::Terminate { abort_modal } => {
            assert!(!abort_modal);
            assert_eq!(session.apply(NavigationCommand::Cancel), Effect::Finish);
            let view = session.create_reply();
            renders += 1;
            assert!(view.components.navigation.unwrap().iter().all(|b| b.disabled));
            assert_eq!(view.embed, "a");
        }
        other => panic!("the router did not terminate: {other:?}"),
    }
    assert_eq!(renders, 1);
    assert_eq!(r.handle(&InteractionEvent::Timeout), RouterAction::Ignore);
}

#[test]
fn commands_reach_the_session_in_order() {
    let pages = (0..3).map(|i| Page::new(format!("{i}"))).collect();
    let mut session: Paginator<String, String> = Paginator::builder().pages(pages).build();
    session.create_custom_ids(42);
    let mut r = Router::new(42, AUTHOR, session.custom_ids().clone());
    let mut shown = Vec::new();
    let events = [
        click(AUTHOR, "42_next"),
        click(AUTHOR + 1, "42_next"),
        click(AUTHOR, "42_next"),
        click(AUTHOR, "42_page"),
        submit(AUTHOR, "42_modal", "5"),
        click(AUTHOR, "42_prev"),
    ];
    for event in events.iter() {
        if let RouterAction::Forward(command) = r.handle(event) {
            session.apply(command);
            shown.push(session.current_index());
        }
    }
    assert_eq!(shown, vec![1, 2, 2, 1]);
}

#[test]
fn sessions_with_like_tokens_are_kept_apart() {
    let mut one = Router::new(1, AUTHOR, ids(1));
    let mut twelve = Router::new(12, AUTHOR, ids(12));
    assert!(!one.accepts(AUTHOR, "12_first"));
    assert!(!one.accepts(AUTHOR, "12_page"));
    assert!(one.accepts(AUTHOR, "1_first"));
    assert!(twelve.accepts(AUTHOR, "12_first"));
    assert!(!twelve.accepts(AUTHOR, "1_first"));
    assert!(!twelve.accepts(AUTHOR, "123_first"));
    assert_eq!(one.handle(&click(AUTHOR, "12_first")), RouterAction::Ignore);
    assert_eq!(one.handle(&click(AUTHOR, "12_page")), RouterAction::Ignore);
    assert!(!one.is_modal_active());
    assert_eq!(twelve.handle(&click(AUTHOR, "1_next")), RouterAction::Ignore);
    assert_eq!(
        twelve.handle(&click(AUTHOR, "12_first")),
        RouterAction::Forward(NavigationCommand::First)
    );
}
