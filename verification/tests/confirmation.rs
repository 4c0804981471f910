use philo_tui::api::confirmation::{
    ConfirmationChannel, ConfirmationId, ConfirmationRequest, ConfirmationResponse,
};

fn request(title: &str) -> ConfirmationRequest {
    ConfirmationRequest { title: title.to_owned(), body: format!("{title} body") }
}

#[test]
fn requests_resolve_fifo_with_the_given_answer() {
    let mut channel = ConfirmationChannel::new();
    let first = channel.request(request("first"));
    let second = channel.request(request("second"));
    assert_eq!(channel.answer(first), None);

    let (front_id, front) = channel.front().expect("first is queued");
    assert_eq!(front.title, "first");
    channel.respond(front_id, ConfirmationResponse::Allow);
    assert_eq!(channel.answer(first), Some(ConfirmationResponse::Allow));

    let (second_id, front) = channel.front().expect("second surfaces next");
    assert_eq!(front.title, "second");
    channel.respond(second_id, ConfirmationResponse::Deny);
    assert_eq!(channel.answer(second), Some(ConfirmationResponse::Deny));
    assert!(channel.is_idle());
}

#[test]
fn deny_all_resolves_every_pending_request() {
    let mut channel = ConfirmationChannel::new();
    let first = channel.request(request("first"));
    let second = channel.request(request("second"));

    channel.deny_all();
    assert_eq!(channel.answer(first), Some(ConfirmationResponse::Deny));
    assert_eq!(channel.answer(second), Some(ConfirmationResponse::Deny));
    assert!(channel.is_idle());
}

#[test]
fn responding_to_an_unknown_id_is_a_no_op() {
    let mut channel = ConfirmationChannel::new();
    let pending = channel.request(request("only"));
    let (id, _) = channel.front().expect("queued");
    channel.respond(id, ConfirmationResponse::Allow);
    // Same id again: gone from the queue, nothing happens.
    channel.respond(id, ConfirmationResponse::Deny);
    assert_eq!(channel.answer(pending), Some(ConfirmationResponse::Allow));
}

#[test]
fn answers_may_come_out_of_order() {
    let mut channel = ConfirmationChannel::new();
    let first = channel.request(request("first"));
    let second = channel.request(request("second"));
    assert_ne!(first, second);
    channel.respond(second, ConfirmationResponse::Allow);
    assert_eq!(channel.answer(second), Some(ConfirmationResponse::Allow));
    assert_eq!(channel.front().expect("still waiting").0, first);
    channel.respond(ConfirmationId(77), ConfirmationResponse::Allow);
    assert_eq!(channel.answer(ConfirmationId(77)), None);
}

#[test]
fn deny_all_keeps_answers_given_before() {
    let mut channel = ConfirmationChannel::new();
    let first = channel.request(request("first"));
    let second = channel.request(request("second"));
    channel.respond(first, ConfirmationResponse::Allow);
    channel.deny_all();
    assert_eq!(channel.answer(first), Some(ConfirmationResponse::Allow));
    assert_eq!(channel.answer(second), Some(ConfirmationResponse::Deny));
}
