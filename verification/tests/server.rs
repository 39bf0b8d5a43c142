use server::server::{received, Action, Phase, BUFFER_CAPACITY};

fn run(mut phase: Phase, outcomes: &[bool]) -> Vec<Phase> {
    let mut seen = vec![phase];
    for ok in outcomes {
        phase = phase.advance(*ok);
        seen.push(phase);
    }
    seen
}

#[test]
fn served_connection_goes_through_every_phase() {
    assert_eq!(
        run(Phase::Closed, &[true, true, true, true, true, true]),
        vec![
            Phase::Closed,
            Phase::Accepted,
            Phase::Read,
            Phase::Parsed,
            Phase::Dispatched,
            Phase::ResponseSent,
            Phase::Closed,
        ]
    );
}

#[test]
fn unparseable_buffer_is_still_answered() {
    assert_eq!(
        run(Phase::Read, &[false, true, true, true]),
        vec![Phase::Read, Phase::ParseFailed, Phase::Dispatched, Phase::ResponseSent, Phase::Closed]
    );
    assert_eq!(Phase::ParseFailed.action(), Action::HandleBadRequest);
}

#[test]
fn failed_accept_keeps_listening() {
    assert_eq!(Phase::Closed.advance(false), Phase::Closed);
    assert_eq!(Phase::Closed.action(), Action::Accept);
}

#[test]
fn failed_read_abandons_the_connection() {
    assert_eq!(Phase::Accepted.advance(false), Phase::Closed);
}

#[test]
fn failed_send_still_closes() {
    assert_eq!(
        run(Phase::Dispatched, &[false, true]),
        vec![Phase::Dispatched, Phase::SendFailed, Phase::Closed]
    );
    assert_eq!(Phase::SendFailed.action(), Action::Close);
}

#[test]
fn each_phase_has_its_action() {
    assert_eq!(Phase::Accepted.action(), Action::Read);
    assert_eq!(Phase::Read.action(), Action::Parse);
    assert_eq!(Phase::Parsed.action(), Action::HandleRequest);
    assert_eq!(Phase::Dispatched.action(), Action::Send);
    assert_eq!(Phase::ResponseSent.action(), Action::Close);
}

#[test]
fn only_what_was_read_is_parsed() {
    let mut buffer = [0u8; BUFFER_CAPACITY];
    let line = b"GET / HTTP/1.1\r\n";
    buffer[..line.len()].copy_from_slice(line);
    assert_eq!(received(&buffer, line.len()), &line[..]);
    assert_eq!(received(&buffer, 0), &b""[..]);
    assert_eq!(received(&buffer, BUFFER_CAPACITY).len(), 1024);
}
