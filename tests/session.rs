use orderbook::session::{connection_url, Action, Event, FeedSession, Phase, ENDPOINT};

#[test]
fn url_carries_the_token() {
    assert_eq!(connection_url("wss://host/", "t0k"), "wss://host/?token=t0k");
}

#[test]
fn session_lifecycle() {
    let mut s = FeedSession::new("tok".to_string());
    assert_eq!(s.phase(), Phase::Idle);
    match s.step(Event::Start) {
        Action::Connect(url) => assert_eq!(url, format!("{}?token=tok", ENDPOINT)),
        _ => panic!("expected a connect action"),
    }
    assert_eq!(s.phase(), Phase::Connecting);
    assert!(matches!(s.step(Event::Connected), Action::SendSubscribe));
    assert_eq!(s.phase(), Phase::Subscribed);
    assert!(matches!(s.step(Event::SubscribeSent), Action::StartKeepalive));
    assert_eq!(s.phase(), Phase::Streaming);
    let msg = "{\"type\":\"message\",\"data\":{\"change\":\"10.5,buy,3\"}}".to_string();
    assert!(matches!(s.step(Event::Message(msg)), Action::Continue));
    assert_eq!(s.book().top_levels(5).0, vec![(1_050_000_000, 3)]);
    assert!(matches!(s.step(Event::ReadError), Action::ReportError));
    assert_eq!(s.phase(), Phase::Streaming);
    assert!(matches!(s.step(Event::StreamEnded), Action::Finish));
    assert_eq!(s.phase(), Phase::Closed);
    let late = "{\"data\":{\"change\":\"11,buy,3\"}}".to_string();
    assert!(matches!(s.step(Event::Message(late)), Action::Ignore));
    assert_eq!(s.book().top_levels(5).0, vec![(1_050_000_000, 3)]);
}

#[test]
fn session_failures() {
    let mut s = FeedSession::new("tok".to_string());
    s.step(Event::Start);
    assert!(matches!(s.step(Event::ConnectFailed), Action::Fail));
    assert_eq!(s.phase(), Phase::Failed);
    assert!(matches!(s.step(Event::Start), Action::Ignore));

    let mut s = FeedSession::new("tok".to_string());
    s.step(Event::Start);
    s.step(Event::Connected);
    assert!(matches!(s.step(Event::SubscribeFailed), Action::Fail));
    assert_eq!(s.phase(), Phase::Failed);

    let mut s = FeedSession::new("tok".to_string());
    s.step(Event::Start);
    s.step(Event::Connected);
    s.step(Event::SubscribeSent);
    assert!(matches!(s.step(Event::TransportFailed), Action::Fail));
    assert_eq!(s.phase(), Phase::Failed);
}

#[test]
fn messages_before_streaming_are_ignored() {
    let mut s = FeedSession::new("tok".to_string());
    let msg = "{\"data\":{\"change\":\"1,buy,3\"}}".to_string();
    assert!(matches!(s.step(Event::Message(msg)), Action::Ignore));
    assert_eq!(s.phase(), Phase::Idle);
    assert_eq!(s.book().top_levels(5), (vec![], vec![]));
}
