use console_bridge::supervisor::{Action, Happening, Supervisor};

#[test]
fn backoff_doubles_then_caps_then_resets() {
    let mut s = Supervisor::new(1000, 5000, 30000);
    assert_eq!(s.decide(Happening::Started), Action::Connect);
    assert_eq!(s.decide(Happening::ConnectFailed), Action::Wait { millis: 1000 });
    assert_eq!(s.decide(Happening::Waited), Action::Connect);
    assert_eq!(s.decide(Happening::ConnectFailed), Action::Wait { millis: 2000 });
    assert_eq!(s.decide(Happening::Waited), Action::Connect);
    assert_eq!(s.decide(Happening::Connected), Action::Serve);
    assert_eq!(s.decide(Happening::EpochEnded { ran_for: 10 }), Action::Wait { millis: 4000 });
    assert_eq!(s.decide(Happening::Waited), Action::Connect);
    assert_eq!(s.decide(Happening::ConnectFailed), Action::Wait { millis: 5000 });
    assert_eq!(s.decide(Happening::Waited), Action::Connect);
    assert_eq!(s.decide(Happening::ConnectFailed), Action::Wait { millis: 5000 });
    assert_eq!(s.decide(Happening::Waited), Action::Connect);
    assert_eq!(s.decide(Happening::Connected), Action::Serve);
    assert_eq!(
        s.decide(Happening::EpochEnded { ran_for: 30000 }),
        Action::Wait { millis: 1000 }
    );
    assert_eq!(s.decide(Happening::Waited), Action::Connect);
    assert_eq!(s.decide(Happening::ConnectFailed), Action::Wait { millis: 2000 });
}

#[test]
fn reports_out_of_turn_change_nothing() {
    let mut s = Supervisor::new(1000, 5000, 30000);
    assert_eq!(s.decide(Happening::Waited), Action::Stay);
    assert_eq!(s.decide(Happening::Started), Action::Connect);
    assert_eq!(s.decide(Happening::Connected), Action::Serve);
    assert_eq!(s.decide(Happening::Waited), Action::Stay);
    assert_eq!(s.decide(Happening::Started), Action::Stay);
    assert_eq!(s.decide(Happening::ConnectFailed), Action::Stay);
    assert_eq!(s.decide(Happening::EpochEnded { ran_for: 1 }), Action::Wait { millis: 1000 });
    assert_eq!(s.decide(Happening::EpochEnded { ran_for: 1 }), Action::Stay);
    assert_eq!(s.decide(Happening::Connected), Action::Stay);
    assert_eq!(s.decide(Happening::Waited), Action::Connect);
}

#[test]
fn backoff_with_huge_cap_does_not_overflow() {
    let mut s = Supervisor::new(u64::MAX / 2 + 1, u64::MAX, 1);
    assert_eq!(s.decide(Happening::Started), Action::Connect);
    assert_eq!(s.decide(Happening::ConnectFailed), Action::Wait { millis: u64::MAX / 2 + 1 });
    assert_eq!(s.decide(Happening::Waited), Action::Connect);
    assert_eq!(s.decide(Happening::ConnectFailed), Action::Wait { millis: u64::MAX });
    assert_eq!(s.decide(Happening::Waited), Action::Connect);
    assert_eq!(s.decide(Happening::ConnectFailed), Action::Wait { millis: u64::MAX });
}
