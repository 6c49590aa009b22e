use std::cell::RefCell;

use lessons::notify::Email;
use lessons::notify::Messenger;
use lessons::notify::QuotaLevel;

struct MockMessenger {
    msgs: RefCell<Vec<String>>,
}

impl MockMessenger {
    fn new() -> Self {
        MockMessenger { msgs: RefCell::new(vec![]) }
    }
}

impl Messenger for MockMessenger {
    fn send(&self, msg: &str) {
        self.msgs.borrow_mut().push(msg.to_string());
    }
}

#[test]
fn test_send_with_90_quota() {
    let mock = MockMessenger::new();
    let mut tracker = Email::new(&mock, 100);
    tracker.set_value(90);
    assert_eq!(mock.msgs.borrow().len(), 1);
}

#[test]
fn ninety_percent_message_is_chosen() {
    let mock = MockMessenger::new();
    let mut tracker = Email::new(&mock, 100);
    tracker.set_value(90);
    tracker.set_value(101);
    tracker.set_value(3);
    let msgs = mock.msgs.borrow();
    assert_eq!(
        *msgs,
        vec![
            "Email quota at 90%".to_string(),
            "Email quota exceeded".to_string(),
            "Email quota is low".to_string(),
        ]
    );
}

#[test]
fn quota_levels_are_exact() {
    assert_eq!(lessons::notify::quota_level(101, 100), QuotaLevel::Exceeded);
    assert_eq!(lessons::notify::quota_level(90, 100), QuotaLevel::AtNinety);
    assert_eq!(lessons::notify::quota_level(89, 100), QuotaLevel::Low);
    assert_eq!(lessons::notify::quota_level(100, 100), QuotaLevel::Low);
    assert_eq!(lessons::notify::quota_level(0, 0), QuotaLevel::Low);
    assert_eq!(lessons::notify::quota_level(1, 0), QuotaLevel::Exceeded);
}
