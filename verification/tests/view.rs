use zshare::counter::Change;
use zshare::counter::Value;
use zshare::Error;
use zshare::KeyExpr;
use zshare::Update;
use zshare::ZSharedValue;
use zshare::ZSharedView;

fn key(text: &str) -> KeyExpr {
    KeyExpr::new(text).unwrap()
}

fn counter(start: u64) -> ZSharedValue<Value> {
    ZSharedValue::with_instance(Value(start), &key("ws"), key("id"), key("counter")).unwrap()
}

fn mirror() -> ZSharedView<Value> {
    ZSharedView::new(&key("ws"), key("id"), key("counter")).unwrap()
}

/// A value for which the order of commands matters.
#[derive(Debug, Default, PartialEq)]
struct Journal(Vec<u8>);

impl Update for Journal {
    type Command = u8;

    fn admits(self, _command: u8) -> bool {
        true
    }

    fn applied(mut self, command: u8) -> Self {
        self.update(command);
        self
    }

    fn can_apply(&self, _command: &u8) -> bool {
        true
    }

    fn update(&mut self, command: u8) {
        self.0.push(command);
    }
}

#[test]
fn view_starts_waiting_with_the_default() {
    let view = mirror();
    assert!(!view.is_ready());
    assert_eq!(*view.read(), Value(0));
    assert_eq!(view.version(), 0);
    assert_eq!(view.dropped(), 0);
    assert_eq!(view.name().as_str(), "counter");
    assert_eq!(view.instance().as_str(), "id");
    assert_eq!(view.address().data_path().as_str(), "ws/counter/id/data");
    assert_eq!(view.address().update_path().as_str(), "ws/counter/id/update");
}

#[test]
fn view_with_state_holds_it_while_waiting() {
    let view = ZSharedView::with_state(Value(9), &key("ws"), key("id"), key("counter")).unwrap();
    assert!(!view.is_ready());
    assert_eq!(*view.read(), Value(9));
}

#[test]
fn view_refuses_an_address_that_does_not_join() {
    let r = ZSharedView::<Value>::new(&key("**"), key("id"), key("**"));
    assert_eq!(r.err(), Some(Error::Address));
    let r = ZSharedView::with_state(Value(1), &key("**"), key("id"), key("**"));
    assert_eq!(r.err(), Some(Error::Address));
}

#[test]
fn view_without_snapshot_times_out() {
    let view = mirror();
    assert_eq!(view.check_ready(), Err(Error::BootstrapTimeout));
}

#[test]
fn view_takes_the_snapshot_as_it_is() {
    let mut view = mirror();
    view.on_snapshot(7, Value(42));
    assert!(view.is_ready());
    assert_eq!(view.check_ready(), Ok(()));
    assert_eq!(*view.read(), Value(42));
    assert_eq!(view.version(), 7);
}

#[test]
fn view_ignores_a_second_snapshot() {
    let mut view = mirror();
    view.on_snapshot(7, Value(42));
    view.on_snapshot(9, Value(1));
    assert_eq!(*view.read(), Value(42));
    assert_eq!(view.version(), 7);
}

#[test]
fn view_applies_commands_in_the_order_of_publication() {
    let mut view = ZSharedView::<Journal>::new(&key("ws"), key("id"), key("log")).unwrap();
    view.on_snapshot(0, Journal(vec![]));
    for (i, c) in [5u8, 3, 9, 3, 1].iter().enumerate() {
        view.on_update(i as u64 + 1, *c);
    }
    assert_eq!(*view.read(), Journal(vec![5, 3, 9, 3, 1]));
    assert_eq!(view.version(), 5);
}

#[test]
fn view_skips_what_the_snapshot_holds_already() {
    let mut view = ZSharedView::<Journal>::new(&key("ws"), key("id"), key("log")).unwrap();
    view.on_update(2, 20);
    view.on_update(3, 30);
    view.on_update(4, 40);
    assert_eq!(*view.read(), Journal(vec![]));
    view.on_snapshot(3, Journal(vec![10, 20, 30]));
    assert!(view.is_ready());
    assert_eq!(*view.read(), Journal(vec![10, 20, 30, 40]));
    assert_eq!(view.version(), 4);
    view.on_update(5, 50);
    assert_eq!(*view.read(), Journal(vec![10, 20, 30, 40, 50]));
}

#[test]
fn view_loses_no_command_that_came_before_the_snapshot() {
    let mut view = ZSharedView::<Journal>::new(&key("ws"), key("id"), key("log")).unwrap();
    view.on_update(1, 1);
    view.on_update(2, 2);
    view.on_snapshot(0, Journal(vec![]));
    assert_eq!(*view.read(), Journal(vec![1, 2]));
    assert_eq!(view.version(), 2);
}

#[test]
fn ready_view_drops_a_repeated_command() {
    let mut view = mirror();
    view.on_snapshot(3, Value(3));
    view.on_update(3, Change::Inc);
    view.on_update(1, Change::Inc);
    assert_eq!(*view.read(), Value(3));
    assert_eq!(view.version(), 3);
    view.on_update(4, Change::Inc);
    assert_eq!(*view.read(), Value(4));
    assert_eq!(view.version(), 4);
}

#[test]
fn malformed_messages_are_counted_and_change_nothing() {
    let mut view = mirror();
    view.on_malformed();
    assert_eq!(view.dropped(), 1);
    assert!(!view.is_ready());
    view.on_snapshot(2, Value(5));
    view.on_malformed();
    view.on_malformed();
    assert_eq!(view.dropped(), 3);
    assert_eq!(*view.read(), Value(5));
    assert_eq!(view.version(), 2);
    assert!(view.is_ready());
}

#[test]
fn view_mirrors_the_owner_after_a_clean_bootstrap() {
    let mut owner = counter(0);
    owner.update(Change::Inc);
    owner.update(Change::Inc);
    owner.update(Change::Inc);
    assert_eq!(*owner.read(), Value(3));

    let mut view = mirror();
    view.on_snapshot(owner.version(), *owner.read());
    assert!(view.is_ready());
    assert_eq!(*view.read(), Value(3));

    let number = owner.version() + 1;
    owner.update(Change::Inc);
    view.on_update(number, Change::Inc);
    assert_eq!(*owner.read(), Value(4));
    assert_eq!(*view.read(), Value(4));
}

#[test]
fn view_follows_the_owner_through_a_race() {
    let mut owner =
        ZSharedValue::with_instance(Journal(vec![]), &key("ws"), key("id"), key("log")).unwrap();
    let mut view = ZSharedView::<Journal>::new(&key("ws"), key("id"), key("log")).unwrap();
    owner.update(1);
    // The view subscribes here: it sees every command from now on.
    view.on_update(owner.version() + 1, 2);
    owner.update(2);
    // The owner answers the snapshot query here.
    let at = owner.version();
    let snapshot = Journal(owner.read().0.clone());
    view.on_update(owner.version() + 1, 3);
    owner.update(3);
    // The snapshot reaches the view after the third command did.
    view.on_snapshot(at, snapshot);
    assert_eq!(*view.read(), *owner.read());
    assert_eq!(view.version(), owner.version());
    view.on_update(owner.version() + 1, 4);
    owner.update(4);
    assert_eq!(*view.read(), *owner.read());
    assert_eq!(*view.read(), Journal(vec![1, 2, 3, 4]));
}

#[test]
fn view_takes_messages_as_far_as_they_could_be_read() {
    let mut view = mirror();
    view.on_message(Some((1, Change::Inc)));
    view.on_message(None);
    assert_eq!(view.dropped(), 1);
    assert_eq!(view.on_query_reply(Some(Some((0, Value(10))))), Ok(true));
    assert!(view.is_ready());
    assert_eq!(*view.read(), Value(11));
    view.on_message(Some((2, Change::Dec)));
    view.on_message(None);
    assert_eq!(*view.read(), Value(10));
    assert_eq!(view.version(), 2);
    assert_eq!(view.dropped(), 2);
}

#[test]
fn view_refuses_a_reply_that_could_not_be_read() {
    let mut view = mirror();
    assert_eq!(view.on_query_reply(Some(None)), Err(Error::Codec));
    assert!(!view.is_ready());
    assert_eq!(*view.read(), Value(0));
    assert_eq!(view.check_ready(), Err(Error::BootstrapTimeout));
    assert_eq!(view.on_query_reply(Some(Some((4, Value(4))))), Ok(true));
    assert_eq!(view.on_query_reply(Some(None)), Err(Error::Codec));
    assert_eq!(*view.read(), Value(4));
    assert!(view.is_ready());
}

#[test]
fn view_waits_on_after_an_error_reply() {
    let mut view = mirror();
    view.on_update(1, Change::Inc);
    assert_eq!(view.on_query_reply(None), Ok(false));
    assert!(!view.is_ready());
    assert_eq!(*view.read(), Value(0));
    assert_eq!(view.dropped(), 0);
    assert_eq!(view.on_query_reply(Some(Some((0, Value(7))))), Ok(true));
    assert_eq!(*view.read(), Value(8));
    assert_eq!(view.on_query_reply(None), Ok(false));
    assert_eq!(*view.read(), Value(8));
    assert!(view.is_ready());
}

#[test]
fn view_drops_a_command_that_its_value_does_not_admit() {
    let mut view = mirror();
    view.on_snapshot(5, Value(0));
    view.on_update(6, Change::Dec);
    assert_eq!(*view.read(), Value(0));
    assert_eq!(view.version(), 5);
    assert_eq!(view.dropped(), 1);
    view.on_update(6, Change::Inc);
    assert_eq!(*view.read(), Value(1));
    assert_eq!(view.version(), 6);
    assert_eq!(view.dropped(), 1);
}

#[test]
fn view_drops_a_kept_command_that_the_snapshot_does_not_admit() {
    let mut view = mirror();
    view.on_update(1, Change::Inc);
    view.on_update(2, Change::Dec);
    view.on_snapshot(0, Value(u64::MAX));
    assert!(view.is_ready());
    assert_eq!(*view.read(), Value(u64::MAX - 1));
    assert_eq!(view.version(), 2);
    assert_eq!(view.dropped(), 1);
}

#[test]
fn numbers_go_round() {
    let mut view = mirror();
    view.on_snapshot(u64::MAX - 1, Value(10));
    view.on_update(u64::MAX, Change::Inc);
    assert_eq!(view.version(), u64::MAX);
    view.on_update(0, Change::Inc);
    assert_eq!(view.version(), 0);
    assert_eq!(*view.read(), Value(12));
    view.on_update(u64::MAX, Change::Inc);
    view.on_update(u64::MAX - 7, Change::Inc);
    view.on_update(0, Change::Inc);
    assert_eq!(*view.read(), Value(12));
    assert_eq!(view.version(), 0);
    view.on_update(1, Change::Inc);
    assert_eq!(*view.read(), Value(13));
    assert_eq!(view.dropped(), 0);
}

#[test]
fn a_command_half_of_all_numbers_ahead_is_no_news() {
    let mut view = mirror();
    view.on_snapshot(0, Value(10));
    view.on_update(1 << 63, Change::Inc);
    assert_eq!(*view.read(), Value(10));
    assert_eq!(view.version(), 0);
    view.on_update((1 << 63) - 1, Change::Inc);
    assert_eq!(*view.read(), Value(11));
    assert_eq!(view.version(), (1 << 63) - 1);
}

#[test]
fn view_catches_up_across_the_largest_number() {
    let commands = [3u8, 1, 4, 1, 5, 9];
    let base = u64::MAX - 2;
    for taken in 0..=commands.len() {
        for arrived in 0..=commands.len() {
            let mut view =
                ZSharedView::<Journal>::new(&key("ws"), key("id"), key("log")).unwrap();
            for (i, c) in commands.iter().enumerate().take(arrived) {
                view.on_update(base.wrapping_add(i as u64 + 1), *c);
            }
            view.on_snapshot(base.wrapping_add(taken as u64), Journal(commands[..taken].to_vec()));
            for (i, c) in commands.iter().enumerate().skip(arrived) {
                view.on_update(base.wrapping_add(i as u64 + 1), *c);
            }
            assert_eq!(*view.read(), Journal(commands.to_vec()));
            assert_eq!(view.version(), base.wrapping_add(commands.len() as u64));
        }
    }
}

#[test]
fn view_catches_up_whenever_the_snapshot_arrives() {
    let commands = [3u8, 1, 4, 1, 5, 9];
    for taken in 0..=commands.len() {
        for arrived in 0..=commands.len() {
            let mut view =
                ZSharedView::<Journal>::new(&key("ws"), key("id"), key("log")).unwrap();
            for (i, c) in commands.iter().enumerate().take(arrived) {
                view.on_update(i as u64 + 1, *c);
            }
            view.on_snapshot(taken as u64, Journal(commands[..taken].to_vec()));
            for (i, c) in commands.iter().enumerate().skip(arrived) {
                view.on_update(i as u64 + 1, *c);
            }
            assert_eq!(*view.read(), Journal(commands.to_vec()));
            assert_eq!(view.version(), commands.len() as u64);
        }
    }
}
