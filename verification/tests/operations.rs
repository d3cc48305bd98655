//! The operations of the loop, one by one.
use std::any::TypeId;
use std::cell::RefCell;

use mio::Ready;

use eveboros::background::Channel;
use eveboros::error::Error;
use eveboros::event_loop::{Loop, Outcome};
use eveboros::handle::{BackgroundId, Handle, IoId, TimeoutId, CHANNEL_TOK, SIGNAL_TOK};
use eveboros::loop_io::Source;
use eveboros::loop_message::PoolChange;
use eveboros::loop_run::run_until_empty;
use eveboros::message::{DeliveryMode, RemoteMessage};
use eveboros::signal::{ChildExit, ChildStatus, Signal, SignalRead, SignalStep};
use eveboros::task::{Callback, TaskParam};

/// The context collects what happened to the events.
type L = Loop<Vec<String>, &'static str, u64, &'static str>;

fn new() -> L {
    Loop::new(Vec::new(), 0)
}

fn settle(context: &mut Vec<String>, outcome: Outcome<&'static str, &'static str>) -> Result<(), Error> {
    match outcome {
        Outcome::Kept => Ok(()),
        Outcome::Killed { event, mut ios } => {
            ios.sort();
            context.push(format!("killed {} {:?}", event, ios));
            Ok(())
        }
        Outcome::Failed { event, mut ios, error } => {
            ios.sort();
            context.push(format!("failed {} {:?}", event, ios));
            Err(error)
        }
    }
}

fn insert(l: &mut L, event: &'static str) -> Handle {
    assert!(l.handle_unused());
    l.insert_exact(event, |_ev, _l, _h, what| {
        assert!(matches!(what, Callback::Init));
        Ok(true)
    }, settle)
    .unwrap()
}

fn kill(l: &mut L, handle: Handle) {
    l.event_call(handle, Callback::Init, |_ev, _l, _h, _what| Ok(false), settle).unwrap();
}

/// Run a step and describe it
fn step(l: &mut L) -> Option<String> {
    let seen = RefCell::new(String::new());
    let r = l.run_one(|ev, _l, h, what| {
        *seen.borrow_mut() = match what {
            Callback::Init => unreachable!(),
            Callback::Run(TaskParam::Io(id, ready)) => format!("{} io {} {}", ev, id.token(), ready.is_readable()),
            Callback::Run(TaskParam::Timeout(id)) => format!("{} timeout {}", ev, id.0),
            Callback::Run(TaskParam::Signal(signal)) => format!("{} signal {}", ev, signal.number()),
            Callback::Run(TaskParam::Message(m)) => format!("{} message {} {:?}", ev, m.data, m.mode),
            Callback::Run(TaskParam::Child(pid, exit)) => format!("{} child {} {:?}", ev, pid, exit),
            Callback::Run(TaskParam::Idle) => format!("{} idle", ev),
        };
        assert!(h.id < 100);
        Ok(true)
    }, settle);
    match r {
        None => None,
        Some(Ok(())) => Some(seen.into_inner()),
        Some(Err(e)) => Some(format!("{:?}", e)),
    }
}

/// Gather with nothing coming from the outside
fn gather(l: &mut L, now: i128) -> Option<u128> {
    let wait = l.tasks_gather(now).unwrap();
    l.now_set(now);
    l.tasks_gather_finish();
    wait
}

fn sig(number: i32) -> Signal {
    Signal::from_c_int(number).unwrap()
}

#[test]
fn handles() {
    let mut l = new();
    assert_eq!(0, l.event_count());
    let a = insert(&mut l, "a");
    let b = insert(&mut l, "b");
    assert_eq!(Handle { id: 0, generation: 0 }, a);
    assert_eq!(Handle { id: 1, generation: 1 }, b);
    assert_eq!(2, l.event_count());
    assert!(l.event_alive(a) && l.event_alive(b));
    kill(&mut l, a);
    assert!(!l.event_alive(a) && l.event_alive(b));
    // The slot gets reused, but the old handle isn't of the new event
    let c = insert(&mut l, "c");
    assert_eq!(Handle { id: 0, generation: 2 }, c);
    assert!(!l.event_alive(a) && l.event_alive(c));
    assert!(!l.event_alive(Handle { id: 7, generation: 0 }));
    assert_eq!(vec!["killed a []"], *l.context());
}

#[test]
fn generation_wraps() {
    let mut l = new();
    let stale = insert(&mut l, "stale");
    l.timeout_at(stale, 100);
    kill(&mut l, stale);
    l.generation = u64::MAX;
    let last = insert(&mut l, "last");
    assert_eq!(Handle { id: 0, generation: u64::MAX }, last);
    assert_eq!(0, l.generation);
    assert!(l.wrapped);
    // The slot of the first event is taken
    assert!(l.handle_unused());
    kill(&mut l, last);
    // But now the old timeout would get to the wrong event
    assert!(!l.handle_unused());
    let dead = l.timeouts.pop().unwrap();
    assert_eq!(stale, dead.recipient);
    assert!(l.handle_unused());
}

#[test]
fn responses() {
    let mut l = new();
    let a = insert(&mut l, "a");
    // Keep it, but change it
    l.event_call(a, Callback::Init, |ev, _l, _h, _w| {
        *ev = "b";
        Ok(true)
    }, settle)
    .unwrap();
    assert!(l.context().is_empty());
    l.io_register_any(a, "x", Ok(())).unwrap();
    l.io_register_any(a, "y", Ok(())).unwrap();
    let r = l.event_call(a, Callback::Init, |ev, _l, _h, _w| {
        assert_eq!("b", *ev);
        Err(Error::DefaultImpl)
    }, settle);
    assert!(matches!(r, Err(Error::DefaultImpl)));
    assert!(!l.event_alive(a));
    assert_eq!(vec!["failed b [(0, \"x\"), (1, \"y\")]"], *l.context());
    let r = l.event_call(a, Callback::Init, |_ev, _l, _h, _w| unreachable!(), settle);
    assert!(matches!(r, Err(Error::Missing)));
}

#[test]
fn insertion_errors() {
    let mut l = new();
    let r = l.insert_exact("a", |_ev, _l, _h, _w| Err(Error::DefaultImpl), settle);
    assert!(matches!(r, Err(Error::DefaultImpl)));
    assert_eq!(0, l.event_count());
    // The error may be swallowed
    let r = l.insert_exact("b", |_ev, _l, _h, _w| Err(Error::DefaultImpl), |_c, _o| Ok(()));
    let b = r.unwrap();
    assert!(!l.event_alive(b));
}

#[test]
fn busy() {
    let mut l = new();
    let a = insert(&mut l, "a");
    assert!(!l.event_busy(a));
    l.expect_message(a, TypeId::of::<u64>());
    l.event_call(a, Callback::Init, |_ev, l: &mut L, h, _w| {
        assert!(l.event_busy(h));
        assert!(l.event_alive(h));
        let r = l.event_call(h, Callback::Init, |_ev, _l, _h, _w| unreachable!(), settle);
        assert!(matches!(r, Err(Error::Busy)));
        let r = l.post_impl_sender(None, h, 1, TypeId::of::<u64>(), |_ev, _l, _h, _w| unreachable!(), settle);
        assert!(matches!(r, Err(Error::Busy)));
        // The task is there, but the event can't be called
        l.send_impl_sender(None, h, 2, TypeId::of::<u64>()).unwrap();
        assert_eq!(Some("Busy".to_owned()), step(l));
        assert!(l.scheduled.is_empty());
        // Waiting for itself doesn't work, but only the first time is checked
        assert!(matches!(l.run_until_complete(h, true), Err(Error::DeadLock)));
        assert!(matches!(l.run_until_complete(h, false), Ok(true)));
        // Other events can come and go in the meantime
        let other = insert(l, "other");
        kill(l, other);
        assert!(l.event_busy(h));
        Ok(true)
    }, settle)
    .unwrap();
    assert!(!l.event_busy(a));
    assert!(matches!(l.run_until_complete(a, true), Ok(true)));
    kill(&mut l, a);
    assert!(matches!(l.run_until_complete(a, true), Ok(false)));
}

#[test]
fn empty_loop() {
    let mut l = new();
    assert_eq!(None, step(&mut l));
    assert!(matches!(l.tasks_gather(0), Err(Error::Empty)));
    assert!(matches!(run_until_empty(Err(Error::Empty)), Ok(())));
    assert!(matches!(run_until_empty(Ok(())), Ok(())));
    assert!(matches!(run_until_empty(Err(Error::Busy)), Err(Error::Busy)));
}

#[test]
fn wakeups() {
    let mut l = new();
    let a = insert(&mut l, "a");
    let b = insert(&mut l, "b");
    // Nothing to wait for
    assert_eq!(None, gather(&mut l, 10));
    assert_eq!(10, *l.now());
    assert_eq!(TimeoutId(0), l.timeout_at(a, 50));
    assert_eq!(TimeoutId(1), l.timeout_after(b, 15));
    assert_eq!(Some(15), gather(&mut l, 10));
    assert_eq!(Some(1), gather(&mut l, 24));
    // The one of a dead event doesn't wake us up
    kill(&mut l, b);
    assert_eq!(Some(26), gather(&mut l, 24));
    // Already late
    l.timeout_at(a, -7);
    assert_eq!(Some(0), gather(&mut l, 24));
    assert_eq!(Some("a timeout 2".to_owned()), step(&mut l));
    // Someone wants to do something
    l.idle(a);
    assert_eq!(Some(0), gather(&mut l, 30));
    assert_eq!(Some("a idle".to_owned()), step(&mut l));
    assert_eq!(Some(5), gather(&mut l, 45));
    assert_eq!(None, step(&mut l));
    assert_eq!(Some(0), gather(&mut l, 51));
    assert_eq!(Some("a timeout 0".to_owned()), step(&mut l));
    assert_eq!(None, step(&mut l));
}

#[test]
fn far_instants() {
    let mut l: L = Loop::new(Vec::new(), i128::MIN);
    let a = insert(&mut l, "a");
    l.timeout_after(a, u128::MAX);
    l.timeout_at(a, i128::MAX);
    assert_eq!(Some(u128::MAX), gather(&mut l, i128::MIN));
    assert_eq!(Some(i128::MAX as u128), gather(&mut l, 0));
}

#[test]
fn timeouts_in_order() {
    let mut l = new();
    let a = insert(&mut l, "a");
    let b = insert(&mut l, "b");
    for (h, when) in vec![(a, 30), (b, 10), (a, 20), (b, 40), (a, 50)] {
        l.timeout_at(h, when);
    }
    assert_eq!(5, l.timeouts_inserted);
    gather(&mut l, 40);
    assert_eq!(1, l.timeouts.len());
    assert!(l.timeouts_scheduled());
    let seen: Vec<String> = (0..4).map(|_| step(&mut l).unwrap()).collect();
    assert_eq!(vec!["b timeout 1", "a timeout 2", "a timeout 0", "b timeout 3"], seen);
    assert!(!l.timeouts_scheduled());
    assert_eq!(None, step(&mut l));
    assert_eq!((5, 4, 0), (l.timeouts_inserted, l.timeouts_fired, l.timeouts_dead));
    kill(&mut l, a);
    assert_eq!((5, 4, 1), (l.timeouts_inserted, l.timeouts_fired, l.timeouts_dead));
    // Not too many of them, so it just stays there with the statistics renewed
    gather(&mut l, 45);
    assert_eq!((0, 0, 0), (l.timeouts_inserted, l.timeouts_fired, l.timeouts_dead));
}

/// Each timeout has an id of its own and is told about once.
#[test]
fn timeout_ids() {
    let mut l = new();
    let a = insert(&mut l, "a");
    let b = insert(&mut l, "b");
    let ids: Vec<u64> = (0..10).map(|i: i128| l.timeout_at(if i % 2 == 0 { a } else { b }, 10 - i).0).collect();
    assert_eq!((0..10).collect::<Vec<u64>>(), ids);
    // Not their time yet
    gather(&mut l, 0);
    assert_eq!(None, step(&mut l));
    let mut seen = Vec::new();
    for now in vec![3, 7, 20, 30] {
        gather(&mut l, now);
        while let Some(what) = step(&mut l) {
            seen.push(what);
        }
    }
    let expected: Vec<String> = (0..10)
        .rev()
        .map(|i: u64| format!("{} timeout {}", if i % 2 == 0 { "a" } else { "b" }, i))
        .collect();
    assert_eq!(expected, seen);
    assert!(!l.timeout_wrapped);
    l.timeout_generation = u64::MAX;
    assert_eq!(TimeoutId(u64::MAX), l.timeout_at(a, 100));
    assert!(l.timeout_wrapped);
    assert_eq!(TimeoutId(0), l.timeout_at(a, 100));
}

fn dead_and_alive(dead: usize, alive: usize) -> L {
    let mut l = new();
    // The living ones come sooner, so the dead ones are not thrown away when looking for the first
    // timeout
    let a = insert(&mut l, "alive");
    for i in 0..alive {
        l.timeout_at(a, 100 + i as i128);
    }
    let d = insert(&mut l, "dead");
    for i in 0..dead {
        l.timeout_at(d, 1000 + i as i128);
    }
    kill(&mut l, d);
    assert_eq!(dead, l.timeouts_dead);
    assert_eq!(dead + alive, l.timeouts_inserted);
    gather(&mut l, 0);
    assert_eq!(0, l.timeouts_fired);
    l
}

#[test]
fn timers_cleanup() {
    // Only a few of them, we don't bother
    let l = dead_and_alive(5, 1);
    assert_eq!((6, 6, 5), (l.timeouts.len(), l.timeouts_inserted, l.timeouts_dead));
    // More than three times as much as the living ones
    let l = dead_and_alive(6, 1);
    assert_eq!((1, 1, 0), (l.timeouts.len(), l.timeouts_inserted, l.timeouts_dead));
    // Exactly three times as much
    let l = dead_and_alive(6, 2);
    assert_eq!((8, 8, 6), (l.timeouts.len(), l.timeouts_inserted, l.timeouts_dead));
    let l = dead_and_alive(7, 2);
    assert_eq!((2, 2, 0), (l.timeouts.len(), l.timeouts_inserted, l.timeouts_dead));
}

#[test]
fn dead_timeouts_are_ignored() {
    let mut l = new();
    let a = insert(&mut l, "a");
    let b = insert(&mut l, "b");
    l.timeout_at(a, 1);
    l.timeout_at(b, 2);
    l.timeout_at(a, 3);
    gather(&mut l, 5);
    kill(&mut l, a);
    // Those of the dead event are already in the queue
    assert_eq!(3, l.scheduled.len());
    assert_eq!(Some("b timeout 1".to_owned()), step(&mut l));
    assert_eq!(None, step(&mut l));
    assert_eq!((3, 1, 2), (l.timeouts_inserted, l.timeouts_fired, l.timeouts_dead));
}

#[test]
fn io_registration() {
    let mut l = new();
    let a = insert(&mut l, "a");
    let b = insert(&mut l, "b");
    assert_eq!(2, l.io_token());
    let x = l.io_register_any(a, "x", Ok(())).unwrap();
    assert_eq!(2, x.token());
    // A failed one leaves no traces
    assert_eq!(3, l.io_token());
    let failure = std::io::Error::new(std::io::ErrorKind::Other, "broken");
    match l.io_register_any(a, "broken", Err(failure)) {
        Err(Error::Io(e)) => assert_eq!("broken", e.to_string()),
        _ => unreachable!(),
    }
    assert_eq!(3, l.io_token());
    let y = l.io_register_any(b, "y", Ok(())).unwrap();
    assert_eq!(3, y.token());
    assert_ne!(x, y);
    assert_eq!("x", *l.io_update(a, x).unwrap());
    // Belongs to someone else
    assert!(matches!(l.io_update(b, x), Err(Error::MissingIo)));
    assert!(matches!(l.io_mut(b, x), Err(Error::MissingIo)));
    assert!(matches!(l.io_remove(b, x), Err(Error::MissingIo)));
    assert!(matches!(l.io_idx(b, x), Err(Error::MissingIo)));
    assert_eq!(0, l.io_idx(a, x).unwrap());
    *l.io_mut(a, x).unwrap() = "z";
    assert_eq!("z", *l.io_update(a, x).unwrap());
    // Access through a closure, which may not like the type
    let r = l.with_io(a, x, |io| {
        *io = "w";
        Some(Ok(42))
    });
    assert_eq!(42, r.unwrap());
    assert!(matches!(l.with_io(a, x, |_io| None::<Result<(), Error>>), Err(Error::IoType)));
    assert!(matches!(l.with_io(a, x, |_io| Some(Err::<(), Error>(Error::Busy))), Err(Error::Busy)));
    assert!(matches!(l.with_io(b, x, |_io| -> Option<Result<(), Error>> { unreachable!() }), Err(Error::MissingIo)));
    assert_eq!("w", l.io_remove(a, x).unwrap());
    assert!(matches!(l.io_remove(a, x), Err(Error::MissingIo)));
    assert!(matches!(l.io_update(a, x), Err(Error::MissingIo)));
}

#[test]
fn io_ids_are_held() {
    let mut l = new();
    let a = insert(&mut l, "a");
    let x = l.io_register_any(a, "x", Ok(())).unwrap();
    let y = l.io_register_any(a, "y", Ok(())).unwrap();
    l.io_remove(a, x).unwrap();
    // Not reused yet
    assert!(l.io_known(x.token()));
    let z = l.io_register_any(a, "z", Ok(())).unwrap();
    assert_eq!((2, 3, 4), (x.token(), y.token(), z.token()));
    gather(&mut l, 0);
    assert!(!l.io_known(x.token()));
    assert!(l.io_known(y.token()));
    let w = l.io_register_any(a, "w", Ok(())).unwrap();
    assert_eq!(x, w);
    // The ids of a dead event are held too
    let b = insert(&mut l, "b");
    kill(&mut l, a);
    assert!(l.io_known(y.token()));
    let v = l.io_register_any(b, "v", Ok(())).unwrap();
    assert_eq!(5, v.token());
    gather(&mut l, 0);
    assert!(!l.io_known(y.token()));
    assert!(l.io_known(v.token()));
    assert_eq!(1, l.ios.len());
}

#[test]
fn io_readiness() {
    let mut l = new();
    let a = insert(&mut l, "a");
    let b = insert(&mut l, "b");
    let x = l.io_register_any(a, "x", Ok(())).unwrap();
    let y = l.io_register_any(b, "y", Ok(())).unwrap();
    let z = l.io_register_any(b, "z", Ok(())).unwrap();
    assert_eq!(Source::Channel, l.tasks_gather_io(CHANNEL_TOK, Ready::readable()));
    assert_eq!(Source::Signal, l.tasks_gather_io(SIGNAL_TOK, Ready::readable()));
    assert!(l.scheduled.is_empty());
    assert!(!l.io_known(CHANNEL_TOK));
    assert!(!l.io_known(SIGNAL_TOK));
    for (id, ready) in vec![(y, Ready::readable()), (x, Ready::writable()), (z, Ready::readable()), (y, Ready::writable())] {
        let id: IoId = id;
        assert_eq!(Source::Io, l.tasks_gather_io(id.token(), ready));
    }
    assert_eq!(Some("b io 3 true".to_owned()), step(&mut l));
    assert_eq!(Some("a io 2 false".to_owned()), step(&mut l));
    // Lost in the meantime, so nobody gets called
    l.io_remove(b, z).unwrap();
    assert_eq!(Some("".to_owned()), step(&mut l));
    assert_eq!(1, l.scheduled.len());
    kill(&mut l, b);
    assert_eq!(None, step(&mut l));
}

#[test]
fn messages() {
    let mut l = new();
    let a = insert(&mut l, "a");
    let b = insert(&mut l, "b");
    let tp = TypeId::of::<u64>();
    assert!(matches!(l.msg_type_check(a, &tp), Err(Error::MsgUnexpected)));
    assert!(matches!(l.send_impl_sender(None, a, 1, tp), Err(Error::MsgUnexpected)));
    l.expect_message(a, tp);
    l.expect_message(a, tp);
    assert!(matches!(l.msg_type_check(a, &tp), Ok(())));
    // Neither other events nor other types are influenced
    assert!(matches!(l.msg_type_check(b, &tp), Err(Error::MsgUnexpected)));
    assert!(matches!(l.msg_type_check(a, &TypeId::of::<u32>()), Err(Error::MsgUnexpected)));
    l.send_impl_sender(Some(b), a, 1, tp).unwrap();
    l.send_impl_sender(None, a, 2, tp).unwrap();
    let from = format!("a message 1 {:?}", DeliveryMode::Send(Some(b)));
    assert_eq!(Some(from), step(&mut l));
    assert_eq!(Some("a message 2 Send(None)".to_owned()), step(&mut l));
    // Posting gets there right away
    l.post_impl_sender(Some(b), a, 3, tp, |ev, l: &mut L, h, what| {
        match what {
            Callback::Run(TaskParam::Message(m)) => {
                assert_eq!((3, DeliveryMode::Post(Some(Handle { id: 1, generation: 1 }))), (m.data, m.mode));
            }
            _ => unreachable!(),
        }
        l.context().push(format!("posted {} {}", ev, h.id));
        Ok(true)
    }, settle)
    .unwrap();
    assert_eq!(vec!["posted a 0"], *l.context());
    // The event dies sooner than the message gets there
    l.send_impl_sender(None, a, 4, tp).unwrap();
    kill(&mut l, a);
    assert_eq!(None, step(&mut l));
    assert!(matches!(l.send_impl_sender(None, a, 5, tp), Err(Error::Missing)));
    let r = l.post_impl_sender(None, a, 6, tp, |_ev, _l, _h, _w| unreachable!(), settle);
    assert!(matches!(r, Err(Error::Missing)));
    let r = l.post_impl_sender(None, b, 6, tp, |_ev, _l, _h, _w| unreachable!(), settle);
    assert!(matches!(r, Err(Error::MsgUnexpected)));
}

#[test]
fn remote_messages() {
    let mut l = new();
    let a = insert(&mut l, "a");
    let tp = TypeId::of::<u64>();
    let channel: Channel = l.channel(a).unwrap();
    // Not expected
    l.remote_message(channel.send(1, tp));
    assert!(l.scheduled.is_empty());
    l.expect_message(a, tp);
    l.remote_message(channel.send(2, tp));
    assert_eq!(Some("a message 2 Remote".to_owned()), step(&mut l));
    // The results of background jobs are always allowed
    l.remote_message(RemoteMessage {
        data: 3,
        real_type: TypeId::of::<u8>(),
        mode: DeliveryMode::Background(BackgroundId(9)),
        recipient: a,
    });
    assert_eq!(Some("a message 3 Background(BackgroundId(9))".to_owned()), step(&mut l));
    kill(&mut l, a);
    // They simply disappear
    l.remote_message(channel.send(4, tp));
    assert!(l.scheduled.is_empty());
    assert!(matches!(l.channel(a), Err(Error::Missing)));
}

#[test]
fn background_threads() {
    let mut l = new();
    // Without asking for any threads, there's one
    assert_eq!((BackgroundId(0), Some(PoolChange::Start(1))), l.background_submit());
    assert_eq!((BackgroundId(1), None), l.background_submit());
    assert_eq!(PoolChange::Resize(4), l.pool_thread_count_set(4));
    let mut l = new();
    assert_eq!(PoolChange::Start(3), l.pool_thread_count_set(3));
    assert_eq!((BackgroundId(0), None), l.background_submit());
    assert_eq!(Some(3), l.pool_threads);
    l.background_generation = u64::MAX;
    assert_eq!((BackgroundId(u64::MAX), None), l.background_submit());
    assert_eq!((BackgroundId(0), None), l.background_submit());
}

#[test]
fn signals() {
    let mut l = new();
    let a = insert(&mut l, "a");
    let b = insert(&mut l, "b");
    let (usr1, usr2) = (sig(10), sig(12));
    assert!(l.signal_enable(usr1));
    // Already enabled
    assert!(!l.signal_enable(usr1));
    assert!(l.signal_enable(usr2));
    l.signal(b, usr1);
    l.signal(a, usr1);
    l.signal(b, usr1);
    l.signal(a, usr2);
    assert!(matches!(l.signal_read(SignalRead::Number(10)), Ok(SignalStep::More)));
    // Broadcasted to everyone who wants it, once
    assert_eq!(Some("b signal 10".to_owned()), step(&mut l));
    assert_eq!(Some("a signal 10".to_owned()), step(&mut l));
    assert_eq!(None, step(&mut l));
    l.signal_deliver(usr2);
    assert_eq!(Some("a signal 12".to_owned()), step(&mut l));
    // Nobody wants it
    assert!(matches!(l.signal_read(SignalRead::Number(15)), Ok(SignalStep::More)));
    assert_eq!(None, step(&mut l));
    assert!(matches!(l.signal_read(SignalRead::Nothing), Ok(SignalStep::Stop)));
    let failure = SignalRead::Failed(nix::Error::InvalidPath);
    assert!(matches!(l.signal_read(failure), Err(Error::Nix(nix::Error::InvalidPath))));
    assert!(matches!(l.signal_read(SignalRead::Number(64)), Err(Error::Nix(_))));
    // Disabling doesn't unregister
    assert!(l.signal_disable(usr1));
    assert!(!l.signal_disable(usr1));
    assert!(!l.signal_mask.contains(usr1));
    assert!(l.signal_mask.contains(usr2));
    assert!(l.signal_enable(usr1));
    kill(&mut l, b);
    assert!(matches!(l.signal_read(SignalRead::Number(10)), Ok(SignalStep::More)));
    assert_eq!(Some("a signal 10".to_owned()), step(&mut l));
    assert_eq!(None, step(&mut l));
}

/// The signal stops all the corresponding events, but not the others
#[test]
fn signal_recipients_terminate() {
    let mut l = new();
    let survivor = insert(&mut l, "usr1");
    l.signal_enable(sig(10));
    l.signal_enable(sig(12));
    l.signal(survivor, sig(10));
    for _ in 0..10 {
        let h = insert(&mut l, "usr2");
        l.signal(h, sig(12));
    }
    assert_eq!(11, l.event_count());
    l.signal_deliver(sig(12));
    while l.event_count() > 1 {
        l.run_one(|_ev, _l, _h, what| {
            assert!(matches!(what, Callback::Run(TaskParam::Signal(s)) if s == sig(12)));
            Ok(false)
        }, settle)
        .unwrap()
        .unwrap();
    }
    assert!(l.event_alive(survivor));
    assert_eq!(1, l.signal_recipients.len());
}

#[test]
fn children() {
    let mut l = new();
    let a = insert(&mut l, "a");
    let b = insert(&mut l, "b");
    assert!(l.signal_enable(Signal::sigchld()));
    l.child(a, 100);
    l.child(b, 200);
    l.child(a, 300);
    assert!(l.child_tracked(100));
    assert!(!l.child_tracked(400));
    l.signal(b, Signal::sigchld());
    // The children come first, the signal afterwards
    let signal = match l.signal_read(SignalRead::Number(Signal::sigchld().number())) {
        Ok(SignalStep::Children(signal)) => signal,
        _ => unreachable!(),
    };
    assert!(l.scheduled.is_empty());
    assert!(matches!(l.children_gather(ChildStatus::Exit(100, ChildExit::Exited(42))), Ok(true)));
    assert!(matches!(l.children_gather(ChildStatus::Exit(200, ChildExit::Signaled(sig(9)))), Ok(true)));
    // Nobody tracks this one
    assert!(matches!(l.children_gather(ChildStatus::Exit(400, ChildExit::Exited(0))), Ok(true)));
    // Already told
    assert!(matches!(l.children_gather(ChildStatus::Exit(100, ChildExit::Exited(42))), Ok(true)));
    assert!(matches!(l.children_gather(ChildStatus::Other), Ok(true)));
    assert!(matches!(l.children_gather(ChildStatus::Again), Ok(false)));
    assert!(matches!(l.children_gather(ChildStatus::StillAlive), Ok(false)));
    assert!(matches!(l.children_gather(ChildStatus::NoChildren), Ok(false)));
    let failure = ChildStatus::Failed(nix::Error::InvalidPath);
    assert!(matches!(l.children_gather(failure), Err(Error::Nix(nix::Error::InvalidPath))));
    l.signal_deliver(signal);
    assert_eq!(Some("a child 100 Exited(42)".to_owned()), step(&mut l));
    assert_eq!(Some(format!("b child 200 {:?}", ChildExit::Signaled(sig(9)))), step(&mut l));
    assert_eq!(Some(format!("b signal {}", Signal::sigchld().number())), step(&mut l));
    assert_eq!(None, step(&mut l));
    // It can be tracked again, and a dead event doesn't track anything
    assert!(!l.child_tracked(100));
    l.child(b, 100);
    assert!(l.child_tracked(300));
    kill(&mut l, a);
    assert!(!l.child_tracked(300));
    assert!(l.child_tracked(100));
    l.child(b, 300);
}

/// The loop goes by the signal it was given, whatever its number is.
#[test]
fn children_by_another_signal() {
    let mut l: L = Loop::with_sigchld(Vec::new(), 0, sig(20));
    let a = insert(&mut l, "a");
    assert!(l.signal_enable(sig(20)));
    l.child(a, 100);
    assert!(matches!(l.signal_read(SignalRead::Number(20)), Ok(SignalStep::Children(s)) if s == sig(20)));
    assert!(matches!(l.children_gather(ChildStatus::Exit(100, ChildExit::Exited(1))), Ok(true)));
    l.signal_deliver(sig(20));
    assert_eq!(Some("a child 100 Exited(1)".to_owned()), step(&mut l));
    let l = new();
    assert_eq!(nix::sys::signal::Signal::SIGCHLD as i32, l.sigchld.number());
}

#[test]
fn idle_events() {
    let mut l = new();
    let a = insert(&mut l, "a");
    let b = insert(&mut l, "b");
    let c = insert(&mut l, "c");
    l.idle(a);
    l.idle(b);
    l.idle(c);
    l.idle(a);
    // Anything else goes first
    l.timeout_at(c, 5);
    gather(&mut l, 5);
    assert_eq!(Some("c timeout 0".to_owned()), step(&mut l));
    assert_eq!(None, step(&mut l));
    // Then one at a time, the one waiting for the longest time first
    gather(&mut l, 5);
    assert_eq!(Some("b idle".to_owned()), step(&mut l));
    assert_eq!(None, step(&mut l));
    kill(&mut l, c);
    gather(&mut l, 5);
    assert_eq!(Some("a idle".to_owned()), step(&mut l));
    gather(&mut l, 5);
    assert_eq!(None, step(&mut l));
    assert!(l.want_idle.is_empty());
}

#[test]
fn stopping() {
    let mut l = new();
    assert!(!l.running());
    let outer = l.run();
    assert!(!outer && l.running());
    let nested = l.run();
    assert!(nested && l.running());
    l.stop();
    assert!(!l.running());
    l.run_end(nested);
    // The outer one goes on
    assert!(l.running());
    l.stop();
    l.run_end(outer);
    assert!(!l.running());
}

#[test]
fn context_access() {
    let mut l = new();
    let len = l.with_context(|c| {
        c.push("x".to_owned());
        Ok(c.len())
    });
    assert_eq!(1, len.unwrap());
    assert!(matches!(l.with_context(|_c| Err::<(), Error>(Error::Empty)), Err(Error::Empty)));
    assert_eq!(vec!["x"], *l.context());
}
