//! The parts the loop is built of.
use std::any::{Any, TypeId};

use eveboros::background::{BackgroundJob, Channel, IterStep, SendOutcome};
use eveboros::error::Error;
use eveboros::handle::{BackgroundId, Handle, TimeoutId};
use eveboros::idle::IdleQueue;
use eveboros::message::{DeliveryMode, Message};
use eveboros::signal::{ChildExit, Signal, SignalMask, NSIG};
use eveboros::signal_dispatch::{SignalDispatch, Wakeup, SIG_COUNT};
use eveboros::stolen_cell::StolenCell;
use eveboros::timers::{TimeoutHeap, TimeoutHolder};

fn handle(id: usize, generation: u64) -> Handle {
    Handle { id, generation }
}

#[test]
fn signal_numbers() {
    assert_eq!(nix::sys::signal::NSIG, NSIG);
    assert_eq!(SIG_COUNT, NSIG as usize);
    assert_eq!(nix::sys::signal::Signal::SIGCHLD as i32, Signal::sigchld().number());
    for number in 1..NSIG {
        let signal = Signal::from_c_int(number).unwrap();
        assert_eq!(number, signal.number());
    }
    for number in vec![0, NSIG, -1, i32::MAX, i32::MIN] {
        assert!(matches!(
            Signal::from_c_int(number),
            Err(Error::Nix(nix::Error::Sys(nix::Errno::EINVAL)))
        ));
    }
    assert_eq!(Signal::from_c_int(10).unwrap(), Signal::from_c_int(10).unwrap());
    assert_ne!(Signal::from_c_int(10).unwrap(), Signal::from_c_int(12).unwrap());
    assert_ne!(ChildExit::Exited(10), ChildExit::Signaled(Signal::from_c_int(10).unwrap()));
}

#[test]
fn signal_mask() {
    let usr1 = Signal::from_c_int(nix::sys::signal::Signal::SIGUSR1 as i32).unwrap();
    let usr2 = Signal::from_c_int(nix::sys::signal::Signal::SIGUSR2 as i32).unwrap();
    let mut mask = SignalMask::empty();
    assert!(!mask.contains(usr1));
    mask.add(usr1);
    assert!(mask.contains(usr1));
    assert!(!mask.contains(usr2));
    mask.add(usr2);
    mask.add(usr2);
    assert!(mask.sigset().contains(nix::sys::signal::Signal::SIGUSR1));
    assert!(mask.sigset().contains(nix::sys::signal::Signal::SIGUSR2));
    assert!(!mask.sigset().contains(nix::sys::signal::Signal::SIGCHLD));
    mask.remove(usr1);
    assert!(!mask.contains(usr1));
    assert!(mask.contains(usr2));
    mask.remove(usr1);
    assert!(mask.contains(usr2));
}

#[test]
fn idle_queue() {
    let (a, b, c) = (handle(0, 5), handle(1, 1), handle(0, 6));
    let mut q = IdleQueue::new();
    assert!(q.is_empty());
    assert_eq!(None, q.pop_front());
    q.push(a);
    q.push(b);
    q.push(c);
    // Asking again moves it to the end
    q.push(a);
    assert!(!q.is_empty());
    assert_eq!(Some(b), q.pop_front());
    q.push(b);
    q.remove(a);
    // Not there any more
    q.remove(a);
    assert_eq!(Some(c), q.pop_front());
    assert_eq!(Some(b), q.pop_front());
    assert!(q.is_empty());
    assert_eq!(None, q.pop_front());
}

#[test]
fn timeout_heap() {
    let mut heap = TimeoutHeap::new();
    assert_eq!(0, heap.len());
    assert_eq!(None, heap.peek());
    assert_eq!(None, heap.pop());
    // Some permutation of times, with repetitions and some of them before the beginning
    let times: Vec<i128> = (0..100).map(|i: i128| (i * 37) % 50 - 20).collect();
    for (i, when) in times.iter().enumerate() {
        heap.push(TimeoutHolder { id: TimeoutId(i as u64), recipient: handle(i % 7, 0), when: *when });
    }
    assert_eq!(100, heap.len());
    assert!(heap.refers_to(handle(3, 0)));
    assert!(!heap.refers_to(handle(3, 1)));
    assert!(!heap.refers_to(handle(7, 0)));
    let mut sorted = times.clone();
    sorted.sort();
    let mut seen: Vec<u64> = Vec::new();
    for when in sorted {
        let peeked = heap.peek().unwrap();
        let t = heap.pop().unwrap();
        assert_eq!(peeked, t);
        assert_eq!(when, t.when);
        assert_eq!(times[t.id.0 as usize], t.when);
        assert_eq!(handle(t.id.0 as usize % 7, 0), t.recipient);
        seen.push(t.id.0);
    }
    assert_eq!(0, heap.len());
    assert_eq!(None, heap.pop());
    seen.sort();
    assert_eq!((0..100).collect::<Vec<u64>>(), seen);
}

#[test]
fn heap_into_vec() {
    let mut heap = TimeoutHeap::new();
    for when in vec![3, 1, 2] {
        heap.push(TimeoutHolder { id: TimeoutId(when as u64), recipient: handle(0, 0), when });
    }
    let mut all: Vec<i128> = heap.into_vec().iter().map(|t| t.when).collect();
    all.sort();
    assert_eq!(vec![1, 2, 3], all);
}

#[test]
fn stolen_cell() {
    let mut cell = StolenCell::new(vec![1]);
    assert!(!cell.stolen());
    let mut data = cell.steal();
    assert!(cell.stolen());
    data.as_mut().push(2);
    cell.unsteal(data);
    assert!(!cell.stolen());
    assert_eq!(vec![1, 2], cell.into_inner());
}

#[test]
fn message_get() {
    let plain = |mode| Message { data: Box::new(42i32) as Box<dyn Any>, real_type: TypeId::of::<i32>(), mode };
    fn get<T: 'static>(m: Message<Box<dyn Any>>) -> Result<T, Error> {
        m.get(
            |d: Box<dyn Any>| d.downcast::<T>().ok().map(|b| *b),
            |d: Box<dyn Any>| d.downcast::<Result<T, Error>>().ok().map(|b| *b),
        )
    }
    let m = plain(DeliveryMode::Post(None));
    assert_eq!(*m.real_type(), TypeId::of::<i32>());
    assert_eq!(*m.mode(), DeliveryMode::Post(None));
    assert_eq!(get::<i32>(m).unwrap(), 42);
    assert_eq!(get::<i32>(plain(DeliveryMode::Send(Some(handle(1, 2))))).unwrap(), 42);
    assert_eq!(get::<i32>(plain(DeliveryMode::Remote)).unwrap(), 42);
    // A different type inside
    assert!(matches!(get::<u32>(plain(DeliveryMode::Remote)), Err(Error::MsgType)));
    // The plain data don't pass as a result of a background job
    let background = DeliveryMode::Background(BackgroundId(3));
    assert!(matches!(get::<i32>(plain(background)), Err(Error::MsgType)));
    let job = |data: Result<i32, Error>| Message {
        data: Box::new(data) as Box<dyn Any>,
        real_type: TypeId::of::<i32>(),
        mode: background,
    };
    assert_eq!(get::<i32>(job(Ok(42))).unwrap(), 42);
    assert!(matches!(get::<i32>(job(Err(Error::IterEnd))), Err(Error::IterEnd)));
    assert!(matches!(get::<u8>(job(Ok(42))), Err(Error::MsgType)));
}

#[test]
fn channel_messages() {
    let channel = Channel { handle: handle(3, 7) };
    let m = channel.send("hello", TypeId::of::<&str>());
    assert_eq!("hello", m.data);
    assert_eq!(TypeId::of::<&str>(), m.real_type);
    assert_eq!(DeliveryMode::Remote, m.mode);
    assert_eq!(handle(3, 7), m.recipient);
    assert!(matches!(Channel::sent(SendOutcome::Sent), Ok(())));
    assert!(matches!(Channel::sent(SendOutcome::Disconnected), Err(Error::LoopGone)));
    let io = std::io::Error::new(std::io::ErrorKind::Other, "broken");
    match Channel::sent(SendOutcome::Io(io)) {
        Err(Error::Io(e)) => assert_eq!("broken", e.to_string()),
        _ => unreachable!(),
    }
}

#[test]
fn background_job() {
    let tp = TypeId::of::<u8>();
    let mut job = BackgroundJob::new(handle(1, 2), BackgroundId(5));
    let lost = job.abandoned::<u8>(tp).unwrap();
    assert!(matches!(lost.data, Err(Error::BackgroundPanicked)));
    assert_eq!(DeliveryMode::Background(BackgroundId(5)), lost.mode);
    assert_eq!(handle(1, 2), lost.recipient);
    let m = job.background(Ok(42u8), tp);
    assert!(matches!(m.data, Ok(42)));
    assert_eq!(DeliveryMode::Background(BackgroundId(5)), m.mode);
    assert_eq!(handle(1, 2), m.recipient);
    assert_eq!(tp, m.real_type);
    // It got its result, so there's nothing more to tell
    assert!(job.abandoned::<u8>(tp).is_none());
    let job = BackgroundJob::new(handle(1, 2), BackgroundId(6));
    let sent: Vec<u8> = vec![1, 2, 3]
        .into_iter()
        .map(|value: u8| {
            let m = job.background_iter(IterStep::Item(value), tp);
            assert_eq!(handle(1, 2), m.recipient);
            m.data.unwrap()
        })
        .collect();
    assert_eq!(vec![1, 2, 3], sent);
    assert!(matches!(job.background_iter(IterStep::<u8>::End, tp).data, Err(Error::IterEnd)));
    let failed = job.background_iter(IterStep::<u8>::Failed(Error::DeadLock), tp);
    assert!(matches!(failed.data, Err(Error::DeadLock)));
    assert_eq!(DeliveryMode::Background(BackgroundId(6)), failed.mode);
}

/// Run a job to its end and collect what it sends
fn job_run(mut iter: std::vec::IntoIter<Option<u8>>) -> Vec<Result<u8, Error>> {
    let job = BackgroundJob::new(handle(1, 2), BackgroundId(7));
    let mut sent = Vec::new();
    loop {
        let (step, more) = IterStep::after(Ok(iter.next().unwrap()));
        sent.push(job.background_iter(step, TypeId::of::<u8>()).data);
        if !more {
            return sent;
        }
    }
}

#[test]
fn job_steps() {
    // Nobody asks for anything after the end
    let sent = job_run(vec![Some(1), Some(2), None, Some(3), None].into_iter());
    assert_eq!(3, sent.len());
    assert!(matches!(sent[0], Ok(1)));
    assert!(matches!(sent[1], Ok(2)));
    assert!(matches!(sent[2], Err(Error::IterEnd)));
    let sent = job_run(vec![None].into_iter());
    assert_eq!(1, sent.len());
    assert!(matches!(sent[0], Err(Error::IterEnd)));
    // A failure is the only thing told
    let (step, more) = IterStep::<u8>::after(Err(Error::DeadLock));
    assert!(matches!(step, IterStep::Failed(Error::DeadLock)));
    assert!(!more);
}

#[test]
fn error_conversions() {
    let io = std::io::Error::new(std::io::ErrorKind::Other, "broken");
    assert!(matches!(Error::from(io), Error::Io(_)));
    assert!(matches!(Error::from(nix::Error::InvalidPath), Error::Nix(nix::Error::InvalidPath)));
}

#[test]
fn signal_dispatch() {
    let usr1 = Signal::from_c_int(10).unwrap();
    let usr2 = Signal::from_c_int(12).unwrap();
    let mut dispatch: SignalDispatch<&str> = SignalDispatch::new();
    assert_eq!(SIG_COUNT, dispatch.registered.len());
    assert!(dispatch.registered.iter().all(|r| r.is_empty()));
    assert!(dispatch.setup.iter().all(|s| !s));
    // The handler is set up once for each signal
    assert!(dispatch.register(usr1, "a"));
    assert!(!dispatch.register(usr1, "b"));
    assert!(!dispatch.register(usr1, "c"));
    assert!(dispatch.register(usr2, "d"));
    assert!(dispatch.setup[10] && dispatch.setup[12] && !dispatch.setup[11]);
    // Everyone gets it, first the mark and then the wakeup
    let seen = std::cell::RefCell::new(Vec::new());
    dispatch.dispatch(
        10,
        |n: &str, snum: usize| {
            seen.borrow_mut().push(format!("{} marked {}", n, snum));
            n
        },
        |n: &str| {
            seen.borrow_mut().push(format!("{} woken", n));
            (n, if n == "b" { Wakeup::Full } else { Wakeup::Sent })
        },
    );
    let expected =
        vec!["a marked 10", "a woken", "b marked 10", "b woken", "c marked 10", "c woken"];
    assert_eq!(expected, *seen.borrow());
    // A wakeup waiting there already is fine
    assert_eq!(vec!["a", "b", "c"], dispatch.registered[10]);
    // The disconnected one is dropped, the rest keep their order
    let gone = |n: &'static str| (n, if n == "b" { Wakeup::Disconnected } else { Wakeup::Sent });
    dispatch.dispatch(10, |n: &str, _| n, gone);
    assert_eq!(vec!["a", "c"], dispatch.registered[10]);
    assert_eq!(vec!["d"], dispatch.registered[12]);
    dispatch.dispatch(10, |n: &str, _| n, |n: &str| (n, Wakeup::Disconnected));
    assert!(dispatch.registered[10].is_empty());
    // Still set up
    assert!(!dispatch.register(usr1, "e"));
    // Nobody wants it
    dispatch.dispatch(0, |_: &str, _| unreachable!(), |_: &str| unreachable!());
    dispatch.dispatch(31, |_: &str, _| unreachable!(), |_: &str| unreachable!());
}
