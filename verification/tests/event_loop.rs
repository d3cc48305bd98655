//! Runs real events inside the loop. The driver below does what the loop leaves up to the outside:
//! it tells the time, calls the callbacks and runs the background jobs.
use std::any::{Any, TypeId};
use std::cell::Cell;
use std::rc::Rc;
use std::sync::mpsc::{channel, Receiver, Sender, TryRecvError};
use std::time::{Duration, Instant};

use threadpool::ThreadPool;

use eveboros::background::{BackgroundJob, IterStep};
use eveboros::error::Error;
use eveboros::event_loop::{Loop, Outcome};
use eveboros::handle::{BackgroundId, Handle, TimeoutId};
use eveboros::loop_message::PoolChange;
use eveboros::loop_run::run_until_empty;
use eveboros::message::{DeliveryMode, Message, RemoteMessage};
use eveboros::task::{Callback, TaskParam};

type Data = Box<dyn Any>;
type Remote = RemoteMessage<Box<dyn Any + Send>>;
type Response = Result<bool, Error>;
type Core<C, E> = Loop<Outer<C, E>, E, Data, ()>;

trait Event<C>: Sized {
    fn init(&mut self, scope: &mut Scope<C, Self>) -> Response;
    fn timeout(&mut self, _scope: &mut Scope<C, Self>, _id: TimeoutId) -> Response {
        Err(Error::DefaultImpl)
    }
    fn idle(&mut self, _scope: &mut Scope<C, Self>) -> Response {
        Err(Error::DefaultImpl)
    }
    fn message(&mut self, _scope: &mut Scope<C, Self>, _msg: Message<Data>) -> Response {
        Err(Error::DefaultImpl)
    }
}

/// What the loop needs from the outside, next to the context of the events.
struct Outer<C, E> {
    context: C,
    epoch: Instant,
    handler: Box<dyn FnMut(E, Error) -> Result<(), Error>>,
    sender: Sender<Remote>,
    receiver: Receiver<Remote>,
    pool: Option<ThreadPool>,
}

struct Driver<C, E> {
    core: Core<C, E>,
}

struct Scope<'a, C, E> {
    l: &'a mut Core<C, E>,
    handle: Handle,
}

fn extract<T: 'static>(msg: Message<Data>) -> Result<T, Error> {
    msg.get(
        |data: Data| data.downcast::<T>().ok().map(|b| *b),
        |data: Data| data.downcast::<Result<T, Error>>().ok().map(|b| *b),
    )
}

fn clock<C, E>(l: &mut Core<C, E>) -> i128 {
    l.context().epoch.elapsed().as_nanos() as i128
}

/// Call the right callback
fn dispatch<C, E: Event<C>>(event: &mut E, l: &mut Core<C, E>, handle: Handle, what: Callback<Data>) -> Response {
    let mut scope = Scope { l, handle };
    match what {
        Callback::Init => event.init(&mut scope),
        Callback::Run(TaskParam::Timeout(id)) => event.timeout(&mut scope, id),
        Callback::Run(TaskParam::Idle) => event.idle(&mut scope),
        Callback::Run(TaskParam::Message(msg)) => event.message(&mut scope, msg),
        _ => unreachable!(),
    }
}

/// Pass the errors to the handler
fn settle<C, E>(outer: &mut Outer<C, E>, outcome: Outcome<E, ()>) -> Result<(), Error> {
    match outcome {
        Outcome::Kept => Ok(()),
        Outcome::Killed { .. } => Ok(()),
        Outcome::Failed { event, error, .. } => (outer.handler)(event, error),
    }
}

fn gather<C, E>(l: &mut Core<C, E>) -> Result<(), Error> {
    let now = clock(l);
    let wait = l.tasks_gather(now)?;
    // Wait for a message or for the time to come
    let mut messages: Vec<Remote> = Vec::new();
    loop {
        match l.context().receiver.try_recv() {
            Ok(message) => messages.push(message),
            Err(TryRecvError::Empty) if !messages.is_empty() => break,
            Err(TryRecvError::Empty) => {
                if let Some(wait) = wait {
                    if clock(l) >= now + wait as i128 {
                        break;
                    }
                }
            }
            Err(TryRecvError::Disconnected) => unreachable!(),
        }
    }
    let now = clock(l);
    l.now_set(now);
    for message in messages {
        l.remote_message(RemoteMessage {
            data: message.data as Data,
            real_type: message.real_type,
            mode: message.mode,
            recipient: message.recipient,
        });
    }
    assert!(!l.timeouts_scheduled());
    l.tasks_gather_finish();
    Ok(())
}

fn run_one<C, E: Event<C>>(l: &mut Core<C, E>) -> Result<(), Error> {
    loop {
        match l.run_one(dispatch, settle) {
            Some(r) => return r,
            None => gather(l)?,
        }
    }
}

fn run_until_complete<C, E: Event<C>>(l: &mut Core<C, E>, handle: Handle) -> Result<(), Error> {
    let mut first = true;
    while l.run_until_complete(handle, first)? {
        first = false;
        run_one(l)?;
    }
    Ok(())
}

fn run<C, E: Event<C>>(l: &mut Core<C, E>) -> Result<(), Error> {
    let outer = l.run();
    let mut r = Ok(());
    while r.is_ok() && l.running() {
        r = run_one(l);
    }
    l.run_end(outer);
    r
}

fn insert<C, E: Event<C>>(l: &mut Core<C, E>, event: E) -> Result<Handle, Error> {
    assert!(l.handle_unused());
    l.insert_exact(event, dispatch, settle)
}

fn pool_change<C, E>(l: &mut Core<C, E>, change: PoolChange) {
    match change {
        PoolChange::Start(cnt) => l.context().pool = Some(ThreadPool::new(cnt)),
        PoolChange::Resize(cnt) => l.context().pool.as_mut().unwrap().set_num_threads(cnt),
    }
}

impl<C, E: Event<C>> Driver<C, E> {
    fn new(context: C) -> Self {
        let (sender, receiver) = channel();
        let outer = Outer {
            context,
            epoch: Instant::now(),
            handler: Box::new(|_, error| Err(error)),
            sender,
            receiver,
            pool: None,
        };
        Driver { core: Loop::new(outer, 0) }
    }
    fn insert(&mut self, event: E) -> Result<Handle, Error> {
        insert(&mut self.core, event)
    }
    fn send<T: 'static>(&mut self, handle: Handle, data: T) -> Result<(), Error> {
        self.core.send_impl_sender(None, handle, Box::new(data), TypeId::of::<T>())
    }
    fn post<T: 'static>(&mut self, handle: Handle, data: T) -> Result<(), Error> {
        self.core.post_impl_sender(None, handle, Box::new(data), TypeId::of::<T>(), dispatch, settle)
    }
    fn run_one(&mut self) -> Result<(), Error> {
        run_one(&mut self.core)
    }
    fn run_until_complete(&mut self, handle: Handle) -> Result<(), Error> {
        run_until_complete(&mut self.core, handle)
    }
    fn run(&mut self) -> Result<(), Error> {
        run(&mut self.core)
    }
}

/// Sends the bad news when a background job panics
struct Guard<R: Send + 'static> {
    job: BackgroundJob,
    sender: Sender<Remote>,
    _result: std::marker::PhantomData<R>,
}

fn boxed<R: Send + 'static>(m: RemoteMessage<Result<R, Error>>) -> Remote {
    RemoteMessage { data: Box::new(m.data), real_type: m.real_type, mode: m.mode, recipient: m.recipient }
}

impl<R: Send + 'static> Drop for Guard<R> {
    fn drop(&mut self) {
        if let Some(m) = self.job.abandoned::<R>(TypeId::of::<Result<R, Error>>()) {
            let _ = self.sender.send(boxed(m));
        }
    }
}

impl<'a, C, E: Event<C>> Scope<'a, C, E> {
    fn timeout_after(&mut self, after: &Duration) -> TimeoutId {
        self.l.timeout_after(self.handle, after.as_nanos())
    }
    fn expect<T: 'static>(&mut self) {
        self.l.expect_message(self.handle, TypeId::of::<T>());
    }
    fn send<T: 'static>(&mut self, handle: Handle, data: T) -> Result<(), Error> {
        self.l.send_impl_sender(Some(self.handle), handle, Box::new(data), TypeId::of::<T>())
    }
    fn post<T: 'static>(&mut self, handle: Handle, data: T) -> Result<(), Error> {
        self.l.post_impl_sender(Some(self.handle), handle, Box::new(data), TypeId::of::<T>(), dispatch, settle)
    }
    fn submit(&mut self) -> BackgroundId {
        let (id, change) = self.l.background_submit();
        if let Some(change) = change {
            pool_change(self.l, change);
        }
        id
    }
    fn background<R: Send + 'static, F: FnOnce() -> Result<R, Error> + Send + 'static>(&mut self, f: F) -> BackgroundId {
        let id = self.submit();
        let mut guard: Guard<R> = Guard {
            job: BackgroundJob::new(self.handle, id),
            sender: self.l.context().sender.clone(),
            _result: std::marker::PhantomData,
        };
        self.l.context().pool.as_ref().unwrap().execute(move || {
            let result = f();
            let m = guard.job.background(result, TypeId::of::<R>());
            let _ = guard.sender.send(boxed(m));
        });
        id
    }
    fn background_iter<R: Send + 'static, I: Iterator<Item = R>, F: FnOnce() -> Result<I, Error> + Send + 'static>(&mut self, f: F) -> BackgroundId {
        let id = self.submit();
        let job = BackgroundJob::new(self.handle, id);
        let sender = self.l.context().sender.clone();
        self.l.context().pool.as_ref().unwrap().execute(move || {
            let send = |step: IterStep<R>| {
                let _ = sender.send(boxed(job.background_iter(step, TypeId::of::<R>())));
            };
            match f() {
                Ok(iter) => {
                    for val in iter {
                        send(IterStep::Item(val));
                    }
                    send(IterStep::End);
                }
                Err(err) => send(IterStep::Failed(err)),
            }
        });
        id
    }
}

struct InitAndContextEvent(Rc<Cell<bool>>);

impl Event<bool> for InitAndContextEvent {
    fn init(&mut self, scope: &mut Scope<bool, Self>) -> Response {
        scope.l.with_context(|outer| {
            outer.context = true;
            Ok(())
        }).map(|_| false)
    }
}

impl Drop for InitAndContextEvent {
    fn drop(&mut self) {
        self.0.set(true);
    }
}

/// Test we can access the context from within an event and its init gets called.
/// Also test the thing gets destroyed.
#[test]
fn core_init_and_context() {
    let destroyed = Rc::new(Cell::new(false));
    let mut l: Driver<bool, InitAndContextEvent> = Driver::new(false);
    let handle = l.insert(InitAndContextEvent(destroyed.clone())).unwrap();
    // Init got called (the context gets set to true there
    l.core.with_context(|outer| {
        assert!(outer.context);
        Ok(())
    }).unwrap();
    // As the event returns false from its init, the destructor should have gotten called
    // by now (even before the loop itself)
    assert!(destroyed.get());
    // And it is not alive (obviously)
    assert!(!l.core.event_alive(handle));
    // As it is not alive, run_until_complete finishes right away
    l.run_until_complete(handle).unwrap();
    assert_eq!(0, l.core.event_count());
}

#[test]
fn mod_init_and_context() {
    let destroyed = Rc::new(Cell::new(false));
    let mut l: Driver<bool, InitAndContextEvent> = Driver::new(false);
    let handle = l.insert(InitAndContextEvent(destroyed.clone())).unwrap();
    l.core.with_context(|outer| {
        assert!(outer.context);
        Ok(())
    }).unwrap();
    assert!(destroyed.get());
    assert!(!l.core.event_alive(handle));
    l.run_until_complete(handle).unwrap();
    assert_eq!(0, l.core.event_count());
}

struct Recurse;
struct Recipient;
struct SendB(bool);

impl<C> Event<C> for Recipient {
    fn init(&mut self, scope: &mut Scope<C, Self>) -> Response {
        scope.expect::<()>();
        scope.expect::<Rc<Recurse>>();
        scope.expect::<Recurse>();
        scope.expect::<SendB>();
        // Stay alive for now
        Ok(true)
    }

    fn message(&mut self, scope: &mut Scope<C, Self>, msg: Message<Data>) -> Response {
        let handle = scope.handle;
        if *msg.real_type() == TypeId::of::<()>() {
            Ok(false)
        } else if *msg.real_type() == TypeId::of::<Rc<Recurse>>() {
            scope.post(handle, extract::<Rc<Recurse>>(msg)?)?;
            Ok(true)
        } else if *msg.real_type() == TypeId::of::<Recurse>() {
            scope.post(handle, extract::<Recurse>(msg)?)?;
            Ok(true)
        } else if *msg.real_type() == TypeId::of::<SendB>() {
            let from = match *msg.mode() {
                DeliveryMode::Send(from) => from,
                _ => unreachable!(),
            };
            let SendB(value) = extract::<SendB>(msg)?;
            if value {
                // Sending works even recursively
                scope.send(handle, SendB(false))?;
                assert!(from.is_none());
                Ok(true)
            } else {
                assert_eq!(handle, from.unwrap());
                Ok(false)
            }
        } else {
            unreachable!();
        }
    }
}

/// Test sending.
#[test]
fn core_send() {
    let mut l: Driver<(), Recipient> = Driver::new(());
    let handle = l.insert(Recipient).unwrap();
    assert!(matches!(l.send(handle, 42), Err(Error::MsgUnexpected)));
    l.send(handle, SendB(true)).unwrap();
    // It'll die, but sending works only when running: nothing delivered yet
    assert!(l.core.event_alive(handle));
    l.run_until_complete(handle).unwrap();
    // It ended by now (because it got the message from itself, sent after receiving ours)
    assert!(!l.core.event_alive(handle));
    // Can't send any more
    assert!(matches!(l.send(handle, ()), Err(Error::Missing)));
    // Errors from sending are not propagated to the send() call, but to the loop
    let handle = l.insert(Recipient).unwrap();
    l.send(handle, Rc::new(Recurse)).unwrap();
    assert!(matches!(l.run_until_complete(handle), Err(Error::Busy)));
}

#[test]
fn mod_send() {
    let mut l: Driver<(), Recipient> = Driver::new(());
    let handle = l.insert(Recipient).unwrap();
    assert!(matches!(l.send(handle, 42), Err(Error::MsgUnexpected)));
    l.send(handle, SendB(true)).unwrap();
    assert!(l.core.event_alive(handle));
    l.run_until_complete(handle).unwrap();
    assert!(!l.core.event_alive(handle));
    assert!(matches!(l.send(handle, ()), Err(Error::Missing)));
    let handle = l.insert(Recipient).unwrap();
    l.send(handle, Recurse).unwrap();
    assert!(matches!(l.run_until_complete(handle), Err(Error::Busy)));
}

/// Test we can post to an event.
#[test]
fn core_post() {
    // Create an event that stays there, at least for a while
    let mut l: Driver<(), Recipient> = Driver::new(());
    let handle = l.insert(Recipient).unwrap();
    assert!(l.core.event_alive(handle));
    assert!(matches!(l.post(handle, 42), Err(Error::MsgUnexpected)));
    // Post something to it (successfully)
    l.post(handle, ()).unwrap();
    // But it received it and went away
    assert!(!l.core.event_alive(handle));
    // And if we try to send again, it fails with Missing
    assert!(matches!(l.post(handle, ()), Err(Error::Missing)));
}

#[test]
fn mod_post() {
    let mut l: Driver<(), Recipient> = Driver::new(());
    let handle = l.insert(Recipient).unwrap();
    assert!(l.core.event_alive(handle));
    assert!(matches!(l.post(handle, 42), Err(Error::MsgUnexpected)));
    l.post(handle, ()).unwrap();
    assert!(!l.core.event_alive(handle));
    assert!(matches!(l.post(handle, ()), Err(Error::Missing)));
}

/// Test we detect busy/recursive post access to an event.
#[test]
fn core_busy_post() {
    // Create an event that stays there
    let mut l: Driver<(), Recipient> = Driver::new(());
    let handle = l.insert(Recipient).unwrap();
    assert!(l.core.event_alive(handle));
    // Post a Recurse to it, which would create an infinite recursion of posting to self
    assert!(matches!(l.post(handle, Rc::new(Recurse)), Err(Error::Busy)));
    // As it returned error, it got killed (it returned error because it called itself, not
    // because it was called while busy).
    assert!(!l.core.event_alive(handle));
}

#[test]
fn mod_busy_post() {
    let mut l: Driver<(), Recipient> = Driver::new(());
    let handle = l.insert(Recipient).unwrap();
    assert!(l.core.event_alive(handle));
    assert!(matches!(l.post(handle, Recurse), Err(Error::Busy)));
    assert!(!l.core.event_alive(handle));
}

struct BackReceiver {
    answer: Option<BackgroundId>,
    broken: Option<BackgroundId>,
    iter: Option<BackgroundId>,
    with_iter: bool,
    received: usize,
}

impl Event<()> for BackReceiver {
    fn init(&mut self, scope: &mut Scope<(), Self>) -> Response {
        self.broken = Some(scope.background(move || -> Result<(), Error> { panic!("Testing handling of panic") }));
        self.answer = Some(scope.background(move || Ok(42u8)));
        if self.with_iter {
            self.iter = Some(scope.background_iter(move || Ok(vec![(), (), ()].into_iter())));
        }
        Ok(true)
    }
    fn message(&mut self, _scope: &mut Scope<(), Self>, message: Message<Data>) -> Response {
        self.received += 1;
        let id = match message.mode() {
            &DeliveryMode::Background(id) => id,
            _ => unreachable!(),
        };
        if Some(id) == self.answer {
            assert_eq!(42u8, extract::<u8>(message)?);
            self.answer.take(); // Make sure each one arrives only once
        } else if Some(id) == self.broken {
            assert!(matches!(extract::<()>(message), Err(Error::BackgroundPanicked)));
            self.broken.take();
        } else if Some(id) == self.iter {
            match extract::<()>(message) {
                Err(Error::IterEnd) => {
                    self.iter.take();
                }
                Err(e) => return Err(e),
                Ok(()) => (),
            };
        } else {
            unreachable!();
        }
        // Stop after receiving all background tasks (the iter is triggered multiple times)
        Ok(self.received < if self.with_iter { 6 } else { 2 })
    }
}

/// Test running tasks in background threads
#[test]
fn core_background() {
    let mut l: Driver<(), BackReceiver> = Driver::new(());
    let change = l.core.pool_thread_count_set(2);
    assert_eq!(PoolChange::Start(2), change);
    pool_change(&mut l.core, change);
    // Run multiple events at once
    for _ in 0..3 {
        l.insert(BackReceiver { answer: None, broken: None, iter: None, with_iter: true, received: 0 }).unwrap();
    }
    // Wait for all the events to finish
    assert!(matches!(l.run(), Err(Error::Empty)));
}

#[test]
fn mod_background() {
    let mut l: Driver<(), BackReceiver> = Driver::new(());
    let change = l.core.pool_thread_count_set(2);
    pool_change(&mut l.core, change);
    for _ in 0..3 {
        l.insert(BackReceiver { answer: None, broken: None, iter: None, with_iter: false, received: 0 }).unwrap();
    }
    assert!(matches!(l.run(), Err(Error::Empty)));
}

// An event that terminates after given amount of milliseconds
struct Timeouter {
    milliseconds: u32,
    id: Option<TimeoutId>,
}

impl Event<()> for Timeouter {
    fn init(&mut self, scope: &mut Scope<(), Self>) -> Response {
        self.id = Some(scope.timeout_after(&Duration::new(0, self.milliseconds)));
        // Add another timeout that won't have the opportunity to fire, check it doesn't cause
        // problems
        scope.timeout_after(&Duration::new(0, self.milliseconds + 1));
        Ok(true)
    }
    // Terminate on the first timeout we get
    fn timeout(&mut self, _scope: &mut Scope<(), Self>, id: TimeoutId) -> Response {
        assert_eq!(Some(id), self.id);
        Ok(false)
    }
}

/// Test receiving timeouts
#[test]
fn core_timeout() {
    let mut l: Driver<(), Timeouter> = Driver::new(());
    let handle = l.insert(Timeouter { milliseconds: 0, id: None }).unwrap();
    // It is alive, because it needs the loop to turn to get the timeout
    assert!(l.core.event_alive(handle));
    // We can wait for it to happen. Only one timeout gets called (checked in the event)
    l.run_until_complete(handle).unwrap();
    // Add another one that needs to wait a while and check it actually waited
    assert!(!l.core.event_alive(handle));
    // Add another event
    let handle_wait = l.insert(Timeouter { milliseconds: 500, id: None }).unwrap();
    // The old one didn't get resurrected
    assert!(!l.core.event_alive(handle));
    // The new one lives
    assert!(l.core.event_alive(handle_wait));
    let wait_start = *l.core.now();
    // It should just fire the one event here
    l.run_one().unwrap();
    assert!(!l.core.event_alive(handle_wait));
    assert!(l.core.now() - wait_start >= 500);
    // Check dead-timeouts stats. They got adjusted before the run of the second event.
    assert_eq!(2, l.core.timeouts_inserted);
    assert_eq!(1, l.core.timeouts_fired);
    assert_eq!(1, l.core.timeouts_dead);
    // One dead is still left (the other one would have fired by now, so it's dropped).
    // The one left may be either in the scheduled list or in timouts heap.
    assert_eq!(1, l.core.timeouts.len() + l.core.scheduled.len());
}

#[test]
fn mod_timeout() {
    let mut l: Driver<(), Timeouter> = Driver::new(());
    let handle = l.insert(Timeouter { milliseconds: 0, id: None }).unwrap();
    assert!(l.core.event_alive(handle));
    l.run_until_complete(handle).unwrap();
    assert!(!l.core.event_alive(handle));
    let handle_wait = l.insert(Timeouter { milliseconds: 500, id: None }).unwrap();
    assert!(!l.core.event_alive(handle));
    assert!(l.core.event_alive(handle_wait));
    let wait_start = *l.core.now();
    l.run_one().unwrap();
    assert!(!l.core.event_alive(handle_wait));
    assert!(l.core.now() - wait_start >= 500);
    assert_eq!(2, l.core.timeouts_inserted);
    assert_eq!(1, l.core.timeouts_fired);
    assert_eq!(1, l.core.timeouts_dead);
    assert_eq!(1, l.core.timeouts.len() + l.core.scheduled.len());
}

struct ErrorTimeout;

impl Event<()> for ErrorTimeout {
    fn init(&mut self, scope: &mut Scope<(), Self>) -> Response {
        scope.timeout_after(&Duration::new(0, 0));
        Ok(true)
    }
    // The timeout is not implemented, so the default returns an error
}

/// Test explicit error handling in the loop.
#[test]
fn core_error_handler() {
    let mut l: Driver<(), ErrorTimeout> = Driver::new(());
    let handle = l.insert(ErrorTimeout).unwrap();
    assert!(l.core.event_alive(handle));
    // When we run it, it should terminate the loop with error, as it propagates.
    assert!(matches!(l.run(), Err(Error::DefaultImpl)));
    assert!(!l.core.event_alive(handle));
    // Return some other random error
    l.core.context().handler = Box::new(|_, _| Err(Error::DeadLock));
    // When we run that failing thing through, it changes the error by the handler
    let handle = l.insert(ErrorTimeout).unwrap();
    assert!(matches!(l.run(), Err(Error::DeadLock)));
    assert!(!l.core.event_alive(handle));
    // When we ignore the error, it just lets the event die
    let handle = l.insert(ErrorTimeout).unwrap();
    l.core.context().handler = Box::new(|_, _| Ok(()));
    l.run_until_complete(handle).unwrap();
    assert!(!l.core.event_alive(handle));
    // But if we try to run the loop long-term, it complains it is empty
    l.insert(ErrorTimeout).unwrap();
    run_until_empty(l.run()).unwrap();
}

#[test]
fn mod_error_handler() {
    let mut l: Driver<(), ErrorTimeout> = Driver::new(());
    let handle = l.insert(ErrorTimeout).unwrap();
    assert!(l.core.event_alive(handle));
    assert!(matches!(l.run(), Err(Error::DefaultImpl)));
    assert!(!l.core.event_alive(handle));
    l.core.context().handler = Box::new(|_, _| Err(Error::DeadLock));
    let handle = l.insert(ErrorTimeout).unwrap();
    assert!(matches!(l.run(), Err(Error::DeadLock)));
    assert!(!l.core.event_alive(handle));
    let handle = l.insert(ErrorTimeout).unwrap();
    l.core.context().handler = Box::new(|_, _| Ok(()));
    l.run_until_complete(handle).unwrap();
    assert!(!l.core.event_alive(handle));
    l.insert(ErrorTimeout).unwrap();
    assert!(matches!(l.run(), Err(Error::Empty)));
}

struct Idle;

impl Event<()> for Idle {
    fn init(&mut self, scope: &mut Scope<(), Self>) -> Response {
        scope.timeout_after(&Duration::new(10, 0));
        let handle = scope.handle;
        scope.l.idle(handle);
        Ok(true)
    }

    fn idle(&mut self, scope: &mut Scope<(), Self>) -> Response {
        scope.l.stop();
        Ok(false)
    }
    // The timeout is not implemented and would fail
}

/// Test running tasks when the loop is idle
#[test]
fn core_idle() {
    // If the idle doesn't fire, this would return error due to the timeout not being
    // implemented
    let mut l: Driver<(), Idle> = Driver::new(());
    l.insert(Idle).unwrap();
    l.run().unwrap();
}

#[test]
fn mod_idle() {
    let mut l: Driver<(), Idle> = Driver::new(());
    l.insert(Idle).unwrap();
    l.run().unwrap();
}

/// Waits for itself or for another one from inside of its callback
struct Waiter(Option<Handle>);

impl Event<Vec<&'static str>> for Waiter {
    fn init(&mut self, scope: &mut Scope<Vec<&'static str>, Self>) -> Response {
        let handle = scope.handle;
        if self.0.is_none() {
            // Nobody can wait for itself
            assert!(matches!(run_until_complete(scope.l, handle), Err(Error::DeadLock)));
            scope.timeout_after(&Duration::new(0, 0));
        } else {
            scope.l.idle(handle);
        }
        Ok(true)
    }
    fn timeout(&mut self, scope: &mut Scope<Vec<&'static str>, Self>, _id: TimeoutId) -> Response {
        scope.l.context().context.push("timeout");
        Ok(false)
    }
    fn idle(&mut self, scope: &mut Scope<Vec<&'static str>, Self>) -> Response {
        // A nested run, the stop terminates that one only
        let inner = insert(scope.l, Waiter(None))?;
        run_until_complete(scope.l, self.0.unwrap())?;
        scope.l.context().context.push("waited");
        let outer = scope.l.run();
        assert!(outer);
        scope.l.stop();
        assert!(!scope.l.running());
        scope.l.run_end(outer);
        assert!(scope.l.running());
        assert!(scope.l.event_alive(inner));
        scope.l.stop();
        Ok(false)
    }
}

/// The loop is recursive
#[test]
fn nested_runs() {
    let mut l: Driver<Vec<&'static str>, Waiter> = Driver::new(Vec::new());
    let first = l.insert(Waiter(None)).unwrap();
    let second = l.insert(Waiter(Some(first))).unwrap();
    l.run().unwrap();
    assert!(!l.core.event_alive(first));
    assert!(!l.core.event_alive(second));
    assert_eq!(vec!["timeout", "waited"], l.core.context().context);
}
