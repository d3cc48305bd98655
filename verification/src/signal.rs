//! Unix signals and the ends of child processes.
use vstd::prelude::*;

use nix::sys::signal::SigSet;
use nix::Error as NixError;

use crate::error::Error;

verus! {

/// How many signals there are, including the number zero that stands for none.
pub const NSIG: i32 = 32;

/// The set of signals of the `nix` crate.
#[verifier::external_type_specification]
#[verifier::external_body]
pub struct ExSigSet(SigSet);

/// The numbers of the signals in the set.
pub uninterp spec fn signals_in(set: SigSet) -> Set<i32>;

/// The error a number that isn't of a signal is refused with.
pub uninterp spec fn signal_refusal(number: i32) -> NixError;

/// Checks the number of a signal.
///
/// This calls `nix::sys::signal::Signal::from_c_int`. It claims that the numbers from one up to
/// `NSIG`, not including it, are those of signals and are kept as they are, and that any other
/// number is refused, always with the same error. (It is the one about an invalid argument, but as
/// errors can't be looked into here, it is only given a name.)
#[verifier::external_body]
fn signal_from_c_int(number: i32) -> (r: Result<i32, NixError>)
    ensures
        r == (if 0 < number < NSIG {
            Ok(number)
        } else {
            Err(signal_refusal(number))
        }),
{
    nix::sys::signal::Signal::from_c_int(number).map(|signal| signal as i32)
}

/// The number of the signal a process gets when its child terminates.
///
/// This takes `nix::sys::signal::Signal::SIGCHLD`. It claims that it is a number of a signal. Which
/// one it is depends on the machine and is not stated.
#[verifier::external_body]
fn sigchld_number() -> (number: i32)
    ensures
        0 < number < NSIG,
{
    nix::sys::signal::Signal::SIGCHLD as i32
}

/// Creates a set of signals.
///
/// This calls `nix::sys::signal::SigSet::empty`. It claims there is no signal in the set.
#[verifier::external_body]
fn sigset_empty() -> (set: SigSet)
    ensures
        signals_in(set) == Set::<i32>::empty(),
{
    SigSet::empty()
}

/// Adds a signal to the set.
///
/// This calls `nix::sys::signal::SigSet::add`. It claims that nothing else in the set changes.
#[verifier::external_body]
fn sigset_add(set: &mut SigSet, number: i32)
    requires
        0 < number < NSIG,
    ensures
        signals_in(*final(set)) == signals_in(*old(set)).insert(number),
{
    set.add(nix::sys::signal::Signal::from_c_int(number).unwrap())
}

/// Removes a signal from the set.
///
/// This calls `nix::sys::signal::SigSet::remove`. It claims that nothing else in the set changes.
#[verifier::external_body]
fn sigset_remove(set: &mut SigSet, number: i32)
    requires
        0 < number < NSIG,
    ensures
        signals_in(*final(set)) == signals_in(*old(set)).remove(number),
{
    set.remove(nix::sys::signal::Signal::from_c_int(number).unwrap())
}

/// Is the signal in the set?
///
/// This calls `nix::sys::signal::SigSet::contains`. It claims that the answer is about that signal.
#[verifier::external_body]
fn sigset_contains(set: &SigSet, number: i32) -> (r: bool)
    requires
        0 < number < NSIG,
    ensures
        r == signals_in(*set).contains(number),
{
    set.contains(nix::sys::signal::Signal::from_c_int(number).unwrap())
}

/// A unix signal.
#[derive(Debug, Clone, Copy, PartialEq, Eq, Hash, Ord, PartialOrd, Structural)]
pub struct Signal {
    number: i32,
}

impl Signal {
    #[verifier::type_invariant]
    spec fn inv(self) -> bool {
        0 < self.number < NSIG
    }

    /// The number of the signal.
    pub closed spec fn num(self) -> i32 {
        self.number
    }

    /// The signal with the given number, if there is such.
    pub fn from_c_int(number: i32) -> (r: Result<Signal, Error>)
        ensures
            r is Ok <==> 0 < number < NSIG,
            r is Ok ==> r->Ok_0.num() == number,
            r is Err ==> r->Err_0 == Error::Nix(signal_refusal(number)),
    {
        match signal_from_c_int(number) {
            Ok(number) => Ok(Signal { number }),
            Err(e) => Err(Error::from(e)),
        }
    }

    /// The number of the signal.
    pub fn number(&self) -> (number: i32)
        ensures
            number == self.num(),
            0 < number < NSIG,
    {
        proof {
            use_type_invariant(self);
        }
        self.number
    }

    /// The signal a process gets when its child terminates.
    ///
    /// Its number is the one of the machine this runs on.
    pub fn sigchld() -> (signal: Signal)
        ensures
            0 < signal.num() < NSIG,
    {
        Signal { number: sigchld_number() }
    }
}

/// A signal is told by its number.
pub proof fn lemma_signal_num(a: Signal, b: Signal)
    ensures
        a == b <==> a.num() == b.num(),
{
}

/// The signals the loop takes care of.
///
/// The view is the set of their numbers.
pub struct SignalMask {
    set: SigSet,
}

impl View for SignalMask {
    type V = Set<i32>;

    closed spec fn view(&self) -> Set<i32> {
        signals_in(self.set)
    }
}

impl SignalMask {
    /// A mask without any signals.
    pub fn empty() -> (mask: SignalMask)
        ensures
            mask@ == Set::<i32>::empty(),
    {
        SignalMask { set: sigset_empty() }
    }

    /// Add the signal.
    pub fn add(&mut self, signal: Signal)
        ensures
            final(self)@ == old(self)@.insert(signal.num()),
    {
        sigset_add(&mut self.set, signal.number());
    }

    /// Remove the signal.
    pub fn remove(&mut self, signal: Signal)
        ensures
            final(self)@ == old(self)@.remove(signal.num()),
    {
        sigset_remove(&mut self.set, signal.number());
    }

    /// Is the signal there?
    pub fn contains(&self, signal: Signal) -> (r: bool)
        ensures
            r == self@.contains(signal.num()),
    {
        sigset_contains(&self.set, signal.number())
    }

    /// The set to be handed to the system.
    pub fn sigset(&self) -> (set: &SigSet)
        ensures
            signals_in(*set) == self@,
    {
        &self.set
    }
}

/// How did the child exit?
#[derive(Debug, Clone, Copy, PartialEq, Eq, Structural)]
pub enum ChildExit {
    /// A normal exit, with the given exit code
    Exited(i8),
    /// Dead caused by a signal
    Signaled(Signal),
}

/// What the system answers when asked for a signal that arrived.
#[derive(Debug)]
pub enum SignalRead {
    /// There are no more signals for now
    Nothing,
    /// The signal with the number
    Number(i32),
    /// Asking failed
    Failed(NixError),
}

/// What to do about signals next.
#[derive(Debug, Clone, Copy, PartialEq, Eq, Structural)]
pub enum SignalStep {
    /// All signals were read.
    Stop,
    /// Read another one.
    More,
    /// The children are to be gathered before the signal is delivered. Then read another one.
    Children(Signal),
}

/// What the system answers when asked for a terminated child.
#[derive(Debug)]
pub enum ChildStatus {
    /// No more children terminated for now
    Again,
    /// There are children, but they all still run
    StillAlive,
    /// There are no children at all
    NoChildren,
    /// Asking failed for another reason
    Failed(NixError),
    /// The child with the given PID terminated
    Exit(i32, ChildExit),
    /// Something else happened to a child
    Other,
}

} // verus!
