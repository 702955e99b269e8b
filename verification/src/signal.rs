//! The single-slot signals of `embassy_sync` that carry the latest value from
//! one task to another, and what the library relies on of them.
//!
//! A `Signal` holds at most one value: `signal` overwrites it, `try_take`
//! removes it, `signaled` tells whether one is held.  Its methods take `&self`
//! and lock an internal mutex.  Each signal here sits in a private field and
//! is reached only through `&mut` access to its holder, so between two calls
//! nothing but these methods changes what it holds.

use embassy_sync::blocking_mutex::raw::NoopRawMutex;
use embassy_sync::signal::Signal;
use vstd::prelude::*;

verus! {

/// The signal that carries a target number chosen on the serial screen.
#[verifier::external_body]
pub struct TargetSignal {
    inner: Signal<NoopRawMutex, u8>,
}

/// The signal that carries the latest ball position seen by the camera.
#[verifier::external_body]
pub struct PositionSignal {
    inner: Signal<NoopRawMutex, (u16, u16)>,
}

/// What a target signal holds: empty, or the one value signaled last.
pub uninterp spec fn target_slot(s: TargetSignal) -> Seq<u8>;

/// What a position signal holds: empty, or the one value signaled last.
pub uninterp spec fn position_slot(s: PositionSignal) -> Seq<(u16, u16)>;

impl TargetSignal {
    /// `Signal::new`: a new signal holds nothing.
    #[verifier::external_body]
    pub(crate) fn new() -> (s: TargetSignal)
        ensures
            target_slot(s) == Seq::<u8>::empty(),
    {
        TargetSignal { inner: Signal::new() }
    }

    /// `Signal::signal`: afterwards the signal holds exactly `v`, whatever it
    /// held before.
    #[verifier::external_body]
    pub(crate) fn signal(&mut self, v: u8)
        ensures
            target_slot(*final(self)) == seq![v],
    {
        self.inner.signal(v)
    }

    /// `Signal::try_take`: hands out the held value, if any, and leaves the
    /// signal empty.
    #[verifier::external_body]
    pub(crate) fn try_take(&mut self) -> (r: Option<u8>)
        ensures
            target_slot(*old(self)).len() == 0 ==> r is None,
            target_slot(*old(self)).len() > 0 ==> r == Some(target_slot(*old(self))[0]),
            target_slot(*final(self)) == Seq::<u8>::empty(),
    {
        self.inner.try_take()
    }
}

impl PositionSignal {
    /// `Signal::new`: a new signal holds nothing.
    #[verifier::external_body]
    pub(crate) fn new() -> (s: PositionSignal)
        ensures
            position_slot(s) == Seq::<(u16, u16)>::empty(),
    {
        PositionSignal { inner: Signal::new() }
    }

    /// `Signal::signal`: afterwards the signal holds exactly `v`, whatever it
    /// held before.
    #[verifier::external_body]
    pub(crate) fn signal(&mut self, v: (u16, u16))
        ensures
            position_slot(*final(self)) == seq![v],
    {
        self.inner.signal(v)
    }

    /// `Signal::signaled`: whether the signal holds a value; it is left as it
    /// was.
    #[verifier::external_body]
    pub(crate) fn signaled(&mut self) -> (r: bool)
        ensures
            r == (position_slot(*old(self)).len() > 0),
            position_slot(*final(self)) == position_slot(*old(self)),
    {
        self.inner.signaled()
    }

    /// `Signal::try_take`: hands out the held value, if any, and leaves the
    /// signal empty.
    #[verifier::external_body]
    pub(crate) fn try_take(&mut self) -> (r: Option<(u16, u16)>)
        ensures
            position_slot(*old(self)).len() == 0 ==> r is None,
            position_slot(*old(self)).len() > 0 ==> r == Some(position_slot(*old(self))[0]),
            position_slot(*final(self)) == Seq::<(u16, u16)>::empty(),
    {
        self.inner.try_take()
    }
}

} // verus!
