//! A cell the content of which can be taken out for a while.
use vstd::prelude::*;

use crate::handle::Handle;

verus! {

/// Holds a value that can be stolen and has to be returned later on.
///
/// We need to pass both the event and the event loop as mutable references. But that is a problem,
/// since one lives inside the other. So the event is taken out of its cell for the length of the
/// callback, which locks the cell from further accesses, and it is returned back afterwards.
///
/// The value may be returned only to the cell it was taken from. To tell the cells apart, each has
/// an owner, which its value carries with it.
pub struct StolenCell<T> {
    data: Option<T>,
    owner: Ghost<Handle>,
}

/// The value taken out of a cell.
pub struct StolenData<T> {
    data: T,
    owner: Ghost<Handle>,
}

impl<T> View for StolenCell<T> {
    type V = Option<T>;

    closed spec fn view(&self) -> Option<T> {
        self.data
    }
}

impl<T> View for StolenData<T> {
    type V = T;

    closed spec fn view(&self) -> T {
        self.data
    }
}

impl<T> StolenCell<T> {
    /// Whose cell it is.
    pub closed spec fn owner(&self) -> Handle {
        self.owner@
    }

    /// Creates a cell with the value inside.
    ///
    /// Nobody knows the owner, so no value of another cell can be returned to it.
    pub fn new(data: T) -> (cell: StolenCell<T>)
        ensures
            cell@ == Some(data),
    {
        StolenCell { data: Some(data), owner: Ghost(arbitrary()) }
    }

    /// Creates a cell of the given owner with the value inside.
    pub(crate) fn owned(data: T, owner: Ghost<Handle>) -> (cell: StolenCell<T>)
        ensures
            cell@ == Some(data),
            cell.owner() == owner@,
    {
        StolenCell { data: Some(data), owner }
    }

    /// Destroys the cell and returns the value in it.
    pub fn into_inner(self) -> (data: T)
        requires
            self@ is Some,
        ensures
            data == self@->0,
    {
        self.data.unwrap()
    }

    /// Takes the value out. The cell stays locked until the value is returned.
    pub fn steal(&mut self) -> (data: StolenData<T>)
        requires
            old(self)@ is Some,
        ensures
            data@ == old(self)@->0,
            data.owner() == old(self).owner(),
            final(self)@ is None,
            final(self).owner() == old(self).owner(),
    {
        StolenData { data: self.data.take().unwrap(), owner: self.owner }
    }

    /// Returns the value back, to the cell it was taken from.
    pub fn unsteal(&mut self, data: StolenData<T>)
        requires
            old(self)@ is None,
            data.owner() == old(self).owner(),
        ensures
            final(self)@ == Some(data@),
            final(self).owner() == old(self).owner(),
    {
        self.data = Some(data.data);
    }

    /// Is the value taken out right now?
    pub fn stolen(&self) -> (r: bool)
        ensures
            r == (self@ is None),
    {
        self.data.is_none()
    }
}

impl<T> StolenData<T> {
    /// Whose cell it was taken from.
    pub closed spec fn owner(&self) -> Handle {
        self.owner@
    }

    /// Access the value that is taken out.
    pub fn as_mut(&mut self) -> (data: &mut T)
        ensures
            *data == old(self)@,
            final(self)@ == *final(data),
            final(self).owner() == old(self).owner(),
    {
        &mut self.data
    }
}

} // verus!
