//! Late-initialized cells: a value set once at boot and read ever after.
//!
//! Such cells often live as process-wide statics; here they are ordinary
//! values owned by the kernel context, so initialization and access are
//! checked instead of trusted.  Three flavours survive: a
//! plain cell for copyable values, a cell borrowed by reference, and the
//! historically unchecked cell, which in this form is checked like the
//! others.

use vstd::prelude::*;

verus! {

/// A late-initialized cell for copyable values.
#[derive(Debug)]
pub struct LazyStaticCell<T> {
    /// The value, once set.
    pub val: Option<T>,
}

impl<T: Copy> LazyStaticCell<T> {
    /// An unset cell.
    pub fn default() -> (r: LazyStaticCell<T>)
        ensures
            r.val is None,
    {
        LazyStaticCell { val: None }
    }

    /// Whether the cell was set.
    pub fn is_some(&self) -> (r: bool)
        ensures
            r == (self.val is Some),
    {
        self.val.is_some()
    }

    /// The value; the cell must have been set.
    pub fn get(&self) -> (r: T)
        requires
            self.val is Some,
        ensures
            r == self.val->0,
    {
        self.val.unwrap()
    }

    /// Sets the value, handing an earlier one back.
    pub fn set(&mut self, v: T) -> (prev: Option<T>)
        ensures
            prev == old(self).val,
            final(self).val == Option::Some(v),
    {
        let prev = self.val;
        self.val = Some(v);
        prev
    }

    /// Clears the cell.
    pub fn unset(&mut self)
        ensures
            final(self).val is None,
    {
        self.val = None;
    }
}

/// A late-initialized cell handed out by reference.
#[derive(Debug)]
pub struct LazyStaticRefCell<T> {
    /// The value, once set.
    pub val: Option<T>,
}

impl<T> LazyStaticRefCell<T> {
    /// An unset cell.
    pub fn default() -> (r: LazyStaticRefCell<T>)
        ensures
            r.val is None,
    {
        LazyStaticRefCell { val: None }
    }

    /// Whether the cell was set.
    pub fn is_some(&self) -> (r: bool)
        ensures
            r == (self.val is Some),
    {
        self.val.is_some()
    }

    /// Borrows the value; the cell must have been set.
    pub fn borrow(&self) -> (r: &T)
        requires
            self.val is Some,
        ensures
            *r == self.val->0,
    {
        self.val.as_ref().unwrap()
    }

    /// Borrows the value mutably; the cell must have been set.
    pub fn borrow_mut(&mut self) -> (r: &mut T)
        requires
            old(self).val is Some,
        ensures
            *r == old(self).val->0,
            final(self).val == Option::Some(*final(r)),
    {
        self.val.as_mut().unwrap()
    }

    /// Sets the value, handing an earlier one back.
    pub fn set(&mut self, v: T) -> (prev: Option<T>)
        ensures
            prev == old(self).val,
            final(self).val == Option::Some(v),
    {
        let mut prev = Some(v);
        core::mem::swap(&mut self.val, &mut prev);
        prev
    }

    /// Takes the value out; the cell must have been set.
    pub fn unset(&mut self) -> (r: T)
        requires
            old(self).val is Some,
        ensures
            r == old(self).val->0,
            final(self).val is None,
    {
        let mut v = None;
        core::mem::swap(&mut self.val, &mut v);
        v.unwrap()
    }
}

/// The historically unchecked late-initialized cell; in this form its
/// accesses are checked like the others'.
#[derive(Debug)]
pub struct LazyStaticUnsafeCell<T> {
    /// The value, once set.
    pub val: Option<T>,
}

impl<T> LazyStaticUnsafeCell<T> {
    /// An unset cell.
    pub fn default() -> (r: LazyStaticUnsafeCell<T>)
        ensures
            r.val is None,
    {
        LazyStaticUnsafeCell { val: None }
    }

    /// Whether the cell was set.
    pub fn is_some(&self) -> (r: bool)
        ensures
            r == (self.val is Some),
    {
        self.val.is_some()
    }

    /// A reference to the value; the cell must have been set.
    pub fn get(&self) -> (r: &T)
        requires
            self.val is Some,
        ensures
            *r == self.val->0,
    {
        self.val.as_ref().unwrap()
    }

    /// A mutable reference to the value; the cell must have been set.
    pub fn get_mut(&mut self) -> (r: &mut T)
        requires
            old(self).val is Some,
        ensures
            *r == old(self).val->0,
            final(self).val == Option::Some(*final(r)),
    {
        self.val.as_mut().unwrap()
    }

    /// Sets the value, handing an earlier one back.
    pub fn set(&mut self, v: T) -> (prev: Option<T>)
        ensures
            prev == old(self).val,
            final(self).val == Option::Some(v),
    {
        let mut prev = Some(v);
        core::mem::swap(&mut self.val, &mut prev);
        prev
    }

    /// Takes the value out; the cell must have been set.
    pub fn unset(&mut self) -> (r: T)
        requires
            old(self).val is Some,
        ensures
            r == old(self).val->0,
            final(self).val is None,
    {
        let mut v = None;
        core::mem::swap(&mut self.val, &mut v);
        v.unwrap()
    }
}

} // verus!
