//! Ownership and navigation containers for the parse tree. Strong ownership
//! runs parent to child only; child-to-parent and node-to-root edges are
//! weak back-references, so a node never keeps its ancestors alive, and a
//! lookup of a dropped ancestor fails cleanly instead of crashing.

use vstd::prelude::*;

use std::cell::RefCell;
use std::rc::Rc;
use std::rc::Weak;

use crate::errors::KError;
use crate::errors::KResult;

verus! {

/// Relies on `Rc::clone`: the returned handle points at the same value as
/// the argument.
#[verifier::external_body]
fn rc_clone<T>(rc: &Rc<T>) -> (r: Rc<T>)
    ensures
        r == *rc,
{
    Rc::clone(rc)
}

/// A non-owning, possibly stale handle on a reference-counted value,
/// rebindable through a shared reference. Opaque to the verifier: whether
/// its target is still alive depends on the heap at the moment of each
/// call, so nothing is assumed about any outcome.
#[verifier::external_body]
#[verifier::reject_recursive_types(T)]
pub struct WeakRef<T> {
    cell: RefCell<Weak<T>>,
}

impl<T> WeakRef<T> {
    /// Relies on `Rc::downgrade`: the new handle aims at the given value
    /// without owning it.
    #[verifier::external_body]
    fn new_bound(rc: &Rc<T>) -> WeakRef<T> {
        WeakRef { cell: RefCell::new(Rc::downgrade(rc)) }
    }

    /// Relies on `Weak::new`: the new handle has no target.
    #[verifier::external_body]
    fn new_unbound() -> WeakRef<T> {
        WeakRef { cell: RefCell::new(Weak::new()) }
    }

    /// Relies on `Weak::upgrade`: an owning handle on the target while it is
    /// alive, `None` once it has been dropped.
    #[verifier::external_body]
    fn upgrade(&self) -> Option<Rc<T>> {
        self.cell.borrow().upgrade()
    }

    /// Relies on `Weak::strong_count`: zero exactly when the target is gone
    /// or was never set.
    #[verifier::external_body]
    fn strong_count(&self) -> usize {
        self.cell.borrow().strong_count()
    }

    /// Relies on `Rc::downgrade`: afterwards the handle aims at the given
    /// value.
    #[verifier::external_body]
    fn rebind(&self, rc: &Rc<T>) {
        *self.cell.borrow_mut() = Rc::downgrade(rc);
    }

    /// Relies on `Weak::new`: afterwards the handle has no target.
    #[verifier::external_body]
    fn unbind(&self) {
        *self.cell.borrow_mut() = Weak::new();
    }

    /// Relies on `Weak::clone`: the copy aims at the same target.
    #[verifier::external_body]
    fn duplicate(&self) -> WeakRef<T> {
        WeakRef { cell: RefCell::new(self.cell.borrow().clone()) }
    }
}

/// A possibly-absent owned, reference-counted node. A node starts out
/// unconstructed — holding `None` here — and is populated exactly once
/// during its read, which avoids demanding a default value of types that
/// recursively contain other nodes.
#[derive(Debug)]
pub struct OptRc<T>(Option<Rc<T>>);

impl<T> OptRc<T> {
    /// The held handle, if any.
    pub closed spec fn rc_opt(&self) -> Option<Rc<T>> {
        self.0
    }

    /// A container holding the same node as the given option, or nothing.
    pub fn new(orc: &Option<Rc<T>>) -> (r: Self)
        ensures
            r.rc_opt() == *orc,
    {
        match orc {
            Some(rc) => OptRc(Some(rc_clone(rc))),
            None => OptRc(None),
        }
    }

    /// A container holding the given value as a fresh node.
    pub fn from(v: T) -> (r: Self)
        ensures
            r.rc_opt() matches Some(rc) && rc == v,
    {
        OptRc(Some(Rc::new(v)))
    }

    /// An owning handle on the held node.
    pub fn get(&self) -> (r: Rc<T>)
        requires
            self.rc_opt() is Some,
        ensures
            r == self.rc_opt()->0,
    {
        match &self.0 {
            Some(rc) => rc_clone(rc),
            None => vstd::pervasive::unreached(),
        }
    }

    /// The held option itself.
    pub fn get_value(&self) -> (r: &Option<Rc<T>>)
        ensures
            *r == self.rc_opt(),
    {
        &self.0
    }

    /// True while the node is still unconstructed.
    pub fn is_none(&self) -> (r: bool)
        ensures
            r == (self.rc_opt() is None),
    {
        self.0.is_none()
    }

    /// A mutable borrow of the held handle.
    pub fn get_mut(&mut self) -> (r: &mut Rc<T>)
        requires
            old(self).rc_opt() is Some,
        ensures
            *r == old(self).rc_opt()->0,
            final(self).rc_opt() == Some(*final(r)),
    {
        match &mut self.0 {
            Some(rc) => rc,
            None => vstd::pervasive::unreached(),
        }
    }
}

impl<T> Clone for OptRc<T> {
    /// The clone holds the same node.
    fn clone(&self) -> (r: Self)
        ensures
            r.rc_opt() == self.rc_opt(),
    {
        match &self.0 {
            Some(rc) => OptRc(Some(rc_clone(rc))),
            None => OptRc(None),
        }
    }
}

impl<T> Default for OptRc<T> {
    /// The default container holds nothing.
    fn default() -> (r: Self)
        ensures
            r.rc_opt() is None,
    {
        OptRc(None)
    }
}

/// A weak back-reference from a node to its parent or to the root of the
/// tree: it never keeps its target alive, and resolving it can fail cleanly
/// once the target has been dropped.
#[verifier::reject_recursive_types(T)]
pub struct SharedType<T>(WeakRef<T>);

impl<T> SharedType<T> {
    /// A back-reference aimed at the given node.
    pub fn new(rc: Rc<T>) -> Self {
        SharedType(WeakRef::new_bound(&rc))
    }

    /// A back-reference with no target.
    pub fn empty() -> Self {
        SharedType(WeakRef::new_unbound())
    }

    /// True when the target is gone or was never set.
    pub fn is_empty(&self) -> bool {
        self.0.strong_count() == 0
    }

    /// Resolve the back-reference: the node while it is still alive, or a
    /// `MissingParent` failure once it has been dropped — never a crash.
    pub fn get(&self) -> (r: KResult<OptRc<T>>)
        ensures
            r matches Err(e) ==> e == KError::MissingParent,
            r matches Ok(o) ==> o.rc_opt() is Some,
    {
        match self.0.upgrade() {
            Some(rc) => Ok(OptRc(Some(rc))),
            None => Err(KError::MissingParent),
        }
    }

    /// The raw weak handle.
    pub fn get_value(&self) -> &WeakRef<T> {
        &self.0
    }

    /// Rebind the back-reference: aim it at the node inside an `Ok`, or
    /// clear the target on an `Err`.
    pub fn set(&self, rc: KResult<OptRc<T>>)
        requires
            rc matches Ok(v) ==> v.rc_opt() is Some,
    {
        match rc {
            Ok(v) => {
                let target = v.get();
                self.0.rebind(&target);
            },
            Err(_) => self.0.unbind(),
        }
    }
}

impl<T> Clone for SharedType<T> {
    /// The clone aims at the same target.
    fn clone(&self) -> Self {
        SharedType(self.0.duplicate())
    }
}

/// Dummy node type indicating the absence of a value; root nodes use it to
/// satisfy the parent and root type positions.
#[derive(Debug, Default, Copy, Clone, PartialEq, Eq, Structural)]
pub struct KStructUnit;

} // verus!
