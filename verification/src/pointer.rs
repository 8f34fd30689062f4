//! How the long-lived domain is shared among the sets that refer to it.
//!
//! A family names one pointer type. Sharing a pointer is cheap and never
//! copies what it points to.
use std::marker::PhantomData;
use std::rc::Rc;
use std::sync::Arc;
use vstd::prelude::*;

verus! {

/// A way of holding a `T` that many owners read and none writes.
pub trait PointerFamily<T>: Sized {
    /// The handle that each owner keeps.
    type Pointer;

    /// What a handle points to.
    spec fn target(pointer: &Self::Pointer) -> T;

    /// Another handle to the same value.
    fn share(pointer: &Self::Pointer) -> (shared: Self::Pointer)
        ensures
            Self::target(&shared) == Self::target(pointer),
    ;

    /// Reads through a handle.
    fn get<'a>(pointer: &'a Self::Pointer) -> (value: &'a T)
        ensures
            *value == Self::target(pointer),
    ;
}

/// Sharing by reference count within one thread.
pub struct RcFamily;

/// Sharing by atomic reference count.
pub struct ArcFamily;

/// Sharing by plain borrow, for a value that outlives every set.
pub struct RefFamily<'a>(pub PhantomData<&'a ()>);

impl<T> PointerFamily<T> for RcFamily {
    type Pointer = Rc<T>;

    open spec fn target(pointer: &Rc<T>) -> T {
        **pointer
    }

    fn share(pointer: &Rc<T>) -> (shared: Rc<T>) {
        pointer.clone()
    }

    fn get<'a>(pointer: &'a Rc<T>) -> (value: &'a T) {
        &**pointer
    }
}

impl<T> PointerFamily<T> for ArcFamily {
    type Pointer = Arc<T>;

    open spec fn target(pointer: &Arc<T>) -> T {
        **pointer
    }

    fn share(pointer: &Arc<T>) -> (shared: Arc<T>) {
        pointer.clone()
    }

    fn get<'a>(pointer: &'a Arc<T>) -> (value: &'a T) {
        &**pointer
    }
}

impl<'a, T: 'a> PointerFamily<T> for RefFamily<'a> {
    type Pointer = &'a T;

    open spec fn target(pointer: &&'a T) -> T {
        **pointer
    }

    fn share(pointer: &&'a T) -> (shared: &'a T) {
        *pointer
    }

    fn get<'b>(pointer: &'b &'a T) -> (value: &'b T) {
        *pointer
    }
}

} // verus!
