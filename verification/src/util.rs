//! A value set once after start-up and read afterwards.
use vstd::prelude::*;

verus! {

/// Holds a value once it is set.
pub struct OnceStatic<T> {
    data: Option<T>,
}

impl<T> OnceStatic<T> {
    /// The value, when set.
    pub closed spec fn value(&self) -> Option<T> {
        self.data
    }

    /// Not set yet.
    pub fn new() -> (r: Self)
        ensures
            r.value() is None,
    {
        OnceStatic { data: None }
    }

    /// Set to `value` from the start.
    pub fn from_value(value: T) -> (r: Self)
        ensures
            r.value() == Some(value),
    {
        OnceStatic { data: Some(value) }
    }

    /// Whether the value is set.
    pub fn is_initialized(&self) -> (r: bool)
        ensures
            r == self.value() is Some,
    {
        self.data.is_some()
    }

    /// Sets the value; it may be set only once.
    pub fn init(&mut self, value: T)
        requires
            old(self).value() is None,
        ensures
            final(self).value() == Some(value),
    {
        self.data = Some(value);
    }

    /// The value, which must be set.
    pub fn as_ref(&self) -> (r: &T)
        requires
            self.value() is Some,
        ensures
            *r == self.value()->0,
    {
        match &self.data {
            Some(v) => v,
            None => vstd::pervasive::unreached(),
        }
    }
}

impl<T: Copy> OnceStatic<T> {
    /// A copy of the value, which must be set.
    pub fn get(&self) -> (r: T)
        requires
            self.value() is Some,
        ensures
            r == self.value()->0,
    {
        *self.as_ref()
    }
}

} // verus!
