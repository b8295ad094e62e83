//! A pair of buffers with a role flag: one buffer is the front, the other
//! the back, and `swap` exchanges the roles without moving the data.

use vstd::prelude::*;

verus! {

/// Two buffers of the same type and a flag saying which one currently plays
/// the front role.
pub struct DoubleBuffered<T> {
    pub first: T,
    pub second: T,
    /// False: `first` is the front. True: `second` is the front.
    pub swapped: bool,
}

impl<T> DoubleBuffered<T> {
    /// The buffer currently playing the front role.
    pub open spec fn spec_front(&self) -> T {
        if self.swapped {
            self.second
        } else {
            self.first
        }
    }

    /// The buffer currently playing the back role.
    pub open spec fn spec_back(&self) -> T {
        if self.swapped {
            self.first
        } else {
            self.second
        }
    }

    /// Read access to the front buffer.
    pub fn front(&self) -> (r: &T)
        ensures
            *r == self.spec_front(),
    {
        if self.swapped {
            &self.second
        } else {
            &self.first
        }
    }

    /// Write access to the front buffer; the back buffer and the role flag
    /// are untouched.
    pub fn front_mut(&mut self) -> (r: &mut T)
        ensures
            *r == old(self).spec_front(),
            final(self).spec_front() == *final(r),
            final(self).spec_back() == old(self).spec_back(),
            final(self).swapped == old(self).swapped,
    {
        if self.swapped {
            &mut self.second
        } else {
            &mut self.first
        }
    }

    /// Write access to both buffers at once, front first.
    pub fn buffers_mut(&mut self) -> (r: (&mut T, &mut T))
        ensures
            *r.0 == old(self).spec_front(),
            *r.1 == old(self).spec_back(),
            final(self).spec_front() == *final(r.0),
            final(self).spec_back() == *final(r.1),
            final(self).swapped == old(self).swapped,
    {
        if self.swapped {
            (&mut self.second, &mut self.first)
        } else {
            (&mut self.first, &mut self.second)
        }
    }

    /// Exchanges the front and back roles.
    pub fn swap(&mut self)
        ensures
            final(self).spec_front() == old(self).spec_back(),
            final(self).spec_back() == old(self).spec_front(),
            final(self).first == old(self).first,
            final(self).second == old(self).second,
    {
        self.swapped = !self.swapped;
    }
}

} // verus!
