use vstd::prelude::*;

verus! {

/// A value that remembers whether it has been written since the last time
/// its observers were told.
pub struct Var<A> {
    changed: bool,
    value: A,
}

impl<A> Var<A> {
    /// The current value.
    pub closed spec fn value(&self) -> A {
        self.value
    }

    /// Whether the value was written since the last reaction.
    pub closed spec fn is_changed(&self) -> bool {
        self.changed
    }

    pub fn new(value: A) -> (r: Self)
        ensures
            r.value() == value,
            !r.is_changed(),
    {
        Var { changed: false, value }
    }

    pub fn get(&self) -> (r: &A)
        ensures
            *r == self.value(),
    {
        &self.value
    }

    pub fn set(&mut self, value: A)
        ensures
            final(self).value() == value,
            final(self).is_changed(),
    {
        self.value = value;
        self.changed = true;
    }

    /// Replaces the value with what `f` makes of it.
    pub fn modify<F: FnMut(&A) -> A>(&mut self, f: &mut F)
        requires
            call_requires(*old(f), (&old(self).value(),)),
        ensures
            call_ensures(*old(f), (&old(self).value(),), final(self).value()),
            final(self).is_changed(),
    {
        self.value = f(&self.value);
        self.changed = true;
    }

    /// Lets `f` edit the value in place.
    pub fn modify_mut<F: FnMut(&mut A)>(&mut self, f: &mut F)
        requires
            forall|m: &mut A| *m == old(self).value() ==> call_requires(*old(f), (m,)),
        ensures
            exists|m: &mut A|
                *m == old(self).value() && *final(m) == final(self).value() && call_ensures(
                    *old(f),
                    (m,),
                    (),
                ),
            final(self).is_changed(),
    {
        f(&mut self.value);
        self.changed = true;
    }

    /// Hands the value to `on_change` if it was written since the last
    /// reaction, and marks it as seen.
    pub fn react<F: FnMut(&A)>(&mut self, on_change: &mut F)
        requires
            old(self).is_changed() ==> call_requires(*old(on_change), (&old(self).value(),)),
        ensures
            old(self).is_changed() ==> call_ensures(*old(on_change), (&old(self).value(),), ()),
            !old(self).is_changed() ==> *final(on_change) == *old(on_change),
            final(self).value() == old(self).value(),
            !final(self).is_changed(),
    {
        if self.changed {
            on_change(&self.value);
            self.changed = false;
        }
    }

    /// The value and the changed flag, for callers that update both by hand.
    pub fn as_components(&mut self) -> (r: (&mut A, &mut bool))
        ensures
            *r.0 == old(self).value(),
            *r.1 == old(self).is_changed(),
            final(self).value() == *final(r.0),
            final(self).is_changed() == *final(r.1),
    {
        (&mut self.value, &mut self.changed)
    }
}

} // verus!
