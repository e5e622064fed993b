use vstd::prelude::*;

verus! {

/// A collaborator that reacts to a selection change; the editor pane is the
/// intended implementor and loads the content of the newly selected profile.
pub trait Observer {
    fn update(&mut self, id: &str);
}

/// A publish/subscribe register: observers sign up once and every `notify`
/// call reaches each of them, synchronously, in registration order.
pub struct Subject<O: Observer> {
    observers: Vec<O>,
}

impl<O: Observer> Subject<O> {
    /// The registered observers, in registration order.
    pub closed spec fn registered(&self) -> Seq<O> {
        self.observers@
    }

    /// How many observers are registered.
    pub open spec fn count(&self) -> nat {
        self.registered().len()
    }

    pub fn new() -> (r: Self)
        ensures
            r.registered() == Seq::<O>::empty(),
    {
        Subject { observers: Vec::new() }
    }

    /// Sign an observer up: it goes to the end of the registration order, and
    /// every earlier registrant is kept — there is no unsubscribe.
    pub fn register(&mut self, observer: O)
        ensures
            final(self).registered() == old(self).registered().push(observer),
    {
        self.observers.push(observer);
    }

    /// Invoke each observer's `update` callback with `id`, in registration
    /// order; no observer is added or dropped by a notification.
    pub fn notify(&mut self, id: &str)
        ensures
            final(self).count() == old(self).count(),
    {
        let mut i: usize = 0;
        while i < self.observers.len()
            invariant
                0 <= i <= self.observers@.len(),
                self.observers@.len() == old(self).count(),
            decreases self.observers@.len() - i,
        {
            self.observers[i].update(id);
            i = i + 1;
        }
    }
}

} // verus!
