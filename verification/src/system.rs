use vstd::prelude::*;

use crate::World;

verus! {

/// A user-supplied hook invoked by [`Systems`] against the store. Each phase
/// has an empty default body, so an implementor overrides only the phases it
/// cares about. No contract constrains a hook: it may do anything to the
/// store that the store's own operations allow.
pub trait System<T> {
    /// Called once per run of [`Systems::init`].
    fn init(&mut self, world: &mut World<T>) {
    }

    /// Called once per run of [`Systems::update`].
    fn update(&mut self, world: &mut World<T>) {
    }

    /// Called once per run of [`Systems::render`].
    fn render(&mut self, world: &mut World<T>) {
    }
}

/// One registered hook, owned as a polymorphic handle.
#[verifier::reject_recursive_types(T)]
pub struct SystemBox<T> {
    /// The hook itself.
    pub hook: Box<dyn System<T>>,
}

/// An ordered sequence of hooks, run sequentially in registration order.
/// There is no scheduling, retry or isolation: a hook's effects on the store
/// stay, whatever later hooks do.
#[verifier::reject_recursive_types(T)]
pub struct Systems<T> {
    /// The registered hooks, in registration order.
    pub systems: Vec<SystemBox<T>>,
}

impl<T> Systems<T> {
    /// An empty runner.
    pub fn new() -> (s: Self)
        ensures
            s.systems@.len() == 0,
    {
        Systems { systems: Vec::new() }
    }

    /// Appends a hook after all previously registered ones.
    pub fn with_system(&mut self, system: Box<dyn System<T>>) -> (r: &mut Self)
        ensures
            (*r).systems@.len() == old(self).systems@.len() + 1,
            *final(self) == *final(r),
    {
        self.push_hook(SystemBox { hook: system });
        self
    }

    /// Appends one wrapped hook.
    fn push_hook(&mut self, b: SystemBox<T>)
        ensures
            final(self).systems@.len() == old(self).systems@.len() + 1,
    {
        self.systems.push(b);
    }

    /// Calls every hook's `init`, in registration order.
    pub fn init(&mut self, world: &mut World<T>)
        ensures
            final(self).systems@.len() == old(self).systems@.len(),
    {
        let n = self.systems.len();
        let mut i: usize = 0;
        while i < n
            invariant
                n == self.systems@.len(),
            decreases n - i,
        {
            self.systems[i].hook.init(world);
            i += 1;
        }
    }

    /// Calls every hook's `update`, in registration order.
    pub fn update(&mut self, world: &mut World<T>)
        ensures
            final(self).systems@.len() == old(self).systems@.len(),
    {
        let n = self.systems.len();
        let mut i: usize = 0;
        while i < n
            invariant
                n == self.systems@.len(),
            decreases n - i,
        {
            self.systems[i].hook.update(world);
            i += 1;
        }
    }

    /// Calls every hook's `render`, in registration order.
    pub fn render(&mut self, world: &mut World<T>)
        ensures
            final(self).systems@.len() == old(self).systems@.len(),
    {
        let n = self.systems.len();
        let mut i: usize = 0;
        while i < n
            invariant
                n == self.systems@.len(),
            decreases n - i,
        {
            self.systems[i].hook.render(world);
            i += 1;
        }
    }
}

} // verus!

