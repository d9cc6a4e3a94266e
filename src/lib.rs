//! Layered configuration: a configuration value is overridden, field by field
//! and through nested groups, by options values whose leaves are each present
//! or absent.
use vstd::prelude::*;

pub mod cli;
pub mod schema;
pub mod tree;

pub use tree::{update, Node, OptNode, Overlay, Tree};

use tree::{fits, merged};

verus! {

/// A configuration type that options values of a parallel type can override.
pub trait ClapSerde: Sized {
    /// The same shape as the configuration, with optional leaves.
    type Opt;

    /// The options value fits the shape of this configuration value.
    spec fn accepts(&self, other: &Self::Opt) -> bool;

    /// `result` is this value with `other` merged into it.
    spec fn merges_to(&self, other: &Self::Opt, result: &Self) -> bool;

    /// Merges in place: present leaves of `other` replace those of `self`,
    /// absent ones leave them as they are.
    fn update(&mut self, other: Self::Opt)
        requires
            old(self).accepts(&other),
        ensures
            old(self).merges_to(&other, final(self)),
    ;

    /// Merges `other` into `self` and returns the result.
    fn merge(self, other: Self::Opt) -> (r: Self)
        requires
            self.accepts(&other),
        ensures
            self.merges_to(&other, &r),
    {
        let mut s = self;
        s.update(other);
        s
    }
}

impl<V> ClapSerde for Node<V> {
    type Opt = OptNode<V>;

    open spec fn accepts(&self, other: &OptNode<V>) -> bool {
        fits(self@, other@)
    }

    open spec fn merges_to(&self, other: &OptNode<V>, result: &Node<V>) -> bool {
        result@ == merged(self@, other@)
    }

    fn update(&mut self, other: OptNode<V>) {
        tree::update(self, other);
    }
}

} // verus!
