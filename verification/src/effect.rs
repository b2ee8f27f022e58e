//! A stack of text effects of fixed capacity.
//!
//! The stack keeps effects in the order they were pushed, bottom layer
//! first. It is generic in the effect: it stores effects and hands them
//! back, and never looks inside one.

use vstd::prelude::*;

verus! {

/// Maximum effects in a stack.
pub const MAX_EFFECTS: usize = 8;

/// Fixed-capacity effect stack.
#[derive(Debug)]
pub struct EffectStack<E> {
    effects: [Option<E>; 8],
    count: usize,
}

impl<E> View for EffectStack<E> {
    type V = Seq<E>;

    /// The effects on the stack, bottom first.
    closed spec fn view(&self) -> Seq<E> {
        Seq::new(self.count as nat, |i: int| self.effects@[i].unwrap())
    }
}

impl<E> EffectStack<E> {
    #[verifier::type_invariant]
    spec fn filled_below_count(&self) -> bool {
        &&& self.count <= 8
        &&& forall|i: int| 0 <= i < self.count ==> (#[trigger] self.effects@[i]) is Some
    }
}

impl<E: Copy> EffectStack<E> {
    /// An empty stack.
    pub fn new() -> (stack: Self)
        ensures
            stack@ == Seq::<E>::empty(),
    {
        let stack = EffectStack { effects: [None; 8], count: 0 };
        assert(stack@ =~= Seq::<E>::empty());
        stack
    }

    /// Puts an effect on top of the stack and says whether there was room.
    /// A full stack stays as it is.
    pub fn push(&mut self, effect: E) -> (pushed: bool)
        ensures
            pushed == (old(self)@.len() < 8),
            pushed ==> final(self)@ == old(self)@.push(effect),
            !pushed ==> final(self)@ == old(self)@,
    {
        proof {
            use_type_invariant(&*self);
        }
        if self.count < MAX_EFFECTS {
            self.effects[self.count] = Some(effect);
            self.count = self.count + 1;
            assert(self@ =~= old(self)@.push(effect));
            true
        } else {
            false
        }
    }

    /// Number of effects on the stack.
    pub fn len(&self) -> (n: usize)
        ensures
            n == self@.len(),
            n <= 8,
    {
        proof {
            use_type_invariant(self);
        }
        self.count
    }

    /// Whether the stack holds no effect.
    pub fn is_empty(&self) -> (empty: bool)
        ensures
            empty == (self@.len() == 0),
    {
        self.count == 0
    }

    /// The effect at `index`, counted from the bottom, if there is one.
    pub fn get(&self, index: usize) -> (effect: Option<&E>)
        ensures
            index < self@.len() ==> effect == Some(&self@[index as int]),
            index >= self@.len() ==> effect is None,
    {
        proof {
            use_type_invariant(self);
        }
        if index < self.count {
            self.effects[index].as_ref()
        } else {
            None
        }
    }

    /// Takes every effect off the stack.
    pub fn clear(&mut self)
        ensures
            final(self)@ == Seq::<E>::empty(),
    {
        self.count = 0;
        self.effects = [None; 8];
        assert(self@ =~= Seq::<E>::empty());
    }
}

impl<E: Copy> Clone for EffectStack<E> {
    /// A stack with the same effects in the same order.
    fn clone(&self) -> (copy: Self)
        ensures
            copy@ == self@,
    {
        proof {
            use_type_invariant(self);
        }
        let copy = EffectStack { effects: self.effects, count: self.count };
        assert(copy@ =~= self@);
        copy
    }
}

impl<E: Copy> Default for EffectStack<E> {
    /// An empty stack.
    fn default() -> (stack: Self)
        ensures
            stack@ == Seq::<E>::empty(),
    {
        Self::new()
    }
}

} // verus!
