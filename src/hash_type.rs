//! The hash and equality functions that give a table its key semantics.
use vstd::prelude::*;

verus! {

/// A hash-type descriptor: a hash function and an equality on key words.
///
/// Equality must be an equivalence relation, and equal keys must hash alike;
/// `lemma_equivalence` states that obligation. A table calls `hash` once per
/// lookup and compares candidate keys only with `equal`.
pub trait HashType {
    /// What `hash` returns for `key`.
    spec fn spec_hash(&self, key: usize) -> usize;

    /// What `equal` returns for `a` and `b`.
    spec fn spec_equal(&self, a: usize, b: usize) -> bool;

    /// Equality is reflexive, symmetric and transitive, and equal keys have
    /// equal hashes.
    proof fn lemma_equivalence(&self)
        ensures
            forall|a: usize| #[trigger] self.spec_equal(a, a),
            forall|a: usize, b: usize| #[trigger]
                self.spec_equal(a, b) ==> self.spec_equal(b, a),
            forall|a: usize, b: usize, c: usize|
                #![trigger self.spec_equal(a, b), self.spec_equal(b, c)]
                self.spec_equal(a, b) && self.spec_equal(b, c) ==> self.spec_equal(a, c),
            forall|a: usize, b: usize| #[trigger]
                self.spec_equal(a, b) ==> self.spec_hash(a) == self.spec_hash(b),
    ;

    /// The hash of `key`.
    fn hash(&self, key: usize) -> (r: usize)
        ensures
            r == self.spec_hash(key),
    ;

    /// Whether `a` and `b` are the same key.
    fn equal(&self, a: usize, b: usize) -> (r: bool)
        ensures
            r == self.spec_equal(a, b),
    ;
}

/// The default key semantics: a key is its own hash, and keys are equal when
/// they are the same number.
#[derive(Clone, Copy, Debug, PartialEq, Eq, Structural)]
pub struct NumericHash;

impl HashType for NumericHash {
    open spec fn spec_hash(&self, key: usize) -> usize {
        key
    }

    open spec fn spec_equal(&self, a: usize, b: usize) -> bool {
        a == b
    }

    proof fn lemma_equivalence(&self) {
    }

    fn hash(&self, key: usize) -> (r: usize) {
        key
    }

    fn equal(&self, a: usize, b: usize) -> (r: bool) {
        a == b
    }
}

} // verus!
