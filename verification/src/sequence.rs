//! Adapters consumed by the combinator algebra: a finite ordered run of
//! tokens (a single token or a multi-token literal) behind one access
//! capability, and a sink that collects successive parser outputs.

use std::collections::HashSet;
use std::hash::Hash;
use vstd::prelude::*;

verus! {

/// A fixed, finite, ordered run of tokens. Both a single token and a
/// multi-token literal satisfy it, so literal-matching primitives are
/// agnostic to literal length.
pub trait OrderedSequence {
    /// The token the run is made of.
    type Token: Copy;

    /// The run itself, as a mathematical sequence.
    spec fn seq_model(&self) -> Seq<Self::Token>;

    /// The number of tokens in the run.
    fn length(&self) -> (r: usize)
        ensures
            r == self.seq_model().len(),
    ;

    /// The token at position `i` of the run.
    fn token_at(&self, i: usize) -> (r: Self::Token)
        requires
            i < self.seq_model().len(),
        ensures
            r == self.seq_model()[i as int],
    ;
}

impl<'seq> OrderedSequence for &'seq [char] {
    type Token = char;

    open spec fn seq_model(&self) -> Seq<char> {
        (*self)@
    }

    fn length(&self) -> (r: usize) {
        self.len()
    }

    fn token_at(&self, i: usize) -> (r: char) {
        *vstd::slice::slice_index_get(*self, i)
    }
}

impl<'seq> OrderedSequence for &'seq [u8] {
    type Token = u8;

    open spec fn seq_model(&self) -> Seq<u8> {
        (*self)@
    }

    fn length(&self) -> (r: usize) {
        self.len()
    }

    fn token_at(&self, i: usize) -> (r: u8) {
        *vstd::slice::slice_index_get(*self, i)
    }
}

impl OrderedSequence for char {
    type Token = char;

    open spec fn seq_model(&self) -> Seq<char> {
        seq![*self]
    }

    fn length(&self) -> (r: usize) {
        1
    }

    fn token_at(&self, i: usize) -> (r: char) {
        *self
    }
}

impl OrderedSequence for u8 {
    type Token = u8;

    open spec fn seq_model(&self) -> Seq<u8> {
        seq![*self]
    }

    fn length(&self) -> (r: usize) {
        1
    }

    fn token_at(&self, i: usize) -> (r: u8) {
        *self
    }
}

/// Relies on `String::push`: it appends the given `char` to the end of the
/// string, so the view grows by exactly that character.
#[verifier::external_body]
fn string_push(s: &mut String, c: char)
    ensures
        final(s)@ == old(s)@.push(c),
{
    s.push(c)
}

/// A sink that collects successive parser outputs. It starts empty and is
/// filled by `push` in consumption order.
///
/// Each implementation chooses an abstract `Model` of its contents (an
/// ordered sequence for appending sinks, a set for deduplicating ones) and
/// describes what one push does to that model.
pub trait Container {
    /// What the sink collects.
    type Item;

    /// The abstraction its contents are described by.
    type Model;

    /// The abstract contents of the sink.
    spec fn model(&self) -> Self::Model;

    /// The abstract contents of a sink that holds nothing.
    spec fn empty_model() -> Self::Model;

    /// The abstract contents after one more item is pushed.
    spec fn push_model(m: Self::Model, item: Self::Item) -> Self::Model;

    /// Whether the model is known to track the concrete contents. It fails
    /// to hold only where the standard library gives no unconditional
    /// account of the backing collection, as for hash sets whose key type
    /// has no hashing model.
    spec fn reliable() -> bool;

    /// A sink holding nothing.
    fn empty() -> (r: Self) where Self: Sized
        ensures
            Self::reliable() ==> r.model() == Self::empty_model(),
    ;

    /// Insert one item.
    fn push(&mut self, item: Self::Item)
        ensures
            Self::reliable() ==> final(self).model() == Self::push_model(
                old(self).model(),
                item,
            ),
    ;
}

/// The ordered accumulator: items are appended in consumption order.
impl<T> Container for Vec<T> {
    type Item = T;

    type Model = Seq<T>;

    open spec fn model(&self) -> Seq<T> {
        self@
    }

    open spec fn empty_model() -> Seq<T> {
        Seq::empty()
    }

    open spec fn push_model(m: Seq<T>, item: T) -> Seq<T> {
        m.push(item)
    }

    open spec fn reliable() -> bool {
        true
    }

    fn empty() -> (r: Self) {
        Vec::new()
    }

    fn push(&mut self, item: T) {
        self.push(item);
    }
}

/// The text buffer: characters are appended in consumption order.
impl Container for String {
    type Item = char;

    type Model = Seq<char>;

    open spec fn model(&self) -> Seq<char> {
        self@
    }

    open spec fn empty_model() -> Seq<char> {
        Seq::empty()
    }

    open spec fn push_model(m: Seq<char>, item: char) -> Seq<char> {
        m.push(item)
    }

    open spec fn reliable() -> bool {
        true
    }

    fn empty() -> (r: Self) {
        String::new()
    }

    fn push(&mut self, item: char) {
        string_push(self, item);
    }
}

/// The discard sink: every push is a no-op.
impl Container for () {
    type Item = char;

    type Model = ();

    open spec fn model(&self) -> () {
        ()
    }

    open spec fn empty_model() -> () {
        ()
    }

    open spec fn push_model(m: (), item: char) -> () {
        ()
    }

    open spec fn reliable() -> bool {
        true
    }

    fn empty() -> (r: Self) {
    }

    fn push(&mut self, item: char) {
    }
}

/// The deduplicating accumulator: its contents form a set. The standard
/// library's account of hash sets is conditional on the key type obeying the
/// hashing model, which is what `reliable` records.
impl<K> Container for HashSet<K> where K: Eq + Hash {
    type Item = K;

    type Model = Set<K>;

    open spec fn model(&self) -> Set<K> {
        self@
    }

    open spec fn empty_model() -> Set<K> {
        Set::empty()
    }

    open spec fn push_model(m: Set<K>, item: K) -> Set<K> {
        m.insert(item)
    }

    open spec fn reliable() -> bool {
        vstd::std_specs::hash::obeys_key_model::<K>()
            && vstd::std_specs::hash::builds_valid_hashers::<std::hash::RandomState>()
    }

    fn empty() -> (r: Self) {
        HashSet::new()
    }

    fn push(&mut self, item: K) {
        self.insert(item);
    }
}

} // verus!
