//! What host and guest exchange by number.
use vstd::prelude::*;

verus! {

/// Values that are known by number, counted from zero in the order in which they came. No number
/// stands for two of them.
#[derive(Debug)]
pub struct Collection<T> {
    items: Vec<T>,
}

/// Whether there are numbers for `n` values.
pub open spec fn numbers_suffice(n: nat) -> bool {
    n <= 0x1_0000_0000
}

impl<T> View for Collection<T> {
    type V = Seq<T>;

    closed spec fn view(&self) -> Seq<T> {
        self.items@
    }
}

impl<T> Collection<T> {
    /// An empty collection.
    pub fn new() -> (collection: Collection<T>)
        ensures
            collection@ == Seq::<T>::empty(),
    {
        Collection { items: Vec::new() }
    }

    /// Whether there are numbers for `n` more values.
    pub fn has_numbers(&self, n: usize) -> (yes: bool)
        ensures
            yes == numbers_suffice(self@.len() + n as nat),
    {
        self.items.len() as u128 + n as u128 <= 0x1_0000_0000
    }

    /// Adds a value and returns its number, if there is one left.
    pub fn push(&mut self, item: T) -> (handle: Option<u32>)
        ensures
            match handle {
                Some(handle) => handle == old(self)@.len() && final(self)@ == old(self)@.push(item),
                None => !numbers_suffice(old(self)@.len() + 1) && final(self)@ == old(self)@,
            },
    {
        if !self.has_numbers(1) {
            return None;
        }
        let handle: u32 = self.items.len() as u32;
        self.items.push(item);
        Some(handle)
    }

    /// The value with a number, if there is one.
    pub fn get(&self, handle: u32) -> (item: Option<&T>)
        ensures
            match item {
                Some(item) => handle < self@.len() && *item == self@[handle as int],
                None => handle >= self@.len(),
            },
    {
        let i: usize = handle as usize;
        if i < self.items.len() {
            Some(&self.items[i])
        } else {
            None
        }
    }
}

/// All values that host and guest exchange. A literal is held by its text.
#[derive(Debug)]
pub struct Data<T> {
    pub tokenstream: Collection<T>,
    pub string: Collection<String>,
    pub bytes: Collection<Vec<u8>>,
    pub literal: Collection<String>,
}

impl<T> Data<T> {
    /// Nothing exchanged yet.
    pub fn new() -> (data: Data<T>)
        ensures
            data.tokenstream@ == Seq::<T>::empty(),
            data.string@ == Seq::<String>::empty(),
            data.bytes@ == Seq::<Vec<u8>>::empty(),
            data.literal@ == Seq::<String>::empty(),
    {
        Data {
            tokenstream: Collection::new(),
            string: Collection::new(),
            bytes: Collection::new(),
            literal: Collection::new(),
        }
    }
}

/// A value is found under the number that it got, and the earlier ones under theirs.
pub proof fn law_pushed_is_found<T>(before: Seq<T>, item: T)
    requires
        numbers_suffice(before.len() + 1),
    ensures
        ({
            let handle = before.len() as u32;
            let after = before.push(item);
            &&& handle < after.len()
            &&& after[handle as int] == item
            &&& forall|h: u32| h < before.len() ==> after[h as int] == before[h as int]
        }),
{
}

/// There are as many numbers as fit in 32 bits.
pub proof fn law_how_many_numbers(n: nat)
    ensures
        numbers_suffice(n) <==> n <= 0x1_0000_0000,
{
}

} // verus!
