//! What a registry needs of the values it files: a mathematical model, a key
//! taken from the model, and a way to copy a value out.

use vstd::prelude::*;

verus! {

/// A value that can be filed under a string key.
pub trait Record: Sized {
    /// The mathematical value that contracts speak of.
    type Model;

    /// The model of this record.
    spec fn model(&self) -> Self::Model;

    /// The key under which a record with this model is filed.
    spec fn key_of(model: Self::Model) -> Seq<char>;

    /// The record's key.
    fn key(&self) -> (key: &String)
        ensures
            key@ == Self::key_of(self.model()),
    ;

    /// An independent copy with the same model.
    fn duplicate(&self) -> (copy: Self)
        ensures
            copy.model() == self.model(),
    ;
}

/// A string files under itself.
impl Record for String {
    type Model = Seq<char>;

    open spec fn model(&self) -> Seq<char> {
        self@
    }

    open spec fn key_of(model: Seq<char>) -> Seq<char> {
        model
    }

    fn key(&self) -> (key: &String) {
        self
    }

    fn duplicate(&self) -> (copy: Self) {
        self.clone()
    }
}

/// The models of a sequence of records, in the same order.
pub open spec fn models<T: Record>(items: Seq<T>) -> Seq<T::Model> {
    Seq::new(items.len(), |i: int| items[i].model())
}

/// Copies of all the records, in the same order.
pub fn duplicate_all<T: Record>(items: &Vec<T>) -> (copies: Vec<T>)
    ensures
        models(copies@) == models(items@),
{
    let mut copies: Vec<T> = Vec::new();
    let mut i: usize = 0;
    while i < items.len()
        invariant
            i <= items@.len(),
            copies@.len() == i,
            forall|j: int| 0 <= j < i ==> (#[trigger] copies@[j]).model() == items@[j].model(),
        decreases items@.len() - i,
    {
        copies.push(items[i].duplicate());
        i += 1;
    }
    assert(models(copies@) =~= models(items@));
    copies
}

/// A copy of an optional string.
pub fn duplicate_text(text: &Option<String>) -> (copy: Option<String>)
    ensures
        text_model(copy) == text_model(*text),
{
    match text {
        Some(s) => Some(s.clone()),
        None => None,
    }
}

/// The model of an optional string.
pub open spec fn text_model(text: Option<String>) -> Option<Seq<char>> {
    match text {
        Some(s) => Some(s@),
        None => None,
    }
}

} // verus!
