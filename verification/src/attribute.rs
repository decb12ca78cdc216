//! A name/value attribute of a markup start tag, built character by
//! character while tokenizing.

use vstd::prelude::*;
use crate::strutil::push_char;

verus! {

/// Mathematical image of an [`Attribute`]: its name and value as
/// character sequences.
pub struct AttrV {
    pub name: Seq<char>,
    pub value: Seq<char>,
}

#[derive(Debug, Clone, PartialEq, Eq)]
pub struct Attribute {
    name: String,
    value: String,
}

impl View for Attribute {
    type V = AttrV;

    closed spec fn view(&self) -> AttrV {
        AttrV { name: self.name@, value: self.value@ }
    }
}

/// The image of an attribute after one character was added to its name
/// (`is_name` true) or to its value.
pub open spec fn attr_add_char(a: AttrV, c: char, is_name: bool) -> AttrV {
    if is_name {
        AttrV { name: a.name.push(c), value: a.value }
    } else {
        AttrV { name: a.name, value: a.value.push(c) }
    }
}

impl Attribute {
    /// A fresh attribute with empty name and value.
    pub fn new() -> (a: Self)
        ensures
            a@.name == Seq::<char>::empty(),
            a@.value == Seq::<char>::empty(),
    {
        Self { name: String::new(), value: String::new() }
    }

    /// Appends one character to the name (`is_name` true) or to the value.
    pub fn add_char(&mut self, c: char, is_name: bool)
        ensures
            final(self)@ == attr_add_char(old(self)@, c, is_name),
    {
        if is_name {
            push_char(&mut self.name, c);
        } else {
            push_char(&mut self.value, c);
        }
    }

    /// The attribute's name.
    pub fn name(&self) -> (r: String)
        ensures
            r@ == self@.name,
    {
        self.name.clone()
    }

    /// The attribute's value.
    pub fn value(&self) -> (r: String)
        ensures
            r@ == self@.value,
    {
        self.value.clone()
    }

    /// A copy of this attribute, with its contents pinned in the contract.
    pub fn duplicate(&self) -> (r: Self)
        ensures
            r@ == self@,
    {
        Self { name: self.name.clone(), value: self.value.clone() }
    }
}

/// A copy of a vector of attributes, with its image pinned.
pub fn duplicate_attributes(v: &Vec<Attribute>) -> (r: Vec<Attribute>)
    ensures
        r@.len() == v@.len(),
        forall|i: int| 0 <= i < v@.len() ==> r@[i]@ == v@[i]@,
{
    let mut r: Vec<Attribute> = Vec::new();
    let mut i: usize = 0;
    while i < v.len()
        invariant
            i <= v@.len(),
            r@.len() == i,
            forall|j: int| 0 <= j < i ==> r@[j]@ == v@[j]@,
        decreases v@.len() - i,
    {
        r.push(v[i].duplicate());
        i = i + 1;
    }
    r
}

/// The image of a sequence of attributes.
pub open spec fn attrs_view(v: Seq<Attribute>) -> Seq<AttrV> {
    v.map(|i: int, a: Attribute| a@)
}

} // verus!
