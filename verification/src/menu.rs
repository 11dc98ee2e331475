//! Numbered menus: a list of labelled options, chosen by their number from 1 up.
use vstd::prelude::*;

verus! {

/// A menu: labelled options, numbered from 1 in the order given.
pub struct Menu<A> {
    options: Vec<(String, A)>,
}

impl<A> View for Menu<A> {
    type V = Seq<(Seq<char>, A)>;

    closed spec fn view(&self) -> Seq<(Seq<char>, A)> {
        self.options@.map_values(|p: (String, A)| (p.0@, p.1))
    }
}

impl<A> Menu<A> {
    pub fn new(options: Vec<(String, A)>) -> (r: Self)
        ensures
            r@ == options@.map_values(|p: (String, A)| (p.0@, p.1)),
    {
        Menu { options }
    }

    /// The number of options.
    pub fn len(&self) -> (r: usize)
        ensures
            r == self@.len(),
    {
        self.options.len()
    }

    /// The label of the option at position `i` (counted from 0).
    pub fn label(&self, i: usize) -> (r: &str)
        requires
            i < self@.len(),
        ensures
            r@ == self@[i as int].0,
    {
        self.options[i].0.as_str()
    }

    /// The action of the option with number `index` (counted from 1), if there is one.
    pub fn exec(&self, index: usize) -> (r: Option<&A>)
        requires
            index >= 1,
        ensures
            index <= self@.len() ==> r == Some(&self@[index - 1].1),
            index > self@.len() ==> r is None,
    {
        if index - 1 < self.options.len() {
            Some(&self.options[index - 1].1)
        } else {
            None
        }
    }
}

} // verus!
