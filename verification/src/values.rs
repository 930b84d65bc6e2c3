//! Copying and comparing values by what they mean: a duplicate reads exactly
//! as the value it was made from, and two values are the same when they read
//! the same.
use crate::text;
use vstd::prelude::*;

verus! {

broadcast use vstd::string::group_string_axioms;

pub trait Duplicate: DeepView + Sized {
    fn duplicate(&self) -> (r: Self)
        ensures
            r.deep_view() == self.deep_view(),
    ;
}

pub trait Same: DeepView + Sized {
    fn same(&self, other: &Self) -> (r: bool)
        ensures
            r == (self.deep_view() == other.deep_view()),
    ;
}

impl Duplicate for bool {
    fn duplicate(&self) -> (r: bool) {
        *self
    }
}

impl Duplicate for u64 {
    fn duplicate(&self) -> (r: u64) {
        *self
    }
}

impl Duplicate for usize {
    fn duplicate(&self) -> (r: usize) {
        *self
    }
}

impl Duplicate for String {
    fn duplicate(&self) -> (r: String) {
        self.as_str().to_owned()
    }
}

impl Same for bool {
    fn same(&self, other: &bool) -> (r: bool) {
        *self == *other
    }
}

impl Same for u64 {
    fn same(&self, other: &u64) -> (r: bool) {
        *self == *other
    }
}

impl Same for String {
    fn same(&self, other: &String) -> (r: bool) {
        text::same(self.as_str(), other.as_str())
    }
}

impl<T: Duplicate> Duplicate for Option<T> {
    fn duplicate(&self) -> (r: Option<T>) {
        match self {
            Some(value) => Some(value.duplicate()),
            None => None,
        }
    }
}

impl<T: Same> Same for Option<T> {
    fn same(&self, other: &Option<T>) -> (r: bool) {
        match (self, other) {
            (None, None) => true,
            (Some(a), Some(b)) => a.same(b),
            _ => false,
        }
    }
}

impl<A: Duplicate, B: Duplicate> Duplicate for (A, B) {
    fn duplicate(&self) -> (r: (A, B)) {
        (self.0.duplicate(), self.1.duplicate())
    }
}

impl<A: Same, B: Same> Same for (A, B) {
    fn same(&self, other: &(A, B)) -> (r: bool) {
        self.0.same(&other.0) && self.1.same(&other.1)
    }
}

impl<T: Duplicate> Duplicate for Box<T> {
    fn duplicate(&self) -> (r: Box<T>) {
        Box::new((**self).duplicate())
    }
}

impl<T: Same> Same for Box<T> {
    fn same(&self, other: &Box<T>) -> (r: bool) {
        (**self).same(&**other)
    }
}

impl<T: Duplicate> Duplicate for Vec<T> {
    fn duplicate(&self) -> (r: Vec<T>) {
        let mut out: Vec<T> = Vec::new();
        for i in 0..self.len()
            invariant
                out.deep_view() == self.deep_view().take(i as int),
        {
            let ghost so_far = out.deep_view();
            out.push(self[i].duplicate());
            proof {
                assert(out.deep_view() =~= so_far.push(self@[i as int].deep_view()));
                assert(self.deep_view().take(i as int + 1) =~= so_far.push(
                    self.deep_view()[i as int],
                ));
            }
        }
        proof {
            assert(self.deep_view().take(self@.len() as int) =~= self.deep_view());
        }
        out
    }
}

impl<T: Same> Same for Vec<T> {
    fn same(&self, other: &Vec<T>) -> (r: bool) {
        if self.len() != other.len() {
            assert(self.deep_view().len() != other.deep_view().len());
            return false;
        }
        for i in 0..self.len()
            invariant
                self@.len() == other@.len(),
                forall|j: int| 0 <= j < i ==> self.deep_view()[j] == other.deep_view()[j],
        {
            if !self[i].same(&other[i]) {
                assert(self.deep_view()[i as int] != other.deep_view()[i as int]);
                return false;
            }
        }
        proof {
            assert(self.deep_view() =~= other.deep_view());
        }
        true
    }
}

/// Whether a list holds a value that reads the same.
pub fn holds<T: Same>(list: &Vec<T>, value: &T) -> (r: bool)
    ensures
        r == list.deep_view().contains(value.deep_view()),
{
    for i in 0..list.len()
        invariant
            forall|j: int| 0 <= j < i ==> list.deep_view()[j] != value.deep_view(),
    {
        if list[i].same(value) {
            assert(list.deep_view()[i as int] == value.deep_view());
            return true;
        }
    }
    false
}

/// A result read as what it means: a value, or the words of a refusal.
pub open spec fn result_view<T: DeepView>(r: Result<T, String>) -> Result<T::V, Seq<char>> {
    match r {
        Ok(value) => Ok(value.deep_view()),
        Err(words) => Err(words@),
    }
}

} // verus!
