//! Extracting the one element a collection is expected to hold.

use vstd::prelude::*;

verus! {

/// Why a collection did not hold exactly one item.
#[derive(Debug)]
pub enum SingleIterError<T> {
    /// The collection was empty.
    NoItem,
    /// The collection held two or more items; the first two are returned.
    MultipleItems {
        /// The first item.
        first: T,
        /// The second item.
        second: T,
    },
}

impl<T> SingleIterError<T> {
    /// A human-readable description of the error.
    pub fn message(&self) -> String {
        match self {
            SingleIterError::NoItem => String::from_str("iterator returned no item"),
            SingleIterError::MultipleItems { .. } => String::from_str(
                "iterator returned more than one item",
            ),
        }
    }
}

/// Collections that can yield their single item.
pub trait SingleIterExt<T>: Sized {
    /// Takes the collection's one item, or says why there is no such thing.
    fn single(self) -> (r: Result<T, SingleIterError<T>>);
}

impl<T> SingleIterExt<T> for Vec<T> {
    /// Takes the vector's one item: the empty vector and a vector of two or
    /// more items are refused.
    fn single(self) -> (r: Result<T, SingleIterError<T>>)
        ensures
            self@.len() == 0 ==> (r matches Err(e) && e is NoItem),
            self@.len() == 1 ==> (r matches Ok(v) && v == self@[0]),
            self@.len() >= 2 ==> (r matches Err(e) && (e matches SingleIterError::MultipleItems {
                first,
                second,
            } && first == self@[0] && second == self@[1])),
    {
        let mut items = self;
        if items.len() == 0 {
            Err(SingleIterError::NoItem)
        } else if items.len() == 1 {
            match items.pop() {
                Some(v) => Ok(v),
                None => {
                    proof {
                        assert(false);
                    }
                    unreached()
                },
            }
        } else {
            let ghost orig = items@;
            items.truncate(2);
            proof {
                assert(items@ =~= orig.take(2));
            }
            let second = match items.pop() {
                Some(v) => v,
                None => {
                    proof {
                        assert(false);
                    }
                    unreached()
                },
            };
            let first = match items.pop() {
                Some(v) => v,
                None => {
                    proof {
                        assert(false);
                    }
                    unreached()
                },
            };
            Err(SingleIterError::MultipleItems { first, second })
        }
    }
}

} // verus!
