//! Sorting a buffer by a comparison of the caller.
use vstd::prelude::*;
use std::cmp::Ordering;
use super::buffer::Data;
use crate::utils::swap_with_previous;

verus! {

/// Whether `f` has settled that `a` may stand before `b`: it did not answer
/// `Greater` for `a` against `b`, or it answered `Greater` for `b` against `a`.
pub open spec fn in_order<F: Fn(&u8, &u8) -> Ordering>(f: F, a: u8, b: u8) -> bool {
    (exists|o: Ordering| #[trigger] call_ensures(f, (&a, &b), o) && !(o is Greater)) || call_ensures(
        f,
        (&b, &a),
        Ordering::Greater,
    )
}

/// Whether `f` answers `Greater` for `a` against `b`.
fn goes_after<F: Fn(&u8, &u8) -> Ordering>(f: &F, a: u8, b: u8) -> (r: bool)
    requires
        call_requires(*f, (&a, &b)),
    ensures
        r ==> call_ensures(*f, (&a, &b), Ordering::Greater),
        !r ==> in_order(*f, a, b),
{
    let o: Ordering = f(&a, &b);
    match o {
        Ordering::Greater => true,
        Ordering::Less => {
            assert(call_ensures(*f, (&a, &b), o) && !(o is Greater));
            false
        },
        Ordering::Equal => {
            assert(call_ensures(*f, (&a, &b), o) && !(o is Greater));
            false
        },
    }
}

impl Data {
    /// Sorts the buffer by `f`, keeping bytes that `f` calls equal in their
    /// order. Afterwards the buffer holds the bytes it held, and `f` has
    /// settled every pair of neighbours; see [`in_order`].
    pub fn sort_by<F: Fn(&u8, &u8) -> Ordering>(&mut self, f: F)
        requires
            forall|a: u8, b: u8| call_requires(f, (&a, &b)),
        ensures
            final(self)@.to_multiset() == old(self)@.to_multiset(),
            final(self)@.len() == old(self)@.len(),
            forall|k: int|
                0 <= k && k + 1 < final(self)@.len() ==> in_order(
                    f,
                    #[trigger] final(self)@[k],
                    final(self)@[k + 1],
                ),
    {
        let len: usize = self.bytes.len();
        let mut i: usize = 1;
        while i < len
            invariant
                1 <= i,
                len == self@.len(),
                self@.to_multiset() == old(self)@.to_multiset(),
                forall|a: u8, b: u8| call_requires(f, (&a, &b)),
                forall|k: int|
                    0 <= k && k + 1 < i && k + 1 < len ==> in_order(
                        f,
                        #[trigger] self@[k],
                        self@[k + 1],
                    ),
            decreases len - i,
        {
            let mut j: usize = i;
            let mut moving: bool = true;
            while moving && j > 0
                invariant
                    j <= i,
                    i < len,
                    len == self@.len(),
                    self@.to_multiset() == old(self)@.to_multiset(),
                    forall|a: u8, b: u8| call_requires(f, (&a, &b)),
                    forall|k: int|
                        0 <= k && k + 1 < j ==> in_order(f, #[trigger] self@[k], self@[k + 1]),
                    forall|k: int|
                        j < k && k + 1 <= i ==> in_order(f, #[trigger] self@[k], self@[k + 1]),
                    forall|k: int|
                        k == j && k < i ==> in_order(f, #[trigger] self@[k], self@[k + 1]),
                    forall|k: int|
                        0 <= k && k + 1 == j && j < i ==> in_order(
                            f,
                            #[trigger] self@[k],
                            self@[k + 2],
                        ),
                    !moving ==> forall|k: int|
                        0 <= k && k + 1 == j ==> in_order(f, #[trigger] self@[k], self@[k + 1]),
                decreases j + (if moving { 1int } else { 0int }),
            {
                let ghost before = self@;
                let a: u8 = self.bytes[j - 1];
                let b: u8 = self.bytes[j];
                if goes_after(&f, a, b) {
                    swap_with_previous(&mut self.bytes, j);
                    j = j - 1;
                    proof {
                        assert forall|k: int| j < k && k + 1 <= i implies in_order(
                            f,
                            #[trigger] self@[k],
                            self@[k + 1],
                        ) by {
                            if k == j + 1 {
                                assert(self@[k] == before[k - 1]);
                                assert(self@[k + 1] == before[k + 1]);
                            } else {
                                assert(self@[k] == before[k]);
                                assert(self@[k + 1] == before[k + 1]);
                            }
                        }
                        assert forall|k: int| 0 <= k && k + 1 < j implies in_order(
                            f,
                            #[trigger] self@[k],
                            self@[k + 1],
                        ) by {
                            assert(self@[k] == before[k]);
                            assert(self@[k + 1] == before[k + 1]);
                        }
                        assert forall|k: int| 0 <= k && k + 1 == j && j < i implies in_order(
                            f,
                            #[trigger] self@[k],
                            self@[k + 2],
                        ) by {
                            assert(self@[k] == before[k]);
                            assert(self@[k + 2] == before[k + 1]);
                        }
                    }
                } else {
                    moving = false;
                }
            }
            proof {
                assert forall|k: int| 0 <= k && k + 1 < i + 1 && k + 1 < len implies in_order(
                    f,
                    #[trigger] self@[k],
                    self@[k + 1],
                ) by {}
            }
            i = i + 1;
        }
    }
}

} // verus!
