//! Messages of the wide-integer store and its arithmetic relations.

use crate::precompiles::field::{reps, FieldExpr};
use crate::precompiles::logup::{Message, Part};
use crate::precompiles::relations::BusId;
use vstd::prelude::*;

verus! {

/// `a + b = c` under the modulus `bound`, with `nz` set when `b` is known to be nonzero.
#[derive(Debug, Clone)]
pub struct UintAddMsg<E> {
    pub bound_ptr: E,
    pub a_ptr: E,
    pub b_ptr: E,
    pub c_ptr: E,
    pub nz: E,
}

impl<E: FieldExpr> UintAddMsg<E> {
    /// The tuple this message puts on [`BusId::UintAdd`].
    pub fn message(self) -> (r: Message<E>)
        ensures
            r.bus == BusId::UintAdd,
            r.part == Part::Whole,
            reps(r.elems@) == seq![
                self.bound_ptr.rep(),
                self.a_ptr.rep(),
                self.b_ptr.rep(),
                self.c_ptr.rep(),
                self.nz.rep(),
            ],
    {
        let elems = vec![self.bound_ptr, self.a_ptr, self.b_ptr, self.c_ptr, self.nz];
        assert(
            reps(elems@) =~= seq![
                self.bound_ptr.rep(),
                self.a_ptr.rep(),
                self.b_ptr.rep(),
                self.c_ptr.rep(),
                self.nz.rep(),
            ]
        );
        Message { bus: BusId::UintAdd, part: Part::Whole, elems }
    }
}

/// `kappa_a * a * b + kappa_c * c = r` under the modulus `bound`, or the subtracting form.
#[derive(Debug, Clone)]
pub struct UintMulMsg<E> {
    pub kappa_a: E,
    pub kappa_c: E,
    pub a_ptr: E,
    pub b_ptr: E,
    pub c_ptr: E,
    pub r_ptr: E,
    pub bound_ptr: E,
    pub is_sub: E,
}

impl<E: FieldExpr> UintMulMsg<E> {
    /// The tuple this message puts on [`BusId::UintMul`].
    pub fn message(self) -> (r: Message<E>)
        ensures
            r.bus == BusId::UintMul,
            r.part == Part::Whole,
            reps(r.elems@) == seq![
                self.kappa_a.rep(),
                self.kappa_c.rep(),
                self.a_ptr.rep(),
                self.b_ptr.rep(),
                self.c_ptr.rep(),
                self.r_ptr.rep(),
                self.bound_ptr.rep(),
                self.is_sub.rep(),
            ],
    {
        let elems = vec![
            self.kappa_a,
            self.kappa_c,
            self.a_ptr,
            self.b_ptr,
            self.c_ptr,
            self.r_ptr,
            self.bound_ptr,
            self.is_sub,
        ];
        assert(
            reps(elems@) =~= seq![
                self.kappa_a.rep(),
                self.kappa_c.rep(),
                self.a_ptr.rep(),
                self.b_ptr.rep(),
                self.c_ptr.rep(),
                self.r_ptr.rep(),
                self.bound_ptr.rep(),
                self.is_sub.rep(),
            ]
        );
        Message { bus: BusId::UintMul, part: Part::Whole, elems }
    }
}

/// A stored value: its pointer, its modulus, and its eight 32-bit limbs.
#[derive(Debug)]
pub struct UintValMsg<E> {
    pub ptr: E,
    pub bound_ptr: E,
    pub limbs: [E; 8],
}

impl<E: FieldExpr> UintValMsg<E> {
    /// The tuple this message puts on [`BusId::UintVal`].
    pub fn message(self) -> (r: Message<E>)
        ensures
            r.bus == BusId::UintVal,
            r.part == Part::Whole,
            reps(r.elems@) == seq![
                self.ptr.rep(),
                self.bound_ptr.rep(),
                self.limbs@[0].rep(),
                self.limbs@[1].rep(),
                self.limbs@[2].rep(),
                self.limbs@[3].rep(),
                self.limbs@[4].rep(),
                self.limbs@[5].rep(),
                self.limbs@[6].rep(),
                self.limbs@[7].rep(),
            ],
    {
        let UintValMsg { ptr, bound_ptr, limbs } = self;
        let mut elems: Vec<E> = vec![ptr, bound_ptr];
        let mut i: usize = 0;
        while i < 8
            invariant
                i <= 8,
                elems@.len() == i + 2,
                elems@[0].rep() == ptr.rep(),
                elems@[1].rep() == bound_ptr.rep(),
                forall|j: int| 0 <= j < i ==> #[trigger] elems@[j + 2].rep() == limbs@[j].rep(),
            decreases 8 - i,
        {
            elems.push(limbs[i].dup());
            i = i + 1;
        }
        proof {
            assert forall|k: int| 2 <= k < 10 implies #[trigger] elems@[k].rep() == limbs@[k
                - 2].rep() by {
                assert(elems@[(k - 2) + 2].rep() == limbs@[k - 2].rep());
            }
            assert(reps(elems@) =~= seq![
                ptr.rep(),
                bound_ptr.rep(),
                limbs@[0].rep(),
                limbs@[1].rep(),
                limbs@[2].rep(),
                limbs@[3].rep(),
                limbs@[4].rep(),
                limbs@[5].rep(),
                limbs@[6].rep(),
                limbs@[7].rep(),
            ]);
        }
        Message { bus: BusId::UintVal, part: Part::Whole, elems }
    }
}

} // verus!
