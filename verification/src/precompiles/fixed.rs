//! The rows that the integer store and the group table hold from the start: field moduli, curve
//! parameters, and endomorphism constants.

use crate::precompiles::ec::EcGroupMsg;
use crate::precompiles::field::{Felt, FieldExpr};
use crate::precompiles::uint::UintValMsg;
use vstd::prelude::*;

verus! {

/// A prime field: the pointer of its modulus and its largest element.
#[derive(Debug, Clone, Copy)]
pub struct UintDomain {
    pub bound_ptr: u32,
    pub minus_one: [u32; 8],
}

/// The constants of a curve endomorphism.
#[derive(Debug, Clone, Copy)]
pub struct Endomorphism {
    pub beta_ptr: u32,
    pub beta: [u32; 8],
    pub lambda_ptr: u32,
    pub lambda: [u32; 8],
}

/// A curve with its parameters and fields.
#[derive(Debug, Clone, Copy)]
pub struct Curve {
    pub group_ptr: u32,
    pub a_ptr: u32,
    pub a_value: [u32; 8],
    pub b_ptr: u32,
    pub b_value: [u32; 8],
    pub base_bound_ptr: u32,
    pub scalar_bound_ptr: u32,
    pub endomorphism: Option<Endomorphism>,
}

/// A stored integer: its pointer, its modulus, and its limbs.
pub type FixedUint = (u32, u32, [u32; 8]);

/// The moduli of `domains`, each under itself.
pub open spec fn moduli(domains: Seq<UintDomain>) -> Seq<FixedUint> {
    Seq::new(domains.len(), |i: int| (domains[i].bound_ptr, domains[i].bound_ptr, domains[i].minus_one))
}

/// The parameters of the first `count` curves, `a` before `b`.
pub open spec fn parameters(curves: Seq<Curve>, count: nat) -> Seq<FixedUint>
    decreases count,
{
    if count == 0 {
        Seq::empty()
    } else {
        let c = curves[count - 1];
        parameters(curves, (count - 1) as nat).push(
            (c.a_ptr, c.base_bound_ptr, c.a_value),
        ).push((c.b_ptr, c.base_bound_ptr, c.b_value))
    }
}

/// The endomorphism constants of the first `count` curves, `beta` before `lambda`.
pub open spec fn endomorphisms(curves: Seq<Curve>, count: nat) -> Seq<FixedUint>
    decreases count,
{
    if count == 0 {
        Seq::empty()
    } else {
        let before = endomorphisms(curves, (count - 1) as nat);
        let c = curves[count - 1];
        match c.endomorphism {
            Some(e) => before.push((e.beta_ptr, c.base_bound_ptr, e.beta)).push(
                (e.lambda_ptr, c.scalar_bound_ptr, e.lambda),
            ),
            None => before,
        }
    }
}

/// The integers that the store holds from the start: moduli, then curve parameters, then
/// endomorphism constants.
pub fn fixed_uints(domains: &[UintDomain], curves: &[Curve]) -> (r: Vec<FixedUint>)
    ensures
        r@ == moduli(domains@) + parameters(curves@, curves@.len()) + endomorphisms(
            curves@,
            curves@.len(),
        ),
{
    let mut out: Vec<FixedUint> = Vec::new();
    let mut i: usize = 0;
    while i < domains.len()
        invariant
            i <= domains@.len(),
            out@ == moduli(domains@).take(i as int),
        decreases domains@.len() - i,
    {
        let ptr: u32 = domains[i].bound_ptr;
        out.push((ptr, ptr, domains[i].minus_one));
        assert(out@ =~= moduli(domains@).take(i + 1));
        i = i + 1;
    }
    let ghost first = moduli(domains@);
    assert(out@ =~= first);
    let mut j: usize = 0;
    assert(out@ =~= first + parameters(curves@, 0));
    while j < curves.len()
        invariant
            j <= curves@.len(),
            out@ == first + parameters(curves@, j as nat),
        decreases curves@.len() - j,
    {
        let c = &curves[j];
        out.push((c.a_ptr, c.base_bound_ptr, c.a_value));
        out.push((c.b_ptr, c.base_bound_ptr, c.b_value));
        assert(out@ =~= first + parameters(curves@, (j + 1) as nat));
        j = j + 1;
    }
    let ghost second = first + parameters(curves@, curves@.len());
    let mut k: usize = 0;
    assert(out@ =~= second + endomorphisms(curves@, 0));
    while k < curves.len()
        invariant
            k <= curves@.len(),
            out@ == second + endomorphisms(curves@, k as nat),
        decreases curves@.len() - k,
    {
        let c = &curves[k];
        match c.endomorphism {
            Some(e) => {
                out.push((e.beta_ptr, c.base_bound_ptr, e.beta));
                out.push((e.lambda_ptr, c.scalar_bound_ptr, e.lambda));
            },
            None => {},
        }
        assert(out@ =~= second + endomorphisms(curves@, (k + 1) as nat));
        k = k + 1;
    }
    out
}

/// The message that provides a stored integer.
pub fn fixed_uintval_msg(entry: &FixedUint) -> (r: UintValMsg<Felt>)
    ensures
        r.ptr.rep() == entry.0,
        r.bound_ptr.rep() == entry.1,
        forall|i: int| 0 <= i < 8 ==> (#[trigger] r.limbs@[i]).rep() == entry.2@[i],
{
    let l = entry.2;
    UintValMsg {
        ptr: Felt::constant(entry.0 as u64),
        bound_ptr: Felt::constant(entry.1 as u64),
        limbs: [
            Felt::constant(l[0] as u64),
            Felt::constant(l[1] as u64),
            Felt::constant(l[2] as u64),
            Felt::constant(l[3] as u64),
            Felt::constant(l[4] as u64),
            Felt::constant(l[5] as u64),
            Felt::constant(l[6] as u64),
            Felt::constant(l[7] as u64),
        ],
    }
}

/// The messages that provide the store's first integers, in order.
pub fn fixed_uintval_msgs(domains: &[UintDomain], curves: &[Curve]) -> (r: Vec<UintValMsg<Felt>>)
    ensures
        ({
            let all = moduli(domains@) + parameters(curves@, curves@.len()) + endomorphisms(
                curves@,
                curves@.len(),
            );
            &&& r@.len() == all.len()
            &&& forall|k: int|
                0 <= k < all.len() ==> (#[trigger] r@[k]).ptr.rep() == all[k].0
                    && r@[k].bound_ptr.rep() == all[k].1 && forall|i: int|
                    0 <= i < 8 ==> (#[trigger] r@[k].limbs@[i]).rep() == all[k].2@[i]
        }),
{
    let entries = fixed_uints(domains, curves);
    let mut out: Vec<UintValMsg<Felt>> = Vec::new();
    let mut k: usize = 0;
    while k < entries.len()
        invariant
            k <= entries@.len(),
            out@.len() == k,
            forall|j: int|
                0 <= j < k ==> (#[trigger] out@[j]).ptr.rep() == entries@[j].0
                    && out@[j].bound_ptr.rep() == entries@[j].1 && forall|i: int|
                    0 <= i < 8 ==> (#[trigger] out@[j].limbs@[i]).rep() == entries@[j].2@[i],
        decreases entries@.len() - k,
    {
        out.push(fixed_uintval_msg(&entries[k]));
        k = k + 1;
    }
    out
}

/// The endomorphism pointers of a curve, or the none-sentinel.
pub open spec fn endomorphism_ptrs(c: Curve) -> (u32, u32) {
    match c.endomorphism {
        Some(e) => (e.beta_ptr, e.lambda_ptr),
        None => (0, 0),
    }
}

/// The messages that provide the group table's first rows, one for each curve.
pub fn fixed_ecgroup_msgs(curves: &[Curve]) -> (r: Vec<EcGroupMsg<Felt>>)
    ensures
        r@.len() == curves@.len(),
        forall|i: int|
            0 <= i < curves@.len() ==> {
                let m = #[trigger] r@[i];
                let c = curves@[i];
                &&& m.group_ptr.rep() == c.group_ptr
                &&& m.a_ptr.rep() == c.a_ptr
                &&& m.b_ptr.rep() == c.b_ptr
                &&& m.bound_ptr.rep() == c.base_bound_ptr
                &&& m.scalar_bound_ptr.rep() == c.scalar_bound_ptr
                &&& m.beta_ptr.rep() == endomorphism_ptrs(c).0
                &&& m.lambda_ptr.rep() == endomorphism_ptrs(c).1
            },
{
    let mut out: Vec<EcGroupMsg<Felt>> = Vec::new();
    let mut k: usize = 0;
    while k < curves.len()
        invariant
            k <= curves@.len(),
            out@.len() == k,
            forall|i: int|
                0 <= i < k ==> {
                    let m = #[trigger] out@[i];
                    let c = curves@[i];
                    &&& m.group_ptr.rep() == c.group_ptr
                    &&& m.a_ptr.rep() == c.a_ptr
                    &&& m.b_ptr.rep() == c.b_ptr
                    &&& m.bound_ptr.rep() == c.base_bound_ptr
                    &&& m.scalar_bound_ptr.rep() == c.scalar_bound_ptr
                    &&& m.beta_ptr.rep() == endomorphism_ptrs(c).0
                    &&& m.lambda_ptr.rep() == endomorphism_ptrs(c).1
                },
        decreases curves@.len() - k,
    {
        let c = &curves[k];
        let (beta_ptr, lambda_ptr): (u32, u32) = match c.endomorphism {
            Some(e) => (e.beta_ptr, e.lambda_ptr),
            None => (0, 0),
        };
        out.push(
            EcGroupMsg {
                group_ptr: Felt::constant(c.group_ptr as u64),
                a_ptr: Felt::constant(c.a_ptr as u64),
                b_ptr: Felt::constant(c.b_ptr as u64),
                bound_ptr: Felt::constant(c.base_bound_ptr as u64),
                scalar_bound_ptr: Felt::constant(c.scalar_bound_ptr as u64),
                beta_ptr: Felt::constant(beta_ptr as u64),
                lambda_ptr: Felt::constant(lambda_ptr as u64),
            },
        );
        k = k + 1;
    }
    out
}

} // verus!
