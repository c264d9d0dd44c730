//! Directions: what each axis of the board does along a line.
//!
//! An axis plays one of three roles. A choice of roles, one per axis, in which
//! at least one axis moves is a direction. The choices are counted through in
//! the order of their codes, the roles being the digits of the code in base 3.
use crate::grid::{
    flat_index, lemma_flat_index_bound, lemma_flat_index_common_tail,
    lemma_flat_index_injective, lemma_flat_index_next, lemma_flat_index_of_far_corner,
    lemma_flat_index_of_origin, lemma_flat_index_zero_is_origin,
};
use vstd::arithmetic::power::pow;
use vstd::prelude::*;

verus! {

/// What an axis does along a line.
#[derive(Debug, Clone, Copy, PartialEq, Eq, Structural)]
pub enum AxisRole {
    /// The coordinate stays at the seed's.
    Pinned,
    /// The coordinate equals the step.
    Forward,
    /// The coordinate runs from the far end towards `0`.
    Mirrored,
}

/// Whether `roles` gives a role to each of `dims` axes and lets one of them move.
pub open spec fn is_direction(roles: Seq<AxisRole>, dims: nat) -> bool {
    &&& roles.len() == dims
    &&& exists|k: int| 0 <= k < roles.len() && #[trigger] roles[k] != AxisRole::Pinned
}

/// The number of ways to give each of `dims` axes a role: 3 to the power of
/// `dims`. All but one of them, which pins every axis, are directions.
pub open spec fn choice_count(dims: nat) -> int {
    pow(3, dims)
}

/// The digit that stands for a role when roles are counted through.
pub open spec fn role_digit(role: AxisRole) -> int {
    match role {
        AxisRole::Pinned => 0,
        AxisRole::Forward => 1,
        AxisRole::Mirrored => 2,
    }
}

/// The digits of the roles, axis by axis.
pub open spec fn role_digits(roles: Seq<AxisRole>) -> Seq<int> {
    Seq::new(roles.len(), |k: int| role_digit(roles[k]))
}

/// The place of `roles` among all choices of roles for as many axes: the
/// number whose digits in base 3, least significant first, are the roles'.
pub open spec fn direction_code(roles: Seq<AxisRole>) -> int {
    flat_index(role_digits(roles), 3)
}

/// The codes of the choices of roles for `n` axes lie in `[0, 3^n)`, and a
/// choice of roles is a direction exactly if its code is not `0`.
pub proof fn lemma_direction_code_range(roles: Seq<AxisRole>)
    ensures
        0 <= direction_code(roles) < choice_count(roles.len()),
        direction_code(roles) != 0 <==> is_direction(roles, roles.len()),
{
    let digits = role_digits(roles);
    lemma_flat_index_bound(digits, 3);
    if direction_code(roles) == 0 {
        lemma_flat_index_zero_is_origin(digits, 3);
        assert forall|k: int| 0 <= k < roles.len() implies roles[k] == AxisRole::Pinned by {
            assert(digits[k] == 0);
        }
    } else {
        if !is_direction(roles, roles.len()) {
            assert forall|k: int| 0 <= k < digits.len() implies digits[k] == 0 by {
                assert(roles[k] == AxisRole::Pinned);
            }
            lemma_flat_index_of_origin(digits, 3);
        }
    }
}

/// Two choices of roles for the same axes with the same code are the same.
pub proof fn lemma_direction_code_injective(a: Seq<AxisRole>, b: Seq<AxisRole>)
    requires
        a.len() == b.len(),
        direction_code(a) == direction_code(b),
    ensures
        a == b,
{
    lemma_flat_index_injective(role_digits(a), role_digits(b), 3);
    assert forall|k: int| 0 <= k < a.len() implies a[k] == b[k] by {
        assert(role_digits(a)[k] == role_digits(b)[k]);
    }
    assert(a =~= b);
}

/// Steps `roles` on to the choice of roles with the next code. Returns `false`,
/// with every axis pinned again, if `roles` was the last one.
pub fn next_direction(roles: &mut Vec<AxisRole>) -> (more: bool)
    ensures
        final(roles)@.len() == old(roles)@.len(),
        more ==> direction_code(final(roles)@) == direction_code(old(roles)@) + 1,
        !more ==> direction_code(old(roles)@) + 1 == choice_count(old(roles)@.len()),
        !more ==> direction_code(final(roles)@) == 0,
{
    let mut axis: usize = 0;
    while axis < roles.len()
        invariant
            axis <= roles@.len(),
            roles@.len() == old(roles)@.len(),
            forall|j: int| 0 <= j < axis ==> old(roles)@[j] == AxisRole::Mirrored,
            forall|j: int| 0 <= j < axis ==> roles@[j] == AxisRole::Pinned,
            forall|j: int| axis <= j < roles@.len() ==> roles@[j] == old(roles)@[j],
        decreases roles@.len() - axis,
    {
        let role = roles[axis];
        match role {
            AxisRole::Mirrored => {
                roles[axis] = AxisRole::Pinned;
                axis += 1;
            },
            _ => {
                roles[axis] = match role {
                    AxisRole::Pinned => AxisRole::Forward,
                    _ => AxisRole::Mirrored,
                };
                proof {
                    lemma_direction_code_successor(old(roles)@, roles@, axis as int);
                }
                return true;
            },
        }
    }
    proof {
        let before = role_digits(old(roles)@);
        let after = role_digits(roles@);
        lemma_flat_index_of_far_corner(before, 3);
        lemma_flat_index_of_origin(after, 3);
    }
    false
}

/// Of two choices of roles, the second has the next code if it has the next
/// role on one axis, where all axes below are mirrored in the first and
/// pinned in the second, and all axes above are the same.
proof fn lemma_direction_code_successor(before: Seq<AxisRole>, after: Seq<AxisRole>, axis: int)
    requires
        before.len() == after.len(),
        0 <= axis < before.len(),
        forall|j: int| 0 <= j < axis ==> before[j] == AxisRole::Mirrored,
        forall|j: int| 0 <= j < axis ==> after[j] == AxisRole::Pinned,
        forall|j: int| axis < j < before.len() ==> after[j] == before[j],
        role_digit(after[axis]) == role_digit(before[axis]) + 1,
    ensures
        direction_code(after) == direction_code(before) + 1,
{
    let a = role_digits(after);
    let b = role_digits(before);
    let weight = choice_count(axis as nat);
    lemma_flat_index_common_tail(a, b, 3, axis + 1);
    lemma_flat_index_next(a, 3, axis);
    lemma_flat_index_next(b, 3, axis);
    lemma_flat_index_of_origin(a.take(axis), 3);
    lemma_flat_index_of_far_corner(b.take(axis), 3);
    assert(a[axis] * weight == b[axis] * weight + weight) by (nonlinear_arith)
        requires
            a[axis] == b[axis] + 1,
    ;
}

/// The directions of a board with `dims` axes.
pub open spec fn directions(dims: nat) -> Set<Seq<AxisRole>> {
    Set::new(|roles: Seq<AxisRole>| is_direction(roles, dims))
}

/// The role that a digit stands for.
pub open spec fn digit_role(digit: int) -> AxisRole {
    if digit == 0 {
        AxisRole::Pinned
    } else if digit == 1 {
        AxisRole::Forward
    } else {
        AxisRole::Mirrored
    }
}

/// The roles that the digits stand for, axis by axis.
pub open spec fn digit_roles(digits: Seq<int>) -> Seq<AxisRole> {
    Seq::new(digits.len(), |k: int| digit_role(digits[k]))
}

} // verus!
