//! The fixed-capacity vectors of the render path (`arrayvec::ArrayVec`), one per item type that
//! the routing logic builds: per-stage flags and per-stage bus positions (at most
//! `MAX_INSERT_BUS_STAGES` items), and the source feeds of a block (at most `MAX_SOURCE_FEEDS`).
//! None of them allocates.

use crate::lines::{FeedRoute, MAX_INSERT_BUS_STAGES, MAX_SOURCE_FEEDS};
use arrayvec::ArrayVec;
use vstd::prelude::*;

verus! {

#[verifier::external_type_specification]
#[verifier::external_body]
#[verifier::reject_recursive_types(T)]
pub struct ExArrayVec<T, const CAP: usize>(ArrayVec<T, CAP>);

/// The positions held by a per-stage position vector, first to last.
pub uninterp spec fn stage_positions(v: ArrayVec<Option<usize>, MAX_INSERT_BUS_STAGES>) -> Seq<Option<usize>>;

/// `ArrayVec::new`: an empty vector.
#[verifier::external_body]
pub(crate) fn new_positions() -> (r: ArrayVec<Option<usize>, MAX_INSERT_BUS_STAGES>)
    ensures
        stage_positions(r) == Seq::<Option<usize>>::empty(),
{
    ArrayVec::new()
}

/// `ArrayVec::push`: `x` is appended; it panics on a full vector, which `requires` rules out.
#[verifier::external_body]
pub(crate) fn push_position(v: &mut ArrayVec<Option<usize>, MAX_INSERT_BUS_STAGES>, x: Option<usize>)
    requires
        stage_positions(*old(v)).len() < MAX_INSERT_BUS_STAGES,
    ensures
        stage_positions(*final(v)) == stage_positions(*old(v)).push(x),
{
    v.push(x)
}

/// The flags held by a per-stage flag vector, first to last.
pub uninterp spec fn stage_flags(v: ArrayVec<bool, MAX_INSERT_BUS_STAGES>) -> Seq<bool>;

/// `ArrayVec::new`: an empty vector.
#[verifier::external_body]
pub(crate) fn new_flags() -> (r: ArrayVec<bool, MAX_INSERT_BUS_STAGES>)
    ensures
        stage_flags(r) == Seq::<bool>::empty(),
{
    ArrayVec::new()
}

/// `ArrayVec::push`: `x` is appended; it panics on a full vector, which `requires` rules out.
#[verifier::external_body]
pub(crate) fn push_flag(v: &mut ArrayVec<bool, MAX_INSERT_BUS_STAGES>, x: bool)
    requires
        stage_flags(*old(v)).len() < MAX_INSERT_BUS_STAGES,
    ensures
        stage_flags(*final(v)) == stage_flags(*old(v)).push(x),
{
    v.push(x)
}

/// Assignment through the vector's slice (`DerefMut`): item `i` becomes `x`; an index past the
/// end panics, which `requires` rules out.
#[verifier::external_body]
pub(crate) fn set_flag(v: &mut ArrayVec<bool, MAX_INSERT_BUS_STAGES>, i: usize, x: bool)
    requires
        i < stage_flags(*old(v)).len(),
    ensures
        stage_flags(*final(v)) == stage_flags(*old(v)).update(i as int, x),
{
    v[i] = x;
}

/// The feeds held by a block's feed vector, first to last.
pub uninterp spec fn feed_items(v: ArrayVec<(usize, usize, FeedRoute), MAX_SOURCE_FEEDS>) -> Seq<(usize, usize, FeedRoute)>;

/// `ArrayVec::new`: an empty vector.
#[verifier::external_body]
pub(crate) fn new_feeds() -> (r: ArrayVec<(usize, usize, FeedRoute), MAX_SOURCE_FEEDS>)
    ensures
        feed_items(r) == Seq::<(usize, usize, FeedRoute)>::empty(),
{
    ArrayVec::new()
}

/// `ArrayVec::push`: `x` is appended; it panics on a full vector, which `requires` rules out.
#[verifier::external_body]
pub(crate) fn push_feed(v: &mut ArrayVec<(usize, usize, FeedRoute), MAX_SOURCE_FEEDS>, x: (usize, usize, FeedRoute))
    requires
        feed_items(*old(v)).len() < MAX_SOURCE_FEEDS,
    ensures
        feed_items(*final(v)) == feed_items(*old(v)).push(x),
{
    v.push(x)
}

} // verus!
