//! One keyframe: a selector and the block of declarations that applies at
//! the percentages of the selector.

use vstd::prelude::*;
use std::sync::Arc;
use crate::declaration_block::{all_normal, entries_wf, Entries, PropertyDeclarationBlock};
use crate::percentage::KeyframePercentage;
use crate::selector::{selector_wf, KeyframeSelector};
use crate::shared_lock::{Locked, LockedView, SharedRwLock, SharedRwLockReadGuard};
use crate::views::views;

verus! {

/// A keyframe.
#[derive(Debug)]
pub struct Keyframe {
    /// The percentages that the keyframe is declared for.
    pub selector: KeyframeSelector,
    /// The declarations of the keyframe. None of them is important: the
    /// grammar of keyframes has no `!important`.
    pub block: Arc<Locked<PropertyDeclarationBlock>>,
}

/// What a keyframe is in contracts.
pub struct KeyframeView {
    pub selector: Seq<KeyframePercentage>,
    pub block: LockedView<Entries>,
}

impl View for Keyframe {
    type V = KeyframeView;

    open spec fn view(&self) -> KeyframeView {
        KeyframeView { selector: self.selector@, block: self.block@ }
    }
}

/// What a keyframe under its lock is in contracts.
pub type LockedKeyframe = LockedView<KeyframeView>;

/// Whether each of `keyframes` is under `lock`.
pub open spec fn keyframes_under_lock(keyframes: Seq<LockedKeyframe>, lock: SharedRwLock) -> bool {
    forall|k: int| 0 <= k < keyframes.len() ==> (#[trigger] keyframes[k]).lock == lock
}

/// Whether a keyframe and its block are under `lock`.
pub open spec fn under_lock(keyframe: LockedKeyframe, lock: SharedRwLock) -> bool {
    keyframe.lock == lock && keyframe.data.block.lock == lock
}

/// Whether all of `keyframes` and their blocks are under `lock`.
pub open spec fn all_under_lock(keyframes: Seq<LockedKeyframe>, lock: SharedRwLock) -> bool {
    forall|k: int| 0 <= k < keyframes.len() ==> under_lock(#[trigger] keyframes[k], lock)
}

/// Whether no declaration of `keyframes` is important.
pub open spec fn none_important(keyframes: Seq<LockedKeyframe>) -> bool {
    forall|k: int| 0 <= k < keyframes.len() ==> all_normal((#[trigger] keyframes[k]).data.block.data)
}

/// Whether the block of each of `keyframes` is well formed.
pub open spec fn all_blocks_wf(keyframes: Seq<LockedKeyframe>) -> bool {
    forall|k: int| 0 <= k < keyframes.len() ==> entries_wf((#[trigger] keyframes[k]).data.block.data)
}

/// A keyframe is well formed if its selector is, and if its block holds no
/// important declaration: the grammar of keyframes makes no other.
pub open spec fn keyframe_wf(keyframe: KeyframeView) -> bool {
    &&& selector_wf(keyframe.selector)
    &&& all_normal(keyframe.block.data)
}

/// Whether each of `keyframes` is well formed.
pub open spec fn all_wf(keyframes: Seq<LockedKeyframe>) -> bool {
    forall|k: int| 0 <= k < keyframes.len() ==> keyframe_wf((#[trigger] keyframes[k]).data)
}

impl Keyframe {
    /// An independent copy of the keyframe, with its block under `lock`.
    pub fn deep_clone_with_lock(
        &self,
        lock: &SharedRwLock,
        guard: &SharedRwLockReadGuard,
    ) -> (copy: Keyframe)
        requires
            self.block.same_lock_as(guard),
        ensures
            copy@.selector == self@.selector,
            copy@.block.data == self@.block.data,
            copy@.block.lock == *lock,
    {
        Keyframe {
            selector: self.selector.clone(),
            block: Arc::new(lock.wrap(self.block.read_with(guard).deep_clone())),
        }
    }
}

/// Whether `guard` holds the lock of each of `keyframes` and of its block.
pub fn are_under_lock(keyframes: &[Arc<Locked<Keyframe>>], guard: &SharedRwLockReadGuard) -> (under:
    bool)
    ensures
        under == all_under_lock(views(keyframes@), guard.lock()),
{
    let ghost all = views(keyframes@);
    let mut k: usize = 0;
    while k < keyframes.len()
        invariant
            k <= keyframes@.len(),
            all == views(keyframes@),
            forall|j: int| 0 <= j < k ==> under_lock(#[trigger] all[j], guard.lock()),
        decreases keyframes.len() - k,
    {
        assert(all[k as int] == keyframes@[k as int]@);
        if !keyframes[k].is_under(guard) {
            assert(!under_lock(all[k as int], guard.lock()));
            return false;
        }
        if !keyframes[k].read_with(guard).block.is_under(guard) {
            assert(!under_lock(all[k as int], guard.lock()));
            return false;
        }
        k += 1;
    }
    true
}

/// Whether no declaration of `keyframes` is important.
pub fn are_all_normal(keyframes: &[Arc<Locked<Keyframe>>], guard: &SharedRwLockReadGuard) -> (normal:
    bool)
    requires
        all_under_lock(views(keyframes@), guard.lock()),
    ensures
        normal == none_important(views(keyframes@)),
        normal == all_wf(views(keyframes@)),
{
    let ghost all = views(keyframes@);
    let mut k: usize = 0;
    while k < keyframes.len()
        invariant
            k <= keyframes@.len(),
            all == views(keyframes@),
            all_under_lock(all, guard.lock()),
            forall|j: int| 0 <= j < k ==> keyframe_wf((#[trigger] all[j]).data),
        decreases keyframes.len() - k,
    {
        assert(under_lock(all[k as int], guard.lock()));
        let keyframe = keyframes[k].read_with(guard);
        assert(keyframe@ == all[k as int].data);
        let _ = keyframe.selector.percentages();
        if !keyframe.block.read_with(guard).is_all_normal() {
            assert(!keyframe_wf(all[k as int].data));
            return false;
        }
        k += 1;
    }
    true
}

} // verus!
