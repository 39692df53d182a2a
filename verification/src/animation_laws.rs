//! What holds of every animation that is derived from keyframes.
//!
//! The steps are sorted, the sorting is stable, and the steps run from zero
//! to one. The properties are distinct. And the animation is decided by the
//! keyframes alone.

use vstd::prelude::*;
use crate::animation::{
    animated_properties,
    block_properties,
    computed_step,
    declared_properties,
    declared_steps,
    first_seen,
    insertion_point,
    keyframe_steps,
    sorted_steps,
    step_of,
    timeline,
    with_boundaries,
    KeyframesAnimationView,
    KeyframesStepValueView,
    KeyframesStepView,
    VendorPrefix,
};
use crate::declaration_block::{entries_wf, Entries};
use crate::keyframe::{
    all_blocks_wf,
    all_under_lock,
    all_wf,
    keyframe_wf,
    under_lock,
    LockedKeyframe,
};
use crate::percentage::{KeyframePercentage, ONE_BITS, ZERO_BITS};
use crate::properties::TransitionProperty;
use crate::shared_lock::SharedRwLock;

verus! {

/// Whether the steps are sorted by the percentage at which they start.
pub open spec fn is_sorted(steps: Seq<KeyframesStepView>) -> bool {
    forall|i: int, j: int|
        0 <= i <= j < steps.len() ==> (#[trigger] steps[i]).start_percentage.0 <= (
        #[trigger] steps[j]).start_percentage.0
}

/// The steps of `steps` that start at `percentage`, in their order.
pub open spec fn starting_at(
    steps: Seq<KeyframesStepView>,
    percentage: KeyframePercentage,
) -> Seq<KeyframesStepView> {
    steps.filter(starts_at(percentage))
}

/// The test whether a step starts at `percentage`.
pub open spec fn starts_at(percentage: KeyframePercentage) -> spec_fn(KeyframesStepView) -> bool {
    |step: KeyframesStepView| step.start_percentage == percentage
}

/// The keyframes declare as many steps as their selectors hold percentages:
/// at least one for each well-formed keyframe.
pub proof fn lemma_declared_steps_len(keyframes: Seq<LockedKeyframe>)
    requires
        all_wf(keyframes),
    ensures
        declared_steps(keyframes).len() >= keyframes.len(),
    decreases keyframes.len(),
{
    if keyframes.len() > 0 {
        lemma_declared_steps_len(keyframes.drop_last());
        assert(keyframe_wf(keyframes.last().data));
    }
}

/// In sorted steps, every step before the insertion point of a percentage
/// starts no later than the percentage, and every step from it on starts
/// later.
pub proof fn lemma_insertion_point(sorted: Seq<KeyframesStepView>, percentage: KeyframePercentage)
    requires
        is_sorted(sorted),
    ensures
        0 <= insertion_point(sorted, percentage) <= sorted.len(),
        forall|i: int|
            0 <= i < insertion_point(sorted, percentage) ==> (#[trigger] sorted[i]).start_percentage.0
                <= percentage.0,
        forall|i: int|
            insertion_point(sorted, percentage) <= i < sorted.len() ==> (
            #[trigger] sorted[i]).start_percentage.0 > percentage.0,
    decreases sorted.len(),
{
    if sorted.len() > 0 && sorted.last().start_percentage.0 > percentage.0 {
        let shorter = sorted.drop_last();
        assert forall|i: int, j: int| 0 <= i <= j < shorter.len() implies (
        #[trigger] shorter[i]).start_percentage.0 <= (#[trigger] shorter[j]).start_percentage.0 by {
            assert(shorter[i] == sorted[i]);
            assert(shorter[j] == sorted[j]);
        }
        lemma_insertion_point(shorter, percentage);
        let at = insertion_point(shorter, percentage);
        assert forall|i: int| 0 <= i < at implies (#[trigger] sorted[i]).start_percentage.0
            <= percentage.0 by {
            assert(shorter[i] == sorted[i]);
        }
        assert forall|i: int| at <= i < sorted.len() implies (#[trigger] sorted[i]).start_percentage.0
            > percentage.0 by {
            if i < shorter.len() {
                assert(shorter[i] == sorted[i]);
            }
        }
    } else if sorted.len() > 0 {
        assert forall|i: int| 0 <= i < sorted.len() implies (#[trigger] sorted[i]).start_percentage.0
            <= percentage.0 by {
            assert(sorted[i].start_percentage.0 <= sorted[sorted.len() - 1].start_percentage.0);
        }
    }
}

/// Sorting keeps the number of steps, and the result is sorted: no step
/// starts before the step in front of it.
pub proof fn lemma_sort_is_sorted(steps: Seq<KeyframesStepView>)
    ensures
        sorted_steps(steps).len() == steps.len(),
        is_sorted(sorted_steps(steps)),
    decreases steps.len(),
{
    if steps.len() > 0 {
        lemma_sort_is_sorted(steps.drop_last());
        let sorted = sorted_steps(steps.drop_last());
        let step = steps.last();
        lemma_insertion_point(sorted, step.start_percentage);
        let at = insertion_point(sorted, step.start_percentage);
        let after = sorted.insert(at, step);
        assert forall|i: int, j: int| 0 <= i <= j < after.len() implies (
        #[trigger] after[i]).start_percentage.0 <= (#[trigger] after[j]).start_percentage.0 by {
            if i < at {
                assert(after[i] == sorted[i]);
            } else if i > at {
                assert(after[i] == sorted[i - 1]);
            }
            if j < at {
                assert(after[j] == sorted[j]);
            } else if j > at {
                assert(after[j] == sorted[j - 1]);
            }
        }
    }
}

/// Sorting is stable: the steps that start at one percentage come out in the
/// order in which they went in. No step is lost and none is made up.
pub proof fn lemma_sort_is_stable(steps: Seq<KeyframesStepView>, percentage: KeyframePercentage)
    ensures
        starting_at(sorted_steps(steps), percentage) == starting_at(steps, percentage),
    decreases steps.len(),
{
    let keep = starts_at(percentage);
    if steps.len() > 0 {
        lemma_sort_is_stable(steps.drop_last(), percentage);
        lemma_sort_is_sorted(steps.drop_last());
        let sorted = sorted_steps(steps.drop_last());
        let step = steps.last();
        lemma_insertion_point(sorted, step.start_percentage);
        let at = insertion_point(sorted, step.start_percentage);
        let front = sorted.take(at);
        let back = sorted.skip(at);
        assert(sorted =~= front + back);
        assert(sorted.insert(at, step) =~= front.push(step) + back);
        Seq::filter_distributes_over_add(front, back, keep);
        Seq::filter_distributes_over_add(front.push(step), back, keep);
        assert(front.push(step).drop_last() =~= front);
        front.lemma_filter_push(step, keep);
        steps.drop_last().lemma_filter_push(step, keep);
        assert(steps.drop_last().push(step) =~= steps);
        if step.start_percentage == percentage {
            // Every step behind the insertion point starts later.
            assert forall|i: int| 0 <= i < back.len() implies !keep(#[trigger] back[i]) by {
                assert(back[i] == sorted[at + i]);
            }
            back.lemma_all_neg_filter_empty(keep);
            assert(back.filter(keep) =~= Seq::<KeyframesStepView>::empty());
            assert(front.filter(keep) + back.filter(keep) =~= front.filter(keep));
            assert(front.push(step).filter(keep) == front.filter(keep).push(step));
            assert(front.push(step).filter(keep) + back.filter(keep) =~= front.filter(keep).push(
                step,
            ));
            assert(steps.filter(keep) == steps.drop_last().filter(keep).push(step));
        } else {
            assert(front.push(step).filter(keep) == front.filter(keep));
            assert(steps.filter(keep) == steps.drop_last().filter(keep));
        }
    }
}

/// The steps of an animation are sorted by percentage, and unless there are
/// none they start at zero exactly and end at one exactly.
pub proof fn lemma_timeline_is_sorted(
    keyframes: Seq<LockedKeyframe>,
    vendor_prefix: Option<VendorPrefix>,
)
    requires
        all_wf(keyframes),
    ensures
        is_sorted(timeline(keyframes, vendor_prefix).steps),
        timeline(keyframes, vendor_prefix).steps.len() > 0 ==> {
            &&& timeline(keyframes, vendor_prefix).steps.first().start_percentage.0 == ZERO_BITS
            &&& timeline(keyframes, vendor_prefix).steps.last().start_percentage.0 == ONE_BITS
        },
{
    if keyframes.len() > 0 && animated_properties(keyframes).len() > 0 {
        let declared = declared_steps(keyframes);
        lemma_declared_steps_len(keyframes);
        lemma_declared_steps_in_range(keyframes);
        lemma_sort_is_sorted(declared);
        let sorted = sorted_steps(declared);
        assert forall|i: int| 0 <= i < sorted.len() implies (#[trigger] sorted[i]).start_percentage.in_range() by {
            lemma_sort_keeps_steps(declared, i);
        }
        let zero = computed_step(KeyframePercentage(ZERO_BITS));
        let one = computed_step(KeyframePercentage(ONE_BITS));
        let started = if sorted.first().start_percentage.0 != ZERO_BITS {
            seq![zero] + sorted
        } else {
            sorted
        };
        assert forall|i: int| 0 <= i < started.len() implies (#[trigger] started[i]).start_percentage.0
            <= ONE_BITS by {
            if sorted.first().start_percentage.0 != ZERO_BITS && i > 0 {
                assert(started[i] == sorted[i - 1]);
            }
        }
        assert(is_sorted(started)) by {
            assert forall|i: int, j: int| 0 <= i <= j < started.len() implies (
            #[trigger] started[i]).start_percentage.0 <= (#[trigger] started[j]).start_percentage.0 by {
                if sorted.first().start_percentage.0 != ZERO_BITS {
                    if i > 0 {
                        assert(started[i] == sorted[i - 1]);
                        assert(started[j] == sorted[j - 1]);
                    }
                }
            }
        }
        let steps = with_boundaries(sorted);
        assert(is_sorted(steps)) by {
            assert forall|i: int, j: int| 0 <= i <= j < steps.len() implies (
            #[trigger] steps[i]).start_percentage.0 <= (#[trigger] steps[j]).start_percentage.0 by {
                if i < started.len() {
                    assert(steps[i] == started[i]);
                }
                if j < started.len() {
                    assert(steps[j] == started[j]);
                }
            }
        }
    }
}

/// Each step that the keyframes declare starts at a percentage of one of
/// the keyframes.
pub proof fn lemma_declared_steps_in_range(keyframes: Seq<LockedKeyframe>)
    requires
        all_wf(keyframes),
    ensures
        forall|i: int|
            0 <= i < declared_steps(keyframes).len() ==> (#[trigger] declared_steps(
                keyframes,
            )[i]).start_percentage.in_range(),
    decreases keyframes.len(),
{
    if keyframes.len() > 0 {
        let shorter = keyframes.drop_last();
        assert forall|k: int| 0 <= k < shorter.len() implies keyframe_wf(
            (#[trigger] shorter[k]).data,
        ) by {
            assert(shorter[k] == keyframes[k]);
        }
        lemma_declared_steps_in_range(shorter);
        let last = keyframes.last().data;
        let steps = declared_steps(keyframes);
        assert forall|i: int| 0 <= i < steps.len() implies (#[trigger] steps[i]).start_percentage.in_range() by {
            let before = declared_steps(shorter).len();
            if i >= before {
                assert(steps[i] == keyframe_steps(last)[i - before]);
                assert(keyframe_wf(keyframes[keyframes.len() - 1].data));
                assert(last.selector[i - before].in_range());
            } else {
                assert(steps[i] == declared_steps(shorter)[i]);
            }
        }
    }
}

/// Each step of the sorted steps is one of the steps that were sorted.
pub proof fn lemma_sort_keeps_steps(steps: Seq<KeyframesStepView>, i: int)
    requires
        0 <= i < sorted_steps(steps).len(),
    ensures
        steps.contains(sorted_steps(steps)[i]),
    decreases steps.len(),
{
    lemma_sort_is_sorted(steps);
    if steps.len() > 0 {
        let shorter = steps.drop_last();
        lemma_sort_is_sorted(shorter);
        let sorted = sorted_steps(shorter);
        lemma_insertion_point(sorted, steps.last().start_percentage);
        let at = insertion_point(sorted, steps.last().start_percentage);
        let after = sorted.insert(at, steps.last());
        if i == at {
            assert(after[i] == steps[steps.len() - 1]);
        } else {
            let from = if i < at {
                i
            } else {
                i - 1
            };
            assert(after[i] == sorted[from]);
            lemma_sort_keeps_steps(shorter, from);
            let found = choose|j: int| 0 <= j < shorter.len() && shorter[j] == sorted[from];
            assert(steps[found] == shorter[found]);
        }
    }
}

/// Two animations that are derived from the same keyframes are the same:
/// the steps and the properties are decided by the keyframes alone.
pub proof fn lemma_timeline_is_determined(
    first: KeyframesAnimationView,
    second: KeyframesAnimationView,
    keyframes: Seq<LockedKeyframe>,
    vendor_prefix: Option<VendorPrefix>,
)
    requires
        first == timeline(keyframes, vendor_prefix),
        second == timeline(keyframes, vendor_prefix),
    ensures
        first == second,
        first.steps == second.steps,
{
}

/// No property comes twice in `first_seen`, and the properties in it are
/// those that were given.
pub proof fn lemma_first_seen_is_distinct(properties: Seq<TransitionProperty>)
    ensures
        first_seen(properties).no_duplicates(),
        forall|property: TransitionProperty|
            first_seen(properties).contains(property) <==> properties.contains(property),
    decreases properties.len(),
{
    if properties.len() > 0 {
        let shorter = properties.drop_last();
        let last = properties.last();
        lemma_first_seen_is_distinct(shorter);
        let before = first_seen(shorter);
        let after = first_seen(properties);
        assert forall|property: TransitionProperty|
            after.contains(property) <==> properties.contains(property) by {
            if properties.contains(property) {
                let i = choose|i: int| 0 <= i < properties.len() && properties[i] == property;
                if i < shorter.len() {
                    assert(shorter[i] == property);
                    assert(shorter.contains(property));
                    assert(before.contains(property));
                    let j = choose|j: int| 0 <= j < before.len() && before[j] == property;
                    assert(after[j] == property);
                } else if !before.contains(last) {
                    assert(after[before.len() as int] == property);
                }
            }
            if after.contains(property) {
                let j = choose|j: int| 0 <= j < after.len() && after[j] == property;
                if j < before.len() {
                    assert(before[j] == property);
                    assert(before.contains(property));
                    assert(shorter.contains(property));
                    let i = choose|i: int| 0 <= i < shorter.len() && shorter[i] == property;
                    assert(properties[i] == property);
                } else {
                    assert(properties[properties.len() - 1] == property);
                }
            }
        }
    }
}

/// The properties of an animation are distinct, and each of them is
/// declared by a keyframe.
pub proof fn lemma_timeline_properties(
    keyframes: Seq<LockedKeyframe>,
    vendor_prefix: Option<VendorPrefix>,
)
    ensures
        timeline(keyframes, vendor_prefix).properties_changed.no_duplicates(),
        forall|property: TransitionProperty|
            timeline(keyframes, vendor_prefix).properties_changed.contains(property)
                ==> declared_properties(keyframes).contains(property),
{
    lemma_first_seen_is_distinct(declared_properties(keyframes));
}

/// Each step that the keyframes declare is what `step_of` makes of its
/// percentage and the block of its keyframe.
pub proof fn lemma_declared_steps_are_declarations(keyframes: Seq<LockedKeyframe>, i: int)
    requires
        0 <= i < declared_steps(keyframes).len(),
    ensures
        declared_steps(keyframes)[i].value is Declarations,
        declared_steps(keyframes)[i] == step_of(
            declared_steps(keyframes)[i].start_percentage,
            declared_steps(keyframes)[i].value,
        ),
    decreases keyframes.len(),
{
    if keyframes.len() > 0 {
        let before = declared_steps(keyframes.drop_last());
        if i < before.len() {
            lemma_declared_steps_are_declarations(keyframes.drop_last(), i);
        }
    }
}

/// Each step of an animation is what `step_of` makes of its percentage and
/// its value. So a step of computed values never has a timing function
/// declared.
pub proof fn lemma_timeline_steps(
    keyframes: Seq<LockedKeyframe>,
    vendor_prefix: Option<VendorPrefix>,
    i: int,
)
    requires
        all_wf(keyframes),
        0 <= i < timeline(keyframes, vendor_prefix).steps.len(),
    ensures
        timeline(keyframes, vendor_prefix).steps[i] == step_of(
            timeline(keyframes, vendor_prefix).steps[i].start_percentage,
            timeline(keyframes, vendor_prefix).steps[i].value,
        ),
        timeline(keyframes, vendor_prefix).steps[i].value is ComputedValues ==> !timeline(
            keyframes,
            vendor_prefix,
        ).steps[i].declared_timing_function,
{
    let declared = declared_steps(keyframes);
    let sorted = sorted_steps(declared);
    lemma_declared_steps_len(keyframes);
    lemma_sort_is_sorted(declared);
    let steps = timeline(keyframes, vendor_prefix).steps;
    let shift: int = if sorted.first().start_percentage.0 != ZERO_BITS {
        1
    } else {
        0
    };
    if shift <= i < shift + sorted.len() {
        assert(steps[i] == sorted[i - shift]);
        lemma_sort_keeps_steps(declared, i - shift);
        let from = choose|j: int| 0 <= j < declared.len() && declared[j] == sorted[i - shift];
        lemma_declared_steps_are_declarations(keyframes, from);
    }
}

/// The declarations of each step of an animation are the declarations of
/// one of the keyframes.
pub proof fn lemma_timeline_blocks(
    keyframes: Seq<LockedKeyframe>,
    vendor_prefix: Option<VendorPrefix>,
    i: int,
)
    requires
        all_wf(keyframes),
        0 <= i < timeline(keyframes, vendor_prefix).steps.len(),
    ensures
        timeline(keyframes, vendor_prefix).steps[i].value matches KeyframesStepValueView::Declarations {
            block,
        } ==> exists|k: int| 0 <= k < keyframes.len() && (#[trigger] keyframes[k]).data.block == block,
{
    let declared = declared_steps(keyframes);
    let sorted = sorted_steps(declared);
    lemma_declared_steps_len(keyframes);
    lemma_sort_is_sorted(declared);
    let steps = timeline(keyframes, vendor_prefix).steps;
    let shift: int = if sorted.first().start_percentage.0 != ZERO_BITS {
        1
    } else {
        0
    };
    if shift <= i < shift + sorted.len() {
        assert(steps[i] == sorted[i - shift]);
        lemma_sort_keeps_steps(declared, i - shift);
        let from = choose|j: int| 0 <= j < declared.len() && declared[j] == sorted[i - shift];
        lemma_declared_steps_blocks(keyframes, from);
    }
}

/// The declarations of each step that the keyframes declare are the
/// declarations of one of the keyframes.
pub proof fn lemma_declared_steps_blocks(keyframes: Seq<LockedKeyframe>, i: int)
    requires
        0 <= i < declared_steps(keyframes).len(),
    ensures
        exists|k: int|
            0 <= k < keyframes.len() && declared_steps(keyframes)[i].value
                == (KeyframesStepValueView::Declarations {
                block: (#[trigger] keyframes[k]).data.block,
            }),
    decreases keyframes.len(),
{
    if keyframes.len() > 0 {
        let shorter = keyframes.drop_last();
        let before = declared_steps(shorter);
        if i < before.len() {
            lemma_declared_steps_blocks(shorter, i);
            let k = choose|k: int|
                0 <= k < shorter.len() && before[i].value
                    == (KeyframesStepValueView::Declarations {
                    block: (#[trigger] shorter[k]).data.block,
                });
            assert(shorter[k] == keyframes[k]);
        } else {
            assert(declared_steps(keyframes)[i].value == (KeyframesStepValueView::Declarations {
                block: keyframes[keyframes.len() - 1].data.block,
            }));
        }
    }
}

/// Each step of an animation is well formed, and its declarations are
/// under the lock of the keyframes, where the blocks of the keyframes are
/// well formed. So the timing function of each step can be asked for.
pub proof fn lemma_timeline_steps_wf(
    keyframes: Seq<LockedKeyframe>,
    vendor_prefix: Option<VendorPrefix>,
    lock: SharedRwLock,
    i: int,
)
    requires
        all_wf(keyframes),
        all_blocks_wf(keyframes),
        all_under_lock(keyframes, lock),
        0 <= i < timeline(keyframes, vendor_prefix).steps.len(),
    ensures
        timeline(keyframes, vendor_prefix).steps[i].wf(),
        timeline(keyframes, vendor_prefix).steps[i].value matches KeyframesStepValueView::Declarations {
            block,
        } ==> block.lock == lock,
{
    lemma_timeline_steps(keyframes, vendor_prefix, i);
    lemma_timeline_blocks(keyframes, vendor_prefix, i);
    if let KeyframesStepValueView::Declarations { block } = timeline(
        keyframes,
        vendor_prefix,
    ).steps[i].value {
        let k = choose|k: int| 0 <= k < keyframes.len() && (#[trigger] keyframes[k]).data.block == block;
        assert(under_lock(keyframes[k], lock));
        assert(entries_wf(keyframes[k].data.block.data));
    }
}

/// Whether no declaration of `keyframes` sets a longhand with transitions.
pub open spec fn nothing_to_animate(keyframes: Seq<LockedKeyframe>) -> bool {
    forall|k: int, i: int|
        0 <= k < keyframes.len() && 0 <= i < keyframes[k].data.block.data.len() ==> (
        #[trigger] keyframes[k].data.block.data[i]).0.transition_property().is_none()
}

/// A block without a longhand with transitions has no property to animate.
pub proof fn lemma_block_without_properties(entries: Entries)
    requires
        forall|i: int|
            0 <= i < entries.len() ==> (#[trigger] entries[i]).0.transition_property().is_none(),
    ensures
        block_properties(entries).len() == 0,
    decreases entries.len(),
{
    reveal(Seq::filter_map);
    if entries.len() > 0 {
        let shorter = entries.drop_last();
        assert forall|i: int| 0 <= i < shorter.len() implies (
        #[trigger] shorter[i]).0.transition_property().is_none() by {
            assert(shorter[i] == entries[i]);
        }
        lemma_block_without_properties(shorter);
        assert(entries[entries.len() - 1].0.transition_property().is_none());
    }
}

/// Keyframes that set no longhand with transitions make an animation without
/// steps and without properties, however many they are. So do no keyframes
/// at all.
pub proof fn lemma_timeline_of_nothing(
    keyframes: Seq<LockedKeyframe>,
    vendor_prefix: Option<VendorPrefix>,
)
    requires
        nothing_to_animate(keyframes),
    ensures
        declared_properties(keyframes).len() == 0,
        timeline(keyframes, vendor_prefix).steps.len() == 0,
        timeline(keyframes, vendor_prefix).properties_changed.len() == 0,
        timeline(keyframes, vendor_prefix).vendor_prefix == vendor_prefix,
    decreases keyframes.len(),
{
    if keyframes.len() > 0 {
        let shorter = keyframes.drop_last();
        assert forall|k: int, i: int|
            0 <= k < shorter.len() && 0 <= i < shorter[k].data.block.data.len() implies (
        #[trigger] shorter[k].data.block.data[i]).0.transition_property().is_none() by {
            assert(shorter[k] == keyframes[k]);
        }
        lemma_timeline_of_nothing(shorter, vendor_prefix);
        let last = keyframes.last().data.block.data;
        assert forall|i: int| 0 <= i < last.len() implies (
        #[trigger] last[i]).0.transition_property().is_none() by {
            assert(keyframes[keyframes.len() - 1].data.block.data[i].0.transition_property().is_none());
        }
        lemma_block_without_properties(last);
    }
}

} // verus!
