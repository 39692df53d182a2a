//! The steps of an animation, derived from the keyframes of a rule.
//!
//! The keyframes of a rule come in the order in which they were written, and
//! a selector may hold several percentages. An animation is played from a
//! list of steps that is sorted by percentage and runs from the start of the
//! animation to its end. `KeyframesAnimation::from_keyframes` derives that
//! list, together with the properties that the keyframes animate.

use vstd::prelude::*;
use std::sync::Arc;
use crate::declaration_block::{
    all_normal,
    entries_wf,
    first_of,
    has_timing_function,
    lemma_first_exists,
    Entries,
    PropertyDeclarationBlock,
};
use crate::keyframe::{
    all_under_lock,
    keyframe_wf,
    none_important,
    under_lock,
    Keyframe,
    KeyframeView,
    LockedKeyframe,
};
use crate::percentage::{KeyframePercentage, ONE_BITS, ZERO_BITS};
use crate::properties::{
    DeclaredValue,
    Importance,
    LonghandId,
    LonghandIdSet,
    PropertyDeclarationId,
    PropertyDeclarationView,
    SpecifiedTimingFunction,
    TransitionProperty,
};
use crate::selector::selector_wf;
use crate::shared_lock::{share, Locked, LockedView, SharedRwLockReadGuard};
use crate::animation_laws::{
    is_sorted,
    lemma_declared_steps_len,
    lemma_sort_is_sorted,
    lemma_timeline_is_sorted,
};
use crate::views::{lemma_views_push, views};

verus! {

/// The prefix that an `@keyframes` rule was written with.
#[derive(Clone, Copy, Debug, PartialEq, Eq, Structural)]
pub enum VendorPrefix {
    Moz,
    WebKit,
}

/// What a step applies: the declarations of a keyframe, or the values that
/// the element has when the animation starts.
#[derive(Debug)]
pub enum KeyframesStepValue {
    /// The block of a keyframe, shared with the keyframe.
    Declarations { block: Arc<Locked<PropertyDeclarationBlock>> },
    /// A step that was not declared: it stands for the values that are
    /// computed for the element without the animation.
    ComputedValues,
}

/// What the value of a step is in contracts.
pub enum KeyframesStepValueView {
    Declarations { block: LockedView<Entries> },
    ComputedValues,
}

impl View for KeyframesStepValue {
    type V = KeyframesStepValueView;

    open spec fn view(&self) -> KeyframesStepValueView {
        match *self {
            KeyframesStepValue::Declarations { block } => KeyframesStepValueView::Declarations {
                block: block@,
            },
            KeyframesStepValue::ComputedValues => KeyframesStepValueView::ComputedValues,
        }
    }
}

/// One step of an animation.
#[derive(Debug)]
pub struct KeyframesStep {
    /// Where in the animation the step starts.
    pub start_percentage: KeyframePercentage,
    /// What the step applies.
    pub value: KeyframesStepValue,
    /// Whether the declarations of the step give a list of timing
    /// functions. A step of computed values never does.
    pub declared_timing_function: bool,
}

/// What a step is in contracts.
pub struct KeyframesStepView {
    pub start_percentage: KeyframePercentage,
    pub value: KeyframesStepValueView,
    pub declared_timing_function: bool,
}

impl View for KeyframesStep {
    type V = KeyframesStepView;

    open spec fn view(&self) -> KeyframesStepView {
        KeyframesStepView {
            start_percentage: self.start_percentage,
            value: self.value@,
            declared_timing_function: self.declared_timing_function,
        }
    }
}

/// The step at `percentage` that applies `value`.
pub open spec fn step_of(
    percentage: KeyframePercentage,
    value: KeyframesStepValueView,
) -> KeyframesStepView {
    KeyframesStepView {
        start_percentage: percentage,
        value,
        declared_timing_function: match value {
            KeyframesStepValueView::Declarations { block } => has_timing_function(block.data),
            KeyframesStepValueView::ComputedValues => false,
        },
    }
}

/// The list of timing functions that the declarations give.
pub open spec fn declared_timing_functions(entries: Entries) -> Seq<SpecifiedTimingFunction> {
    let i = choose|i: int| 0 <= i < entries.len() && (#[trigger] entries[i]).0.is_timing_function();
    entries[i].0.value->TimingFunctions_0
}

impl KeyframesStepView {
    /// A step is well formed if it is what `step_of` makes of its percentage
    /// and its value, and if its declarations are well formed.
    pub open spec fn wf(self) -> bool {
        &&& self == step_of(self.start_percentage, self.value)
        &&& self.value matches KeyframesStepValueView::Declarations { block } ==> entries_wf(
            block.data,
        )
    }

    /// The timing function of the step: the first of the list that its
    /// declarations give, if they give one.
    pub open spec fn timing_function(self) -> Option<SpecifiedTimingFunction> {
        if self.declared_timing_function {
            Some(declared_timing_functions(self.value->Declarations_block.data)[0])
        } else {
            None
        }
    }
}

impl KeyframesStep {
    /// The step at `percentage` that applies `value`.
    #[inline]
    pub fn new(
        percentage: KeyframePercentage,
        value: KeyframesStepValue,
        guard: &SharedRwLockReadGuard,
    ) -> (step: KeyframesStep)
        requires
            value matches KeyframesStepValue::Declarations { block } ==> block.same_lock_as(guard),
        ensures
            step@ == step_of(percentage, value@),
    {
        let declared_timing_function = match &value {
            KeyframesStepValue::Declarations { block } => block.read_with(
                guard,
            ).has_timing_function(),
            KeyframesStepValue::ComputedValues => false,
        };
        KeyframesStep { start_percentage: percentage, value, declared_timing_function }
    }

    /// Whether the timing function of the step can be asked for under
    /// `guard`: whether the step declares none, or is well formed and has
    /// its declarations under the lock that `guard` holds.
    pub fn can_get_timing_function(&self, guard: &SharedRwLockReadGuard) -> (ready: bool)
        ensures
            ready == (self.declared_timing_function ==> self@.wf() && (
            self.value matches KeyframesStepValue::Declarations { block } ==> block.same_lock_as(
                guard,
            ))),
    {
        if !self.declared_timing_function {
            return true;
        }
        match &self.value {
            KeyframesStepValue::Declarations { block } => {
                if !block.is_under(guard) {
                    return false;
                }
                let block = block.read_with(guard);
                block.has_timing_function() && block.is_well_formed()
            },
            KeyframesStepValue::ComputedValues => false,
        }
    }

    /// The timing function that the step declares: the first of its list,
    /// or `None` if the step declares none.
    pub fn get_animation_timing_function(&self, guard: &SharedRwLockReadGuard) -> (function:
        Option<SpecifiedTimingFunction>)
        requires
            self.declared_timing_function ==> self@.wf(),
            self.declared_timing_function ==> (self.value matches KeyframesStepValue::Declarations {
                block,
            } ==> block.same_lock_as(guard)),
        ensures
            function == self@.timing_function(),
            function.is_some() == self.declared_timing_function,
    {
        if !self.declared_timing_function {
            return None;
        }
        match &self.value {
            KeyframesStepValue::Declarations { block } => {
                let block = block.read_with(guard);
                let ghost entries = block@;
                let ghost at = choose|i: int|
                    0 <= i < entries.len() && (#[trigger] entries[i]).0.is_timing_function();
                proof {
                    assert(entries[at].0.wf());
                    lemma_first_exists(entries, LonghandId::AnimationTimingFunction, at);
                    let first = first_of(entries, LonghandId::AnimationTimingFunction);
                    if first < at {
                        assert(entries[first].0.id != entries[at].0.id);
                    }
                }
                match block.get(PropertyDeclarationId::Longhand(LonghandId::AnimationTimingFunction)) {
                    Some(entry) => match &entry.0.value {
                        DeclaredValue::TimingFunctions(list) => {
                            assert(list@ == declared_timing_functions(entries));
                            Some(list[0])
                        },
                        _ => None,
                    },
                    None => None,
                }
            },
            KeyframesStepValue::ComputedValues => None,
        }
    }
}

/// The steps of an animation and the properties that it animates.
#[derive(Debug)]
pub struct KeyframesAnimation {
    /// The steps, sorted by the percentage at which they start.
    pub steps: Vec<KeyframesStep>,
    /// The properties that the animation changes, each once, in the order
    /// in which the keyframes first declare them.
    pub properties_changed: Vec<TransitionProperty>,
    /// The prefix that the rule was written with.
    pub vendor_prefix: Option<VendorPrefix>,
}

/// What an animation is in contracts.
pub struct KeyframesAnimationView {
    pub steps: Seq<KeyframesStepView>,
    pub properties_changed: Seq<TransitionProperty>,
    pub vendor_prefix: Option<VendorPrefix>,
}

impl View for KeyframesAnimation {
    type V = KeyframesAnimationView;

    open spec fn view(&self) -> KeyframesAnimationView {
        KeyframesAnimationView {
            steps: views(self.steps@),
            properties_changed: self.properties_changed@,
            vendor_prefix: self.vendor_prefix,
        }
    }
}

/// The longhands with transitions that the declarations of a block set, in
/// the order of the declarations.
pub open spec fn block_properties(entries: Entries) -> Seq<TransitionProperty> {
    entries.filter_map(
        |entry: (PropertyDeclarationView, Importance)| entry.0.transition_property(),
    )
}

/// The longhands with transitions that the keyframes set: keyframe after
/// keyframe, and within a keyframe declaration after declaration. A longhand
/// comes as often as it is declared.
pub open spec fn declared_properties(keyframes: Seq<LockedKeyframe>) -> Seq<TransitionProperty>
    decreases keyframes.len(),
{
    if keyframes.len() == 0 {
        Seq::empty()
    } else {
        declared_properties(keyframes.drop_last()) + block_properties(
            keyframes.last().data.block.data,
        )
    }
}

/// The items of `properties`, each once, in the order in which they first
/// occur.
pub open spec fn first_seen(properties: Seq<TransitionProperty>) -> Seq<TransitionProperty>
    decreases properties.len(),
{
    if properties.len() == 0 {
        Seq::empty()
    } else {
        let before = first_seen(properties.drop_last());
        if before.contains(properties.last()) {
            before
        } else {
            before.push(properties.last())
        }
    }
}

/// The properties that the keyframes animate, each once, in the order in
/// which they are first declared.
pub open spec fn animated_properties(keyframes: Seq<LockedKeyframe>) -> Seq<TransitionProperty> {
    first_seen(declared_properties(keyframes))
}

/// The steps that one keyframe declares: one for each percentage of its
/// selector, all with the block of the keyframe.
pub open spec fn keyframe_steps(keyframe: KeyframeView) -> Seq<KeyframesStepView> {
    Seq::new(
        keyframe.selector.len(),
        |i: int|
            step_of(
                keyframe.selector[i],
                KeyframesStepValueView::Declarations { block: keyframe.block },
            ),
    )
}

/// The steps that the keyframes declare, keyframe after keyframe.
pub open spec fn declared_steps(keyframes: Seq<LockedKeyframe>) -> Seq<KeyframesStepView>
    decreases keyframes.len(),
{
    if keyframes.len() == 0 {
        Seq::empty()
    } else {
        declared_steps(keyframes.drop_last()) + keyframe_steps(keyframes.last().data)
    }
}

/// The place at which a step that starts at `percentage` goes into the
/// sorted steps `sorted`: behind the last step that does not start later.
pub open spec fn insertion_point(sorted: Seq<KeyframesStepView>, percentage: KeyframePercentage) -> int
    decreases sorted.len(),
{
    if sorted.len() == 0 {
        0
    } else if sorted.last().start_percentage.0 <= percentage.0 {
        sorted.len() as int
    } else {
        insertion_point(sorted.drop_last(), percentage)
    }
}

/// The steps sorted by the percentage at which they start. Steps that start
/// at the same percentage stay in the order in which they were given: see
/// `lemma_sort_is_sorted` and `lemma_sort_is_stable`.
pub open spec fn sorted_steps(steps: Seq<KeyframesStepView>) -> Seq<KeyframesStepView>
    decreases steps.len(),
{
    if steps.len() == 0 {
        Seq::empty()
    } else {
        let sorted = sorted_steps(steps.drop_last());
        sorted.insert(insertion_point(sorted, steps.last().start_percentage), steps.last())
    }
}

/// The step of computed values at `percentage`.
pub open spec fn computed_step(percentage: KeyframePercentage) -> KeyframesStepView {
    step_of(percentage, KeyframesStepValueView::ComputedValues)
}

/// The sorted steps with a step of computed values before them unless they
/// start at zero exactly, and one behind them unless they end at one
/// exactly.
pub open spec fn with_boundaries(sorted: Seq<KeyframesStepView>) -> Seq<KeyframesStepView>
    recommends
        sorted.len() > 0,
{
    let started = if sorted.first().start_percentage.0 != ZERO_BITS {
        seq![computed_step(KeyframePercentage(ZERO_BITS))] + sorted
    } else {
        sorted
    };
    if started.last().start_percentage.0 != ONE_BITS {
        started.push(computed_step(KeyframePercentage(ONE_BITS)))
    } else {
        started
    }
}

/// The animation that the keyframes of a rule amount to. Without keyframes,
/// or where the keyframes animate no property, it has no steps and no
/// properties.
pub open spec fn timeline(
    keyframes: Seq<LockedKeyframe>,
    vendor_prefix: Option<VendorPrefix>,
) -> KeyframesAnimationView {
    if keyframes.len() == 0 || animated_properties(keyframes).len() == 0 {
        KeyframesAnimationView {
            steps: Seq::empty(),
            properties_changed: Seq::empty(),
            vendor_prefix,
        }
    } else {
        KeyframesAnimationView {
            steps: with_boundaries(sorted_steps(declared_steps(keyframes))),
            properties_changed: animated_properties(keyframes),
            vendor_prefix,
        }
    }
}

/// The properties that the keyframes animate, each once, in the order in
/// which they are first declared.
pub fn get_animated_properties(
    keyframes: &[Arc<Locked<Keyframe>>],
    guard: &SharedRwLockReadGuard,
) -> (properties: Vec<TransitionProperty>)
    requires
        all_under_lock(views(keyframes@), guard.lock()),
        none_important(views(keyframes@)),
    ensures
        properties@ == animated_properties(views(keyframes@)),
{
    let mut ret: Vec<TransitionProperty> = Vec::new();
    let mut seen = LonghandIdSet::new();
    let ghost all = views(keyframes@);
    let mut k: usize = 0;
    while k < keyframes.len()
        invariant
            k <= keyframes@.len(),
            all == views(keyframes@),
            all_under_lock(all, guard.lock()),
            ret@ == animated_properties(all.take(k as int)),
            seen@ == ret@.to_set(),
        decreases keyframes.len() - k,
    {
        assert(under_lock(all[k as int], guard.lock()));
        let keyframe = keyframes[k].read_with(guard);
        let block = keyframe.block.read_with(guard);
        let declarations = block.declarations();
        let ghost entries = block@;
        let ghost before = declared_properties(all.take(k as int));
        assert(entries == all[k as int].data.block.data);
        let mut j: usize = 0;
        while j < declarations.len()
            invariant
                j <= declarations@.len(),
                declarations@.len() == entries.len(),
                forall|i: int|
                    0 <= i < entries.len() ==> (#[trigger] declarations@[i]).0@ == entries[i].0
                        && declarations@[i].1 == entries[i].1,
                ret@ == first_seen(before + block_properties(entries.take(j as int))),
                seen@ == ret@.to_set(),
            decreases declarations.len() - j,
        {
            let ghost done = before + block_properties(entries.take(j as int));
            proof {
                assert(entries.take(j + 1).drop_last() =~= entries.take(j as int));
                assert(entries.take(j + 1).last() == entries[j as int]);
            }
            if let Some(property) = TransitionProperty::from_declaration(&declarations[j].0) {
                proof {
                    assert(block_properties(entries.take(j + 1)) =~= block_properties(
                        entries.take(j as int),
                    ).push(property));
                    assert(before + block_properties(entries.take(j + 1)) =~= done.push(property));
                    assert(done.push(property).drop_last() =~= done);
                }
                if !seen.has_transition_property_bit(&property) {
                    seen.set_transition_property_bit(&property);
                    ret.push(property);
                    proof {
                        let ghost old_ret = first_seen(done);
                        assert(ret@ == old_ret.push(property));
                        assert(ret@.to_set() =~= old_ret.to_set().insert(property)) by {
                            assert forall|p: TransitionProperty|
                                ret@.to_set().contains(p) == old_ret.to_set().insert(
                                    property,
                                ).contains(p) by {
                                if old_ret.contains(p) {
                                    let i = choose|i: int| 0 <= i < old_ret.len() && old_ret[i] == p;
                                    assert(ret@[i] == p);
                                }
                                if p == property {
                                    assert(ret@[old_ret.len() as int] == p);
                                }
                            }
                        }
                    }
                }
            } else {
                assert(block_properties(entries.take(j + 1)) =~= block_properties(
                    entries.take(j as int),
                ));
            }
            j += 1;
        }
        proof {
            assert(entries.take(j as int) =~= entries);
            assert(all.take(k + 1).drop_last() =~= all.take(k as int));
            assert(all.take(k + 1).last() == all[k as int]);
        }
        k += 1;
    }
    assert(all.take(k as int) =~= all);
    ret
}

/// Puts `step` into the sorted steps `sorted`, behind the last step that
/// does not start later.
fn insert_step(sorted: &mut Vec<KeyframesStep>, step: KeyframesStep)
    ensures
        views(final(sorted)@) == views(old(sorted)@).insert(
            insertion_point(views(old(sorted)@), step.start_percentage),
            step@,
        ),
{
    let ghost before = views(sorted@);
    let ghost percentage = step.start_percentage;
    let mut at: usize = sorted.len();
    assert(before.take(at as int) =~= before);
    while at > 0 && sorted[at - 1].start_percentage.0 > step.start_percentage.0
        invariant
            at <= sorted@.len(),
            before == views(sorted@),
            percentage == step.start_percentage,
            insertion_point(before, percentage) == insertion_point(
                before.take(at as int),
                percentage,
            ),
        decreases at,
    {
        assert(before.take(at as int).drop_last() =~= before.take(at - 1));
        at -= 1;
    }
    sorted.insert(at, step);
    assert(views(sorted@) =~= before.insert(at as int, step@));
}

/// Sorts the steps by the percentage at which they start. Steps that start
/// at the same percentage stay in the order in which they were given.
pub fn sort_steps(steps: Vec<KeyframesStep>) -> (sorted: Vec<KeyframesStep>)
    ensures
        views(sorted@) == sorted_steps(views(steps@)),
{
    let ghost all = views(steps@);
    let mut sorted: Vec<KeyframesStep> = Vec::new();
    assert(views(sorted@) =~= sorted_steps(all.take(0)));
    for step in iter: steps
        invariant
            iter.seq() == steps@,
            all == views(steps@),
            views(sorted@) == sorted_steps(all.take(iter.index() as int)),
    {
        proof {
            let done = iter.index() as int;
            assert(all.take(done + 1).drop_last() =~= all.take(done));
            assert(all.take(done + 1).last() == step@);
        }
        insert_step(&mut sorted, step);
    }
    assert(all.take(steps@.len() as int) =~= all);
    sorted
}

/// The steps that the keyframes declare, in the order of the keyframes.
fn collect_steps(keyframes: &[Arc<Locked<Keyframe>>], guard: &SharedRwLockReadGuard) -> (steps:
    Vec<KeyframesStep>)
    requires
        all_under_lock(views(keyframes@), guard.lock()),
    ensures
        views(steps@) == declared_steps(views(keyframes@)),
        forall|k: int|
            0 <= k < keyframes@.len() ==> selector_wf(
                (#[trigger] views(keyframes@)[k]).data.selector,
            ),
{
    let ghost all = views(keyframes@);
    let mut steps: Vec<KeyframesStep> = Vec::new();
    assert(views(steps@) =~= declared_steps(all.take(0)));
    let mut k: usize = 0;
    while k < keyframes.len()
        invariant
            k <= keyframes@.len(),
            all == views(keyframes@),
            all_under_lock(all, guard.lock()),
            views(steps@) == declared_steps(all.take(k as int)),
            forall|j: int| 0 <= j < k ==> selector_wf((#[trigger] all[j]).data.selector),
        decreases keyframes.len() - k,
    {
        assert(under_lock(all[k as int], guard.lock()));
        let keyframe = keyframes[k].read_with(guard);
        let percentages = keyframe.selector.percentages();
        let ghost before = views(steps@);
        let ghost declared = keyframe_steps(keyframe@);
        assert(keyframe@ == all[k as int].data);
        let mut i: usize = 0;
        while i < percentages.len()
            invariant
                i <= percentages@.len(),
                percentages@ == keyframe@.selector,
                keyframe.block.same_lock_as(guard),
                declared == keyframe_steps(keyframe@),
                views(steps@) == before + declared.take(i as int),
            decreases percentages.len() - i,
        {
            let step = KeyframesStep::new(
                percentages[i],
                KeyframesStepValue::Declarations { block: share(&keyframe.block) },
                guard,
            );
            proof {
                lemma_views_push(steps@, step);
                assert(step@ == declared[i as int]);
                assert(before + declared.take(i + 1) =~= (before + declared.take(i as int)).push(
                    declared[i as int],
                ));
            }
            steps.push(step);
            i += 1;
        }
        proof {
            assert(declared.take(i as int) =~= declared);
            assert(all.take(k + 1).drop_last() =~= all.take(k as int));
            assert(all.take(k + 1).last() == all[k as int]);
        }
        k += 1;
    }
    assert(all.take(k as int) =~= all);
    steps
}

impl KeyframesAnimation {
    /// The animation that the keyframes of a rule amount to.
    ///
    /// Without keyframes, or where the keyframes animate no property, the
    /// animation has no steps and no properties. Otherwise each percentage
    /// of each keyframe gives a step; the steps are sorted by percentage,
    /// those at the same percentage in the order of the keyframes; and a
    /// step of computed values is put before them unless they start at zero
    /// exactly, and one behind them unless they end at one exactly.
    pub fn from_keyframes(
        keyframes: &[Arc<Locked<Keyframe>>],
        vendor_prefix: Option<VendorPrefix>,
        guard: &SharedRwLockReadGuard,
    ) -> (animation: KeyframesAnimation)
        requires
            all_under_lock(views(keyframes@), guard.lock()),
            none_important(views(keyframes@)),
        ensures
            animation@ == timeline(views(keyframes@), vendor_prefix),
            is_sorted(animation@.steps),
            animation@.steps.len() > 0 ==> {
                &&& animation@.steps.first().start_percentage.0 == ZERO_BITS
                &&& animation@.steps.last().start_percentage.0 == ONE_BITS
            },
    {
        let ghost all = views(keyframes@);
        let mut result = KeyframesAnimation {
            steps: Vec::new(),
            properties_changed: Vec::new(),
            vendor_prefix,
        };
        assert(views(result.steps@) =~= Seq::<KeyframesStepView>::empty());
        if keyframes.len() == 0 {
            return result;
        }
        result.properties_changed = get_animated_properties(keyframes, guard);
        if result.properties_changed.len() == 0 {
            return result;
        }
        let mut steps = sort_steps(collect_steps(keyframes, guard));
        proof {
            assert forall|k: int| 0 <= k < all.len() implies keyframe_wf(
                (#[trigger] all[k]).data,
            ) by {
                assert(selector_wf(all[k].data.selector));
                assert(all_normal(all[k].data.block.data));
            }
            lemma_timeline_is_sorted(all, vendor_prefix);
            lemma_declared_steps_len(all);
            lemma_sort_is_sorted(declared_steps(all));
        }
        let ghost sorted = views(steps@);

        // A step of computed values goes first unless a step starts at zero.
        if !steps[0].start_percentage.is_start() {
            let first = KeyframesStep::new(
                KeyframePercentage::new(ZERO_BITS),
                KeyframesStepValue::ComputedValues,
                guard,
            );
            steps.insert(0, first);
            assert(views(steps@) =~= seq![computed_step(KeyframePercentage(ZERO_BITS))] + sorted);
        }
        let ghost started = views(steps@);
        // And one goes last unless a step starts at one.
        if !steps[steps.len() - 1].start_percentage.is_end() {
            let last = KeyframesStep::new(
                KeyframePercentage::new(ONE_BITS),
                KeyframesStepValue::ComputedValues,
                guard,
            );
            proof {
                lemma_views_push(steps@, last);
            }
            steps.push(last);
        }
        result.steps = steps;
        result
    }
}

} // verus!
