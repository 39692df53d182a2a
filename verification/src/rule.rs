//! The `@keyframes` rule: a name and the keyframes of the animation of that
//! name, in the order in which they were written.

use vstd::prelude::*;
use vstd::string::*;
use std::sync::Arc;
use cssparser::SourceLocation;
use crate::animation::VendorPrefix;
use crate::css::{text, write_str, CssFragment, CssFragmentView};
use crate::declaration_block::entries_css;
use crate::error::ParseErrorKind;
use crate::keyframe::{
    all_under_lock,
    keyframes_under_lock,
    under_lock,
    Keyframe,
    KeyframeView,
    LockedKeyframe,
};
use crate::name::{KeyframesName, KeyframesNameView};
use crate::percentage::KeyframePercentage;
use crate::selector::{
    selector_css,
    selector_is,
    selector_of_lexemes,
    selector_of_text,
    KeyframeSelector,
};
use crate::tokenizer::{all_settled, reads_as, LexemeView};
use crate::shared_lock::{Locked, LockedView, SharedRwLock, SharedRwLockReadGuard};
use crate::views::{lemma_views_push, views};

verus! {

/// The line and the column of a place in a style sheet, as `cssparser`
/// counts them.
#[verifier::external_type_specification]
#[verifier::external_body]
pub struct ExSourceLocation(SourceLocation);

/// An `@keyframes` rule.
#[derive(Debug)]
pub struct KeyframesRule {
    /// The name of the animation.
    pub name: KeyframesName,
    /// The keyframes, in the order in which they were written. Where two
    /// keyframes have the same selector, the later one is the one that is
    /// found by its selector.
    pub keyframes: Vec<Arc<Locked<Keyframe>>>,
    /// The prefix that the rule was written with.
    pub vendor_prefix: Option<VendorPrefix>,
    /// Where the rule stands in its style sheet.
    pub source_location: SourceLocation,
}

/// What a rule is in contracts.
pub struct KeyframesRuleView {
    pub name: KeyframesNameView,
    pub keyframes: Seq<LockedKeyframe>,
    pub vendor_prefix: Option<VendorPrefix>,
    pub source_location: SourceLocation,
}

impl View for KeyframesRule {
    type V = KeyframesRuleView;

    open spec fn view(&self) -> KeyframesRuleView {
        KeyframesRuleView {
            name: self.name@,
            keyframes: views(self.keyframes@),
            vendor_prefix: self.vendor_prefix,
            source_location: self.source_location,
        }
    }
}

/// The place of the last of `keyframes` whose selector is `selector`.
pub open spec fn last_with_selector(
    keyframes: Seq<LockedKeyframe>,
    selector: Seq<KeyframePercentage>,
) -> Option<int>
    decreases keyframes.len(),
{
    if keyframes.len() == 0 {
        None
    } else if keyframes.last().data.selector == selector {
        Some(keyframes.len() - 1)
    } else {
        last_with_selector(keyframes.drop_last(), selector)
    }
}

/// The place of the keyframe that a selector finds: the last one with that
/// selector. What is no selector finds none.
pub open spec fn found_by(
    keyframes: Seq<LockedKeyframe>,
    selector: Result<Seq<KeyframePercentage>, ParseErrorKind>,
) -> Option<int> {
    match selector {
        Ok(selector) => last_with_selector(keyframes, selector),
        Err(_) => None,
    }
}

/// The place of the keyframe that the text of a selector finds, where the
/// text decides its selector: where none of its percentages is written with
/// an exponent.
pub open spec fn found_rule(keyframes: Seq<LockedKeyframe>, selector: Seq<char>) -> Option<int> {
    found_by(keyframes, selector_of_text(selector))
}

/// The place of the keyframe that a selector finds, if it is one: the last
/// keyframe with that selector.
pub open spec fn found_selector(
    keyframes: Seq<LockedKeyframe>,
    selector: Result<KeyframeSelector, ParseErrorKind>,
) -> Option<int> {
    match selector {
        Ok(selector) => last_with_selector(keyframes, selector@),
        Err(_) => None,
    }
}

/// Whether `found` is the place `expected`.
pub open spec fn place_is(found: Option<usize>, expected: Option<int>) -> bool {
    match found {
        Some(place) => expected == Some(place as int),
        None => expected.is_none(),
    }
}

/// What a keyframe is written as: its selector, and its declarations
/// between braces.
pub open spec fn keyframe_css(keyframe: KeyframeView) -> Seq<CssFragmentView> {
    selector_css(keyframe.selector) + text(seq![' ', '{', ' ']) + text(
        entries_css(keyframe.block.data, 0),
    ) + text(seq![' ', '}'])
}

/// What the keyframes are written as: each on a line of its own.
pub open spec fn keyframes_css(keyframes: Seq<LockedKeyframe>) -> Seq<CssFragmentView>
    decreases keyframes.len(),
{
    if keyframes.len() == 0 {
        Seq::empty()
    } else {
        keyframes_css(keyframes.drop_last()) + text(seq!['\n']) + keyframe_css(
            keyframes.last().data,
        )
    }
}

/// The at-keyword of the rule, with the space behind it.
pub open spec fn at_keyframes() -> Seq<char> {
    seq!['@', 'k', 'e', 'y', 'f', 'r', 'a', 'm', 'e', 's', ' ']
}

/// What a rule is written as: `@keyframes`, the name and an opening brace;
/// the keyframes, each on a line of its own; and the closing brace on the
/// last line.
pub open spec fn rule_css(rule: KeyframesRuleView) -> Seq<CssFragmentView> {
    text(at_keyframes()) + text(rule.name.to_css()) + text(seq![' ', '{']) + keyframes_css(
        rule.keyframes,
    ) + text(seq!['\n', '}'])
}

/// The keyframes with the same selectors and declarations, all under `lock`.
pub open spec fn relocked(keyframes: Seq<LockedKeyframe>, lock: SharedRwLock) -> Seq<
    LockedKeyframe,
> {
    Seq::new(
        keyframes.len(),
        |k: int|
            LockedView {
                lock,
                data: KeyframeView {
                    selector: keyframes[k].data.selector,
                    block: LockedView { lock, data: keyframes[k].data.block.data },
                },
            },
    )
}

impl Keyframe {
    /// Writes the keyframe at the end of `dest`: its selector, and its
    /// declarations between braces.
    pub fn to_css(&self, guard: &SharedRwLockReadGuard, dest: &mut Vec<CssFragment>)
        requires
            self.block.same_lock_as(guard),
        ensures
            views(final(dest)@) == views(old(dest)@) + keyframe_css(self@),
    {
        self.selector.to_css(dest);
        write_str(dest, " { ");
        let mut declarations = String::new();
        self.block.read_with(guard).to_css(&mut declarations);
        assert(declarations@ =~= entries_css(self@.block.data, 0));
        write_str(dest, declarations.as_str());
        write_str(dest, " }");
        proof {
            reveal_strlit(" { ");
            reveal_strlit(" }");
            assert(" { "@ =~= seq![' ', '{', ' ']);
            assert(" }"@ =~= seq![' ', '}']);
            assert(views(dest@) =~= views(old(dest)@) + keyframe_css(self@));
        }
    }
}

impl KeyframesRule {
    /// Writes the rule at the end of `dest`.
    pub fn to_css(&self, guard: &SharedRwLockReadGuard, dest: &mut Vec<CssFragment>)
        requires
            all_under_lock(self@.keyframes, guard.lock()),
        ensures
            views(final(dest)@) == views(old(dest)@) + rule_css(self@),
    {
        let ghost all = self@.keyframes;
        write_str(dest, "@keyframes ");
        self.name.to_css(dest);
        write_str(dest, " {");
        let ghost head = views(dest@);
        proof {
            reveal_strlit("@keyframes ");
            reveal_strlit(" {");
            reveal_strlit("\n");
            reveal_strlit("\n}");
            assert("@keyframes "@ =~= at_keyframes());
            assert(" {"@ =~= seq![' ', '{']);
            assert("\n"@ =~= seq!['\n']);
            assert("\n}"@ =~= seq!['\n', '}']);
            assert(head =~= views(old(dest)@) + (text(at_keyframes()) + text(self@.name.to_css())
                + text(seq![' ', '{'])));
        }
        assert(head + keyframes_css(all.take(0)) =~= head);
        let mut k: usize = 0;
        while k < self.keyframes.len()
            invariant
                k <= self.keyframes@.len(),
                all == views(self.keyframes@),
                all_under_lock(all, guard.lock()),
                views(dest@) == head + keyframes_css(all.take(k as int)),
                "\n"@ == seq!['\n'],
                "\n}"@ == seq!['\n', '}'],
            decreases self.keyframes.len() - k,
        {
            assert(under_lock(all[k as int], guard.lock()));
            let ghost before = views(dest@);
            write_str(dest, "\n");
            let keyframe = self.keyframes[k].read_with(guard);
            assert(keyframe@ == all[k as int].data);
            keyframe.to_css(guard, dest);
            proof {
                assert(all.take(k + 1).drop_last() =~= all.take(k as int));
                assert(all.take(k + 1).last() == all[k as int]);
                assert(views(dest@) =~= head + keyframes_css(all.take(k + 1)));
            }
            k += 1;
        }
        assert(all.take(k as int) =~= all);
        write_str(dest, "\n}");
        assert(views(dest@) =~= views(old(dest)@) + rule_css(self@));
    }

    /// The place of the last keyframe whose selector is the one that
    /// `selector` spells. `None` if `selector` spells no selector or no
    /// keyframe has that selector.
    ///
    /// The selector is the one that the lexemes of one scan of the text
    /// spell. Where no percentage of the text is written with an exponent,
    /// that is the selector of the text, and the result is `found_rule`.
    pub fn find_rule(&self, guard: &SharedRwLockReadGuard, selector: &str) -> (found: Option<usize>)
        requires
            keyframes_under_lock(self@.keyframes, guard.lock()),
        ensures
            exists|lexemes: Seq<LexemeView>| #[trigger]
                reads_as(selector@, lexemes) && place_is(
                    found,
                    found_by(self@.keyframes, selector_of_lexemes(lexemes)),
                ),
            all_settled(selector@) ==> place_is(found, found_rule(self@.keyframes, selector@)),
    {
        let ghost all = self@.keyframes;
        let parsed = KeyframeSelector::parse(selector);
        let ghost lexemes = choose|lexemes: Seq<LexemeView>| #[trigger]
            reads_as(selector@, lexemes) && selector_is(parsed, selector_of_lexemes(lexemes));
        let found = self.find_selector(guard, &parsed);
        assert(reads_as(selector@, lexemes) && place_is(
            found,
            found_by(all, selector_of_lexemes(lexemes)),
        ));
        found
    }

    /// The place of the last keyframe whose selector is `selector`. `None`
    /// if `selector` is no selector or no keyframe has it.
    pub fn find_selector(
        &self,
        guard: &SharedRwLockReadGuard,
        selector: &Result<KeyframeSelector, ParseErrorKind>,
    ) -> (found: Option<usize>)
        requires
            keyframes_under_lock(self@.keyframes, guard.lock()),
        ensures
            place_is(found, found_selector(self@.keyframes, *selector)),
    {
        let ghost all = self@.keyframes;
        if let Ok(parsed) = selector {
            assert(all.take(all.len() as int) =~= all);
            let mut i: usize = self.keyframes.len();
            while i > 0
                invariant
                    i <= self.keyframes@.len(),
                    all == views(self.keyframes@),
                    keyframes_under_lock(all, guard.lock()),
                    selector matches Ok(given) && given@ == parsed@,
                    last_with_selector(all, parsed@) == last_with_selector(
                        all.take(i as int),
                        parsed@,
                    ),
                decreases i,
            {
                i -= 1;
                assert(all[i as int].lock == guard.lock());
                assert(all.take(i + 1).drop_last() =~= all.take(i as int));
                assert(all.take(i + 1).last() == all[i as int]);
                if self.keyframes[i].read_with(guard).selector.same_as(parsed) {
                    return Some(i);
                }
            }
        }
        None
    }

    /// An independent copy of the rule, with every keyframe and every block
    /// under `lock`.
    pub fn deep_clone_with_lock(
        &self,
        lock: &SharedRwLock,
        guard: &SharedRwLockReadGuard,
    ) -> (copy: KeyframesRule)
        requires
            all_under_lock(self@.keyframes, guard.lock()),
        ensures
            copy@ == (KeyframesRuleView { keyframes: relocked(self@.keyframes, *lock), ..self@ }),
    {
        let ghost all = self@.keyframes;
        let mut keyframes: Vec<Arc<Locked<Keyframe>>> = Vec::new();
        let mut k: usize = 0;
        while k < self.keyframes.len()
            invariant
                k <= self.keyframes@.len(),
                all == views(self.keyframes@),
                all_under_lock(all, guard.lock()),
                views(keyframes@) =~= relocked(all, *lock).take(k as int),
            decreases self.keyframes.len() - k,
        {
            assert(under_lock(all[k as int], guard.lock()));
            let keyframe = self.keyframes[k].read_with(guard);
            assert(keyframe@ == all[k as int].data);
            let copy = Arc::new(lock.wrap(keyframe.deep_clone_with_lock(lock, guard)));
            proof {
                lemma_views_push(keyframes@, copy);
                assert(copy@ == relocked(all, *lock)[k as int]);
            }
            keyframes.push(copy);
            k += 1;
        }
        assert(relocked(all, *lock).take(k as int) =~= relocked(all, *lock));
        KeyframesRule {
            name: self.name.deep_clone(),
            keyframes,
            vendor_prefix: self.vendor_prefix,
            source_location: self.source_location,
        }
    }
}

/// The keyframe that a selector finds is the last one with that selector:
/// no keyframe behind it has the selector. If none is found, no keyframe has
/// the selector.
pub proof fn lemma_last_with_selector(
    keyframes: Seq<LockedKeyframe>,
    selector: Seq<KeyframePercentage>,
)
    ensures
        match last_with_selector(keyframes, selector) {
            Some(place) => {
                &&& 0 <= place < keyframes.len()
                &&& keyframes[place].data.selector == selector
                &&& forall|k: int|
                    place < k < keyframes.len() ==> (#[trigger] keyframes[k]).data.selector
                        != selector
            },
            None => forall|k: int|
                0 <= k < keyframes.len() ==> (#[trigger] keyframes[k]).data.selector != selector,
        },
    decreases keyframes.len(),
{
    if keyframes.len() > 0 && keyframes.last().data.selector != selector {
        let shorter = keyframes.drop_last();
        lemma_last_with_selector(shorter, selector);
        match last_with_selector(shorter, selector) {
            Some(place) => {
                assert(shorter[place] == keyframes[place]);
                assert forall|k: int| place < k < keyframes.len() implies (
                #[trigger] keyframes[k]).data.selector != selector by {
                    if k < shorter.len() {
                        assert(shorter[k] == keyframes[k]);
                    }
                }
            },
            None => {
                assert forall|k: int| 0 <= k < keyframes.len() implies (
                #[trigger] keyframes[k]).data.selector != selector by {
                    if k < shorter.len() {
                        assert(shorter[k] == keyframes[k]);
                    }
                }
            },
        }
    }
}

/// A deep copy holds the values that it was made from: as many keyframes,
/// each with the same selector and declarations, and all of them under the
/// lock of the copy. What is found in the one by a selector is
/// found in the other at the same place.
pub proof fn lemma_relocked(keyframes: Seq<LockedKeyframe>, lock: SharedRwLock)
    ensures
        relocked(keyframes, lock).len() == keyframes.len(),
        all_under_lock(relocked(keyframes, lock), lock),
        forall|k: int|
            0 <= k < keyframes.len() ==> (#[trigger] relocked(keyframes, lock)[k]).data.selector
                == keyframes[k].data.selector && relocked(keyframes, lock)[k].data.block.data
                == keyframes[k].data.block.data,
        forall|selector: Seq<KeyframePercentage>|
            #[trigger] last_with_selector(relocked(keyframes, lock), selector)
                == last_with_selector(keyframes, selector),
    decreases keyframes.len(),
{
    assert forall|selector: Seq<KeyframePercentage>|
        #[trigger] last_with_selector(relocked(keyframes, lock), selector) == last_with_selector(
            keyframes,
            selector,
        ) by {
        lemma_relocked_finds_the_same(keyframes, lock, selector);
    }
}

/// What a selector finds among keyframes it finds among their deep copies.
pub proof fn lemma_relocked_finds_the_same(
    keyframes: Seq<LockedKeyframe>,
    lock: SharedRwLock,
    selector: Seq<KeyframePercentage>,
)
    ensures
        last_with_selector(relocked(keyframes, lock), selector) == last_with_selector(
            keyframes,
            selector,
        ),
    decreases keyframes.len(),
{
    if keyframes.len() > 0 {
        assert(relocked(keyframes, lock).drop_last() =~= relocked(keyframes.drop_last(), lock));
        lemma_relocked_finds_the_same(keyframes.drop_last(), lock, selector);
    }
}

} // verus!
