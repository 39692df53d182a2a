//! Declarations and blocks of declarations, as far as keyframes read them.
//!
//! Which properties exist, what values they take and how a value is written
//! is decided elsewhere. A declaration here records what the keyframes of an
//! animation need of it: which longhand it sets, whether transitions are
//! defined for that longhand, the timing functions if it declares any, and
//! its text.

use vstd::prelude::*;
use vstd::string::*;

verus! {

/// The name of a longhand property. `animation-timing-function` is the one
/// longhand that keyframes look for; every other is known by its number.
#[derive(Clone, Copy, Debug, PartialEq, Eq, Hash, Structural)]
pub enum LonghandId {
    AnimationTimingFunction,
    Other(u16),
}

/// What a declaration is looked up by: a longhand.
#[derive(Clone, Copy, Debug, PartialEq, Eq, Hash, Structural)]
pub enum PropertyDeclarationId {
    Longhand(LonghandId),
}

/// A longhand for which transitions are defined, by its number.
#[derive(Clone, Copy, Debug, PartialEq, Eq, Hash, Structural)]
pub struct TransitionProperty(pub u16);

/// Whether a declaration was marked `!important`.
#[derive(Clone, Copy, Debug, PartialEq, Eq, Hash, Structural)]
pub enum Importance {
    Normal,
    Important,
}

impl Importance {
    /// Whether this is `Important`.
    pub fn important(self) -> (important: bool)
        ensures
            important == (self == Importance::Important),
    {
        match self {
            Importance::Normal => false,
            Importance::Important => true,
        }
    }
}

/// The keywords that every property accepts.
#[derive(Clone, Copy, Debug, PartialEq, Eq, Hash, Structural)]
pub enum CSSWideKeyword {
    Initial,
    Inherit,
    Unset,
}

/// The named timing functions.
#[derive(Clone, Copy, Debug, PartialEq, Eq, Hash, Structural)]
pub enum TimingKeyword {
    Linear,
    Ease,
    EaseIn,
    EaseOut,
    EaseInOut,
    StepStart,
    StepEnd,
}

/// Where a stepping function jumps.
#[derive(Clone, Copy, Debug, PartialEq, Eq, Hash, Structural)]
pub enum StepPosition {
    Start,
    End,
}

/// One value of `animation-timing-function`.
#[derive(Clone, Copy, Debug, PartialEq, Eq, Hash, Structural)]
pub enum SpecifiedTimingFunction {
    Keyword(TimingKeyword),
    /// The two control points of a curve. Each coordinate is the bit pattern
    /// of a single-precision number.
    CubicBezier { x1: u32, y1: u32, x2: u32, y2: u32 },
    Steps(u32, StepPosition),
    Frames(u32),
}

/// The value that a declaration gives to its longhand.
#[derive(Debug)]
pub enum DeclaredValue {
    /// The list of values of `animation-timing-function`.
    TimingFunctions(Vec<SpecifiedTimingFunction>),
    /// One of the keywords that every property accepts.
    CSSWideKeyword(CSSWideKeyword),
    /// A value that refers to custom properties and is resolved later.
    WithVariables,
    /// Any other value.
    Specified,
}

/// What a declared value is in contracts.
pub enum DeclaredValueView {
    TimingFunctions(Seq<SpecifiedTimingFunction>),
    CSSWideKeyword(CSSWideKeyword),
    WithVariables,
    Specified,
}

impl View for DeclaredValue {
    type V = DeclaredValueView;

    open spec fn view(&self) -> DeclaredValueView {
        match *self {
            DeclaredValue::TimingFunctions(list) => DeclaredValueView::TimingFunctions(list@),
            DeclaredValue::CSSWideKeyword(keyword) => DeclaredValueView::CSSWideKeyword(keyword),
            DeclaredValue::WithVariables => DeclaredValueView::WithVariables,
            DeclaredValue::Specified => DeclaredValueView::Specified,
        }
    }
}

/// One declaration: a longhand and the value given to it.
#[derive(Debug)]
pub struct PropertyDeclaration {
    /// The longhand that is set.
    pub id: LonghandId,
    /// Whether transitions are defined for the longhand.
    pub animatable: bool,
    /// The value, as far as keyframes read it.
    pub value: DeclaredValue,
    /// The name of the longhand, as it is written.
    pub name: String,
    /// The value, as it is written.
    pub css: String,
}

/// What a declaration is in contracts.
pub struct PropertyDeclarationView {
    pub id: LonghandId,
    pub animatable: bool,
    pub value: DeclaredValueView,
    pub name: Seq<char>,
    pub css: Seq<char>,
}

impl View for PropertyDeclaration {
    type V = PropertyDeclarationView;

    open spec fn view(&self) -> PropertyDeclarationView {
        PropertyDeclarationView {
            id: self.id,
            animatable: self.animatable,
            value: self.value@,
            name: self.name@,
            css: self.css@,
        }
    }
}

impl PropertyDeclarationView {
    /// A declaration is well formed if a list of timing functions is not
    /// empty and is given to `animation-timing-function` only, if that
    /// longhand gets no other kind of specified value, and if it is not
    /// marked as having transitions.
    pub open spec fn wf(self) -> bool {
        &&& self.value matches DeclaredValueView::TimingFunctions(list) ==> list.len() > 0
            && self.id == LonghandId::AnimationTimingFunction
        &&& self.id == LonghandId::AnimationTimingFunction ==> !self.animatable && !(self.value
            is Specified)
    }

    /// Whether the declaration gives `animation-timing-function` a list of
    /// timing functions.
    pub open spec fn is_timing_function(self) -> bool {
        self.value is TimingFunctions
    }

    /// The longhand with transitions that the declaration sets, if it sets
    /// one.
    pub open spec fn transition_property(self) -> Option<TransitionProperty> {
        match self.id {
            LonghandId::Other(number) if self.animatable => Some(TransitionProperty(number)),
            _ => None,
        }
    }

    /// The text of the declaration: its name, a colon and a space, its value
    /// and a semicolon.
    pub open spec fn to_css(self) -> Seq<char> {
        self.name + seq![':', ' '] + self.css + seq![';']
    }
}

impl PropertyDeclaration {
    /// Whether the declaration gives `animation-timing-function` a list of
    /// timing functions.
    pub fn is_timing_function(&self) -> (timing: bool)
        ensures
            timing == self@.is_timing_function(),
    {
        match self.value {
            DeclaredValue::TimingFunctions(_) => true,
            _ => false,
        }
    }

    /// Whether the declaration is well formed.
    pub fn is_well_formed(&self) -> (wf: bool)
        ensures
            wf == self@.wf(),
    {
        let timing = match self.id {
            LonghandId::AnimationTimingFunction => true,
            LonghandId::Other(_) => false,
        };
        match &self.value {
            DeclaredValue::TimingFunctions(list) => list.len() > 0 && timing && !self.animatable,
            DeclaredValue::Specified => !timing,
            _ => !timing || !self.animatable,
        }
    }

    /// An independent copy of the declaration.
    pub fn deep_clone(&self) -> (copy: PropertyDeclaration)
        ensures
            copy@ == self@,
    {
        let value = match &self.value {
            DeclaredValue::TimingFunctions(list) => {
                let mut copied: Vec<SpecifiedTimingFunction> = Vec::new();
                let mut i: usize = 0;
                while i < list.len()
                    invariant
                        i <= list.len(),
                        copied@ == list@.take(i as int),
                    decreases list.len() - i,
                {
                    copied.push(list[i]);
                    i += 1;
                    assert(copied@ =~= list@.take(i as int));
                }
                assert(copied@ =~= list@);
                DeclaredValue::TimingFunctions(copied)
            },
            DeclaredValue::CSSWideKeyword(keyword) => DeclaredValue::CSSWideKeyword(*keyword),
            DeclaredValue::WithVariables => DeclaredValue::WithVariables,
            DeclaredValue::Specified => DeclaredValue::Specified,
        };
        PropertyDeclaration {
            id: self.id,
            animatable: self.animatable,
            value,
            name: self.name.clone(),
            css: self.css.clone(),
        }
    }

    /// Writes the declaration at the end of `dest`.
    pub fn to_css(&self, dest: &mut String)
        ensures
            final(dest)@ == old(dest)@ + self@.to_css(),
    {
        dest.append(self.name.as_str());
        dest.append(": ");
        dest.append(self.css.as_str());
        dest.append(";");
        proof {
            reveal_strlit(": ");
            reveal_strlit(";");
            assert(": "@ =~= seq![':', ' ']);
            assert(";"@ =~= seq![';']);
            assert(dest@ =~= old(dest)@ + self@.to_css());
        }
    }
}

impl TransitionProperty {
    /// The longhand with transitions that `declaration` sets, if it sets
    /// one.
    pub fn from_declaration(declaration: &PropertyDeclaration) -> (property: Option<
        TransitionProperty,
    >)
        ensures
            property == declaration@.transition_property(),
    {
        match declaration.id {
            LonghandId::Other(number) => {
                if declaration.animatable {
                    Some(TransitionProperty(number))
                } else {
                    None
                }
            },
            LonghandId::AnimationTimingFunction => None,
        }
    }
}

/// A set of longhands with transitions, with membership tested in constant
/// time.
#[derive(Debug)]
pub struct LonghandIdSet {
    /// For each number below the length, whether the longhand of that number
    /// is in the set. No longhand with a number from the length on is.
    storage: Vec<bool>,
}

impl View for LonghandIdSet {
    type V = Set<TransitionProperty>;

    closed spec fn view(&self) -> Set<TransitionProperty> {
        Set::new(
            |property: TransitionProperty|
                property.0 < self.storage@.len() && self.storage@[property.0 as int],
        )
    }
}

impl LonghandIdSet {
    /// The empty set.
    pub fn new() -> (set: LonghandIdSet)
        ensures
            set@ == Set::<TransitionProperty>::empty(),
    {
        let set = LonghandIdSet { storage: Vec::new() };
        assert(set@ =~= Set::<TransitionProperty>::empty());
        set
    }

    /// Whether `property` is in the set.
    pub fn has_transition_property_bit(&self, property: &TransitionProperty) -> (has: bool)
        ensures
            has == self@.contains(*property),
    {
        let number: usize = property.0 as usize;
        number < self.storage.len() && self.storage[number]
    }

    /// Puts `property` into the set.
    pub fn set_transition_property_bit(&mut self, property: &TransitionProperty)
        ensures
            final(self)@ == old(self)@.insert(*property),
    {
        let number: usize = property.0 as usize;
        while self.storage.len() <= number
            invariant
                self@ == old(self)@,
                number == property.0,
            decreases number + 1 - self.storage.len(),
        {
            let ghost before = self@;
            self.storage.push(false);
            assert(self@ =~= before);
        }
        self.storage.set(number, true);
        assert(self@ =~= old(self)@.insert(*property));
    }
}

} // verus!
