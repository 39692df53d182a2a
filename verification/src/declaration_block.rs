//! The block of declarations of one keyframe.

use vstd::prelude::*;
use vstd::string::*;
use crate::views::views;
use crate::properties::{
    Importance,
    LonghandId,
    PropertyDeclaration,
    PropertyDeclarationId,
    PropertyDeclarationView,
};

verus! {

/// What a block is in contracts: its declarations in order, each with its
/// importance.
pub type Entries = Seq<(PropertyDeclarationView, Importance)>;

/// Whether some declaration of `entries` sets `id`.
pub open spec fn declares(entries: Entries, id: LonghandId) -> bool {
    exists|i: int| 0 <= i < entries.len() && (#[trigger] entries[i]).0.id == id
}

/// Whether `i` is the place of the first declaration of `entries` that sets
/// `id`.
pub open spec fn is_first_of(entries: Entries, id: LonghandId, i: int) -> bool {
    &&& 0 <= i < entries.len()
    &&& entries[i].0.id == id
    &&& forall|j: int| 0 <= j < i ==> (#[trigger] entries[j]).0.id != id
}

/// The place of the first declaration of `entries` that sets `id`.
pub open spec fn first_of(entries: Entries, id: LonghandId) -> int {
    choose|i: int| is_first_of(entries, id, i)
}

/// A block is well formed if each of its declarations is and no two of them
/// set the same longhand.
pub open spec fn entries_wf(entries: Entries) -> bool {
    &&& forall|i: int| 0 <= i < entries.len() ==> (#[trigger] entries[i]).0.wf()
    &&& forall|i: int, j: int|
        0 <= i < j < entries.len() ==> (#[trigger] entries[i]).0.id != (#[trigger] entries[j]).0.id
}

/// Whether no declaration of `entries` is important.
pub open spec fn all_normal(entries: Entries) -> bool {
    forall|i: int| 0 <= i < entries.len() ==> (#[trigger] entries[i]).1 == Importance::Normal
}

/// Whether some declaration of `entries` gives a list of timing functions.
pub open spec fn has_timing_function(entries: Entries) -> bool {
    exists|i: int| 0 <= i < entries.len() && (#[trigger] entries[i]).0.is_timing_function()
}

/// `entries` after one more declaration is made: it takes the place of the
/// declaration that set the same longhand, or goes to the end if there was
/// none. The later declaration of a longhand wins.
pub open spec fn pushed(
    entries: Entries,
    declaration: PropertyDeclarationView,
    importance: Importance,
) -> Entries {
    if declares(entries, declaration.id) {
        entries.update(first_of(entries, declaration.id), (declaration, importance))
    } else {
        entries.push((declaration, importance))
    }
}

/// `entries` after each declaration of `declarations` is made, in order.
pub open spec fn extended(
    entries: Entries,
    declarations: Seq<PropertyDeclarationView>,
    importance: Importance,
) -> Entries
    decreases declarations.len(),
{
    if declarations.len() == 0 {
        entries
    } else {
        pushed(
            extended(entries, declarations.drop_last(), importance),
            declarations.last(),
            importance,
        )
    }
}

/// The text of the declarations from place `from` on, each followed by a
/// space but the last.
pub open spec fn entries_css(entries: Entries, from: int) -> Seq<char>
    decreases entries.len() - from,
{
    if from < 0 || from >= entries.len() {
        Seq::empty()
    } else if from == entries.len() - 1 {
        entries[from].0.to_css()
    } else {
        entries[from].0.to_css() + seq![' '] + entries_css(entries, from + 1)
    }
}

/// The first declaration of a longhand is the only place that `is_first_of`
/// holds of.
pub proof fn lemma_first_of(entries: Entries, id: LonghandId, i: int)
    requires
        is_first_of(entries, id, i),
    ensures
        declares(entries, id),
        first_of(entries, id) == i,
{
    let chosen = first_of(entries, id);
    assert(is_first_of(entries, id, chosen));
    if chosen < i {
        assert(entries[chosen].0.id != id);
    }
    if i < chosen {
        assert(entries[i].0.id != id);
    }
}

/// Making a declaration in a well-formed block leaves it well formed, and
/// with no important declaration if it had none and the new one is normal.
pub proof fn lemma_pushed_wf(
    entries: Entries,
    declaration: PropertyDeclarationView,
    importance: Importance,
)
    requires
        entries_wf(entries),
        declaration.wf(),
    ensures
        entries_wf(pushed(entries, declaration, importance)),
        all_normal(entries) && importance == Importance::Normal ==> all_normal(
            pushed(entries, declaration, importance),
        ),
{
    let after = pushed(entries, declaration, importance);
    if declares(entries, declaration.id) {
        let at = choose|i: int| 0 <= i < entries.len() && (#[trigger] entries[i]).0.id == declaration.id;
        lemma_first_exists(entries, declaration.id, at);
        let first = first_of(entries, declaration.id);
        assert(is_first_of(entries, declaration.id, first));
        assert forall|i: int, j: int| 0 <= i < j < after.len() implies (#[trigger] after[i]).0.id != (
        #[trigger] after[j]).0.id by {
            assert(after[i].0.id == entries[i].0.id);
            assert(after[j].0.id == entries[j].0.id);
        }
        assert forall|i: int| 0 <= i < after.len() implies (#[trigger] after[i]).0.wf() by {
            if i != first {
                assert(after[i] == entries[i]);
            }
        }
        if all_normal(entries) && importance == Importance::Normal {
            assert forall|i: int| 0 <= i < after.len() implies (#[trigger] after[i]).1
                == Importance::Normal by {
                if i != first {
                    assert(after[i] == entries[i]);
                }
            }
        }
    } else {
        assert forall|i: int, j: int| 0 <= i < j < after.len() implies (#[trigger] after[i]).0.id != (
        #[trigger] after[j]).0.id by {
            assert(after[i] == entries[i]);
            if j < entries.len() {
                assert(after[j] == entries[j]);
            }
        }
        assert forall|i: int| 0 <= i < after.len() implies (#[trigger] after[i]).0.wf() by {
            if i < entries.len() {
                assert(after[i] == entries[i]);
            }
        }
        if all_normal(entries) && importance == Importance::Normal {
            assert forall|i: int| 0 <= i < after.len() implies (#[trigger] after[i]).1
                == Importance::Normal by {
                if i < entries.len() {
                    assert(after[i] == entries[i]);
                }
            }
        }
    }
}

/// Making well-formed declarations in a well-formed block leaves it well
/// formed, and with no important declaration if it had none and the new
/// ones are normal.
pub proof fn lemma_extended_wf(
    entries: Entries,
    declarations: Seq<PropertyDeclarationView>,
    importance: Importance,
)
    requires
        entries_wf(entries),
        forall|i: int| 0 <= i < declarations.len() ==> (#[trigger] declarations[i]).wf(),
    ensures
        entries_wf(extended(entries, declarations, importance)),
        all_normal(entries) && importance == Importance::Normal ==> all_normal(
            extended(entries, declarations, importance),
        ),
    decreases declarations.len(),
{
    if declarations.len() > 0 {
        let shorter = declarations.drop_last();
        assert forall|i: int| 0 <= i < shorter.len() implies (#[trigger] shorter[i]).wf() by {
            assert(shorter[i] == declarations[i]);
        }
        lemma_extended_wf(entries, shorter, importance);
        assert(declarations[declarations.len() - 1].wf());
        lemma_pushed_wf(extended(entries, shorter, importance), declarations.last(), importance);
    }
}

/// Where some declaration sets `id`, a first one does.
pub proof fn lemma_first_exists(entries: Entries, id: LonghandId, at: int)
    requires
        0 <= at < entries.len(),
        entries[at].0.id == id,
    ensures
        is_first_of(entries, id, first_of(entries, id)),
        first_of(entries, id) <= at,
    decreases at,
{
    if exists|j: int| 0 <= j < at && (#[trigger] entries[j]).0.id == id {
        let j = choose|j: int| 0 <= j < at && (#[trigger] entries[j]).0.id == id;
        lemma_first_exists(entries, id, j);
    } else {
        assert(is_first_of(entries, id, at));
        lemma_first_of(entries, id, at);
    }
}

/// The declarations of one keyframe, in the order in which they were made.
/// No two of them set the same longhand.
#[derive(Debug)]
pub struct PropertyDeclarationBlock {
    declarations: Vec<(PropertyDeclaration, Importance)>,
}

impl View for PropertyDeclarationBlock {
    type V = Entries;

    closed spec fn view(&self) -> Entries {
        Seq::new(
            self.declarations@.len(),
            |i: int| (self.declarations@[i].0@, self.declarations@[i].1),
        )
    }
}

impl PropertyDeclarationBlock {
    /// Whether each declaration is well formed and no two set the same
    /// longhand. `new` makes such a block, and `push` and `extend` keep it
    /// so.
    pub open spec fn wf(&self) -> bool {
        entries_wf(self@)
    }

    /// A block without declarations.
    pub fn new() -> (block: PropertyDeclarationBlock)
        ensures
            block@ == Seq::<(PropertyDeclarationView, Importance)>::empty(),
            block.wf(),
    {
        let block = PropertyDeclarationBlock { declarations: Vec::new() };
        assert(block@ =~= Seq::<(PropertyDeclarationView, Importance)>::empty());
        block
    }

    /// The declarations, in order.
    pub fn declarations(&self) -> (declarations: &Vec<(PropertyDeclaration, Importance)>)
        ensures
            declarations@.len() == self@.len(),
            forall|i: int|
                0 <= i < self@.len() ==> (#[trigger] declarations@[i]).0@ == self@[i].0
                    && declarations@[i].1 == self@[i].1,
    {
        &self.declarations
    }

    /// The number of declarations.
    pub fn len(&self) -> (len: usize)
        ensures
            len == self@.len(),
    {
        self.declarations.len()
    }

    /// The place of the declaration that sets `id`, if there is one.
    fn position(&self, id: LonghandId) -> (position: Option<usize>)
        ensures
            match position {
                Some(i) => is_first_of(self@, id, i as int),
                None => !declares(self@, id),
            },
    {
        let mut i: usize = 0;
        while i < self.declarations.len()
            invariant
                i <= self.declarations@.len(),
                forall|j: int| 0 <= j < i ==> (#[trigger] self@[j]).0.id != id,
            decreases self.declarations.len() - i,
        {
            if self.declarations[i].0.id == id {
                return Some(i);
            }
            i += 1;
        }
        None
    }

    /// The first declaration that sets the longhand of `id`, if there is
    /// one.
    pub fn get(&self, id: PropertyDeclarationId) -> (found: Option<
        &(PropertyDeclaration, Importance),
    >)
        ensures
            match found {
                Some(entry) => {
                    &&& declares(self@, id->0)
                    &&& (entry.0@, entry.1) == self@[first_of(self@, id->0)]
                },
                None => !declares(self@, id->0),
            },
    {
        let PropertyDeclarationId::Longhand(longhand) = id;
        match self.position(longhand) {
            Some(i) => {
                proof {
                    lemma_first_of(self@, longhand, i as int);
                }
                Some(&self.declarations[i])
            },
            None => None,
        }
    }

    /// Makes one more declaration. It takes the place of the declaration
    /// that set the same longhand, or goes to the end if there was none.
    pub fn push(&mut self, declaration: PropertyDeclaration, importance: Importance)
        requires
            old(self).wf(),
            declaration@.wf(),
        ensures
            final(self)@ == pushed(old(self)@, declaration@, importance),
            final(self).wf(),
    {
        proof {
            lemma_pushed_wf(self@, declaration@, importance);
        }
        let ghost before = self@;
        match self.position(declaration.id) {
            Some(i) => {
                proof {
                    lemma_first_of(before, declaration.id, i as int);
                }
                let ghost entry = (declaration@, importance);
                self.declarations.set(i, (declaration, importance));
                assert(self@ =~= before.update(i as int, entry));
            },
            None => {
                let ghost entry = (declaration@, importance);
                self.declarations.push((declaration, importance));
                assert(self@ =~= before.push(entry));
            },
        }
    }

    /// Makes each declaration of `declarations`, in order.
    pub fn extend(&mut self, declarations: Vec<PropertyDeclaration>, importance: Importance)
        requires
            old(self).wf(),
            forall|i: int| 0 <= i < declarations@.len() ==> (#[trigger] declarations@[i])@.wf(),
        ensures
            final(self)@ == extended(old(self)@, views(declarations@), importance),
            final(self).wf(),
    {
        let ghost all = views(declarations@);
        assert(all.take(0) =~= Seq::<PropertyDeclarationView>::empty());
        for declaration in iter: declarations
            invariant
                iter.seq() == declarations@,
                all == views(declarations@),
                forall|i: int| 0 <= i < declarations@.len() ==> (#[trigger] declarations@[i])@.wf(),
                self.wf(),
                self@ == extended(old(self)@, all.take(iter.index() as int), importance),
        {
            proof {
                let done = iter.index() as int;
                assert(declaration == declarations@[done]);
                assert(all.take(done + 1).drop_last() =~= all.take(done));
                assert(all.take(done + 1).last() == declaration@);
            }
            self.push(declaration, importance);
        }
        assert(all.take(declarations@.len() as int) =~= all);
    }

    /// Whether some declaration gives a list of timing functions.
    pub fn has_timing_function(&self) -> (has: bool)
        ensures
            has == has_timing_function(self@),
    {
        let mut i: usize = 0;
        while i < self.declarations.len()
            invariant
                i <= self.declarations@.len(),
                forall|j: int| 0 <= j < i ==> !(#[trigger] self@[j]).0.is_timing_function(),
            decreases self.declarations.len() - i,
        {
            if self.declarations[i].0.is_timing_function() {
                assert(self@[i as int].0.is_timing_function());
                return true;
            }
            i += 1;
        }
        false
    }

    /// Whether the block is well formed: `wf`, told at run time.
    pub fn is_well_formed(&self) -> (wf: bool)
        ensures
            wf == self.wf(),
    {
        let mut i: usize = 0;
        while i < self.declarations.len()
            invariant
                i <= self.declarations@.len(),
                forall|j: int| 0 <= j < i ==> (#[trigger] self@[j]).0.wf(),
                forall|j: int, k: int|
                    0 <= j < k < self@.len() && j < i ==> (#[trigger] self@[j]).0.id != (
                    #[trigger] self@[k]).0.id,
            decreases self.declarations.len() - i,
        {
            if !self.declarations[i].0.is_well_formed() {
                assert(!self@[i as int].0.wf());
                return false;
            }
            let mut k: usize = i + 1;
            while k < self.declarations.len()
                invariant
                    i < k <= self.declarations@.len(),
                    forall|l: int| i < l < k ==> (#[trigger] self@[l]).0.id != self@[i as int].0.id,
                decreases self.declarations.len() - k,
            {
                if self.declarations[k].0.id == self.declarations[i].0.id {
                    assert(self@[i as int].0.id == self@[k as int].0.id);
                    return false;
                }
                k += 1;
            }
            i += 1;
        }
        true
    }

    /// Whether no declaration is important.
    pub fn is_all_normal(&self) -> (normal: bool)
        ensures
            normal == all_normal(self@),
    {
        let mut i: usize = 0;
        while i < self.declarations.len()
            invariant
                i <= self.declarations@.len(),
                forall|j: int| 0 <= j < i ==> (#[trigger] self@[j]).1 == Importance::Normal,
            decreases self.declarations.len() - i,
        {
            if self.declarations[i].1.important() {
                assert(self@[i as int].1 != Importance::Normal);
                return false;
            }
            i += 1;
        }
        true
    }

    /// An independent copy of the block.
    pub fn deep_clone(&self) -> (copy: PropertyDeclarationBlock)
        ensures
            copy@ == self@,
    {
        let mut declarations: Vec<(PropertyDeclaration, Importance)> = Vec::new();
        let mut i: usize = 0;
        while i < self.declarations.len()
            invariant
                i <= self.declarations@.len(),
                declarations@.len() == i,
                forall|j: int|
                    0 <= j < i ==> (#[trigger] declarations@[j]).0@ == self.declarations@[j].0@
                        && declarations@[j].1 == self.declarations@[j].1,
            decreases self.declarations.len() - i,
        {
            let entry = &self.declarations[i];
            declarations.push((entry.0.deep_clone(), entry.1));
            i += 1;
        }
        let copy = PropertyDeclarationBlock { declarations };
        assert(copy@ =~= self@);
        copy
    }

    /// The text of the block: its declarations in order, with a space
    /// between one and the next.
    pub fn to_css(&self, dest: &mut String)
        ensures
            final(dest)@ == old(dest)@ + entries_css(self@, 0),
    {
        let mut i: usize = 0;
        while i < self.declarations.len()
            invariant
                i <= self.declarations@.len(),
                dest@ + entries_css(self@, i as int) == old(dest)@ + entries_css(self@, 0),
            decreases self.declarations.len() - i,
        {
            let ghost before = dest@;
            self.declarations[i].0.to_css(dest);
            if i + 1 < self.declarations.len() {
                dest.append(" ");
                proof {
                    reveal_strlit(" ");
                    assert(" "@ =~= seq![' ']);
                    assert(dest@ + entries_css(self@, i + 1) =~= before + entries_css(
                        self@,
                        i as int,
                    ));
                }
            } else {
                assert(dest@ + entries_css(self@, i + 1) =~= before + entries_css(self@, i as int));
            }
            i += 1;
        }
        assert(dest@ + entries_css(self@, i as int) =~= dest@);
    }
}

} // verus!
