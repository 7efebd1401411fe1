//! What a generated builder does at run time: its slots, its setters and its
//! build operation, over field values of any type `V`.

use vstd::prelude::*;
use crate::builder::{FieldData, InitialValue};

verus! {

/// The content of one builder slot.
pub enum Slot<V> {
    /// Nothing stored.
    Unset,
    /// A stored value.
    Value(V),
    /// The elements of a sequence.
    Items(Vec<V>),
}

/// A slot's content, with a sequence as its mathematical value.
pub enum SlotView<V> {
    Unset,
    Value(V),
    Items(Seq<V>),
}

pub open spec fn slot_view<V>(s: Slot<V>) -> SlotView<V> {
    match s {
        Slot::Unset => SlotView::Unset,
        Slot::Value(v) => SlotView::Value(v),
        Slot::Items(vs) => SlotView::Items(vs@),
    }
}

pub open spec fn slots_view<V>(ss: Seq<Slot<V>>) -> Seq<SlotView<V>> {
    ss.map_values(|s: Slot<V>| slot_view(s))
}

/// The builder's state: one slot per field, in declaration order.
pub struct BuilderState<V> {
    pub slots: Vec<Slot<V>>,
}

impl<V> View for BuilderState<V> {
    type V = Seq<SlotView<V>>;

    open spec fn view(&self) -> Seq<SlotView<V>> {
        slots_view(self.slots@)
    }
}

/// The slot a field starts with: an empty sequence for a repeated field,
/// nothing for the others.
pub open spec fn initial_slot<V>(f: FieldData) -> SlotView<V> {
    if f.repeat is No {
        SlotView::Unset
    } else {
        SlotView::Items(Seq::empty())
    }
}

/// The elements a slot holds: none unless it holds a sequence.
pub open spec fn items_of<V>(s: SlotView<V>) -> Seq<V> {
    match s {
        SlotView::Items(vs) => vs,
        _ => Seq::empty(),
    }
}

/// The build operation demands a value for the field.
pub open spec fn is_required(f: FieldData) -> bool {
    !f.optional && f.repeat is No
}

/// The first required field at or after `i` whose slot is unset.
pub open spec fn first_missing<V>(fields: Seq<FieldData>, slots: Seq<SlotView<V>>, i: int) -> Option<int>
    decreases fields.len() - i,
{
    if i < 0 || i >= fields.len() {
        None
    } else if is_required(fields[i]) && slots[i] is Unset {
        Some(i)
    } else {
        first_missing(fields, slots, i + 1)
    }
}

/// Building failed: a required field was never set.
pub struct BuildError {
    /// The name of the first required field, in declaration order, left unset.
    pub field: Option<String>,
}

impl<V> BuilderState<V> {
    /// A fresh builder for the given fields.
    pub fn new(fields: &Vec<FieldData>) -> (r: Self)
        ensures
            r@.len() == fields@.len(),
            forall|i: int| 0 <= i < fields@.len() ==> #[trigger] r@[i] == initial_slot::<V>(fields@[i]),
    {
        let mut slots: Vec<Slot<V>> = Vec::new();
        let mut i: usize = 0;
        while i < fields.len()
            invariant
                i <= fields@.len(),
                slots@.len() == i,
                forall|k: int| 0 <= k < i ==> #[trigger] slot_view(slots@[k]) == initial_slot::<V>(fields@[k]),
            decreases fields@.len() - i,
        {
            let s = match fields[i].generate_builder_field() {
                InitialValue::Absent => Slot::Unset,
                InitialValue::EmptySequence => {
                    let vs: Vec<V> = Vec::new();
                    assert(vs@ =~= Seq::<V>::empty());
                    Slot::Items(vs)
                },
            };
            slots.push(s);
            i = i + 1;
        }
        let r = BuilderState { slots };
        assert forall|k: int| 0 <= k < fields@.len() implies #[trigger] r@[k] == initial_slot::<V>(fields@[k]) by {
            assert(slot_view(r.slots@[k]) == initial_slot::<V>(fields@[k]));
        }
        r
    }

    /// Stores `v` in slot `i`, replacing what was there.
    pub fn set(&mut self, i: usize, v: V)
        requires
            i < old(self)@.len(),
        ensures
            final(self)@ == old(self)@.update(i as int, SlotView::Value(v)),
    {
        let _ = self.slots.remove(i);
        self.slots.insert(i, Slot::Value(v));
        assert(self@ =~= old(self)@.update(i as int, SlotView::Value(v)));
    }

    /// Stores the whole sequence `vs` in slot `i`.
    pub fn set_items(&mut self, i: usize, vs: Vec<V>)
        requires
            i < old(self)@.len(),
        ensures
            final(self)@ == old(self)@.update(i as int, SlotView::Items(vs@)),
    {
        let ghost items = vs@;
        let _ = self.slots.remove(i);
        self.slots.insert(i, Slot::Items(vs));
        assert(self@ =~= old(self)@.update(i as int, SlotView::Items(items)));
    }

    /// Appends `v` to the sequence in slot `i`, starting one if the slot
    /// holds none.
    pub fn append(&mut self, i: usize, v: V)
        requires
            i < old(self)@.len(),
        ensures
            final(self)@ == old(self)@.update(i as int, SlotView::Items(items_of(old(self)@[i as int]).push(v))),
    {
        let ghost before = old(self)@[i as int];
        let s = self.slots.remove(i);
        let ghost want = items_of(before).push(v);
        let next = match s {
            Slot::Items(mut vs) => {
                vs.push(v);
                Slot::Items(vs)
            },
            _ => {
                let mut vs: Vec<V> = Vec::new();
                vs.push(v);
                assert(vs@ =~= want);
                Slot::Items(vs)
            },
        };
        assert(slot_view(next) == SlotView::Items(want));
        self.slots.insert(i, next);
        assert(self@ =~= old(self)@.update(i as int, SlotView::Items(want)));
    }

    /// Builds the value: fails on the first required field, in declaration
    /// order, whose slot is unset; otherwise hands back every slot as it is.
    pub fn build(self, fields: &Vec<FieldData>) -> (r: Result<Vec<Slot<V>>, BuildError>)
        requires
            self@.len() == fields@.len(),
        ensures
            match first_missing(fields@, self@, 0) {
                Some(k) => r matches Err(e) && e.field == fields@[k].ident,
                None => r matches Ok(vs) && slots_view(vs@) == self@,
            },
    {
        let mut i: usize = 0;
        while i < fields.len()
            invariant
                i <= fields@.len(),
                self@.len() == fields@.len(),
                first_missing(fields@, self@, 0) == first_missing(fields@, self@, i as int),
            decreases fields@.len() - i,
        {
            let f = &fields[i];
            let unset = match &self.slots[i] {
                Slot::Unset => true,
                _ => false,
            };
            assert(unset == (self@[i as int] is Unset));
            if !f.optional && f.repeat.is_no() && unset {
                let field = match &f.ident {
                    Some(n) => Some(n.clone()),
                    None => None,
                };
                return Err(BuildError { field });
            }
            i = i + 1;
        }
        Ok(self.slots)
    }
}

/// When every field is required, building succeeds exactly when every slot
/// has been set; otherwise the field it names is unset and every earlier one
/// is set.
pub proof fn lemma_build_all_required<V>(fields: Seq<FieldData>, slots: Seq<SlotView<V>>)
    requires
        fields.len() == slots.len(),
        forall|i: int| 0 <= i < fields.len() ==> #[trigger] is_required(fields[i]),
    ensures
        first_missing(fields, slots, 0) is None <==> forall|i: int| 0 <= i < slots.len() ==> !(#[trigger] slots[i] is Unset),
        first_missing(fields, slots, 0) matches Some(k) ==> {
            &&& 0 <= k < slots.len()
            &&& slots[k] is Unset
            &&& forall|j: int| 0 <= j < k ==> !(#[trigger] slots[j] is Unset)
        },
{
    lemma_first_missing_from(fields, slots, 0);
}

proof fn lemma_first_missing_from<V>(fields: Seq<FieldData>, slots: Seq<SlotView<V>>, i: int)
    requires
        0 <= i <= fields.len(),
        fields.len() == slots.len(),
        forall|j: int| 0 <= j < fields.len() ==> #[trigger] is_required(fields[j]),
    ensures
        first_missing(fields, slots, i) is None <==> forall|j: int| i <= j < slots.len() ==> !(#[trigger] slots[j] is Unset),
        first_missing(fields, slots, i) matches Some(k) ==> {
            &&& i <= k < slots.len()
            &&& slots[k] is Unset
            &&& forall|j: int| i <= j < k ==> !(#[trigger] slots[j] is Unset)
        },
    decreases fields.len() - i,
{
    if i < fields.len() {
        assert(is_required(fields[i]));
        lemma_first_missing_from(fields, slots, i + 1);
    }
}

} // verus!
