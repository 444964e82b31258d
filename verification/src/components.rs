//! A set of range components, kept in ascending order of their keys so that
//! it holds nothing twice and is always walked in one order.

use vstd::prelude::*;
use crate::card::lemma_rank_round_trip;
use crate::internal::{lemma_order_key_injective, RangeComponent};

verus! {

/// The order keys of the sequence rise strictly from each item to the next.
pub open spec fn strictly_ordered(items: Seq<RangeComponent>) -> bool {
    forall|i: int, j: int|
        0 <= i < j < items.len() ==> (#[trigger] items[i]).order_key() < (
        #[trigger] items[j]).order_key()
}

/// A de-duplicated set of range components with a fixed order of iteration.
#[derive(Debug)]
pub struct ComponentSet {
    items: Vec<RangeComponent>,
}

impl View for ComponentSet {
    type V = Set<RangeComponent>;

    /// The components that the set holds.
    open spec fn view(&self) -> Set<RangeComponent> {
        self.ordered().to_set()
    }
}

impl ComponentSet {
    /// The components in the order in which the set is walked.
    pub closed spec fn ordered(&self) -> Seq<RangeComponent> {
        self.items@
    }

    /// The components stand in strictly ascending order of their keys.
    #[verifier::type_invariant]
    pub open spec fn well_formed(&self) -> bool {
        strictly_ordered(self.ordered())
    }

    /// The empty set.
    pub fn new() -> (set: ComponentSet)
        ensures
            set@ == Set::<RangeComponent>::empty(),
            set.ordered() == Seq::<RangeComponent>::empty(),
            set.well_formed(),
    {
        ComponentSet { items: Vec::new() }
    }

    /// The number of components in the set.
    pub fn len(&self) -> (count: usize)
        ensures
            count == self@.len(),
            count == self.ordered().len(),
    {
        proof {
            use_type_invariant(self);
            lemma_ordered_is_a_set(self.items@);
        }
        self.items.len()
    }

    /// The component at a position of the iteration order.
    pub fn get(&self, index: usize) -> (component: RangeComponent)
        requires
            index < self.ordered().len(),
        ensures
            component == self.ordered()[index as int],
    {
        self.items[index]
    }

    /// Whether the set holds the component.
    pub fn contains(&self, component: &RangeComponent) -> (found: bool)
        ensures
            found == self@.contains(*component),
    {
        let mut at: usize = 0;
        while at < self.items.len()
            invariant
                at <= self.items@.len(),
                forall|i: int| 0 <= i < at ==> self.items@[i] != *component,
            decreases self.items@.len() - at,
        {
            if self.items[at] == *component {
                return true;
            }
            at += 1;
        }
        false
    }

    /// Adds a component; a component that the set holds already leaves it
    /// unchanged. Returns whether the component was new.
    pub fn insert(&mut self, component: RangeComponent) -> (added: bool)
        ensures
            final(self)@ == old(self)@.insert(component),
            added == !old(self)@.contains(component),
            final(self).well_formed(),
    {
        proof {
            use_type_invariant(&*self);
        }
        let key = component.sort_key();
        let mut at: usize = 0;
        while at < self.items.len() && self.items[at].sort_key() < key
            invariant
                at <= self.items@.len(),
                self.items@ == old(self).items@,
                forall|i: int| 0 <= i < at ==> (#[trigger] self.items@[i]).order_key() < key,
            decreases self.items@.len() - at,
        {
            at += 1;
        }
        if at < self.items.len() && self.items[at].sort_key() == key {
            proof {
                lemma_order_key_injective(self.items@[at as int], component);
            }
            return false;
        }
        proof {
            lemma_insert_ordered(self.items@, at as int, component);
        }
        let mut items: Vec<RangeComponent> = Vec::new();
        std::mem::swap(&mut self.items, &mut items);
        items.insert(at, component);
        self.items = items;
        true
    }

    /// Adds every component of another set.
    pub fn extend(&mut self, other: &ComponentSet)
        ensures
            final(self)@ == old(self)@.union(other@),
            final(self).well_formed(),
    {
        proof {
            use_type_invariant(&*self);
        }
        let count = other.len();
        let mut at: usize = 0;
        while at < count
            invariant
                at <= count,
                count == other.ordered().len(),
                self.well_formed(),
                self@ == old(self)@.union(other.ordered().take(at as int).to_set()),
            decreases count - at,
        {
            let component = other.get(at);
            self.insert(component);
            proof {
                let taken = other.ordered().take(at as int);
                assert(other.ordered().take(at + 1) =~= taken.push(component));
                taken.lemma_push_to_set_commute(component);
            }
            at += 1;
        }
        proof {
            assert(other.ordered().take(count as int) =~= other.ordered());
        }
    }
}

/// A strictly ordered sequence holds nothing twice, so it has as many items
/// as the set of them.
pub proof fn lemma_ordered_is_a_set(items: Seq<RangeComponent>)
    requires
        strictly_ordered(items),
    ensures
        items.no_duplicates(),
        items.to_set().len() == items.len(),
{
    assert forall|i: int, j: int|
        0 <= i < items.len() && 0 <= j < items.len() && i != j implies items[i] != items[j] by {
        // one of the two keys is below the other
        assert(i < j || j < i);
    }
    items.unique_seq_to_set();
}

/// A strictly ordered sequence is no longer than there are order keys.
pub proof fn lemma_ordered_is_short(items: Seq<RangeComponent>)
    requires
        strictly_ordered(items),
    ensures
        items.len() <= 1000,
{
    lemma_rank_round_trip();
    if items.len() > 0 {
        lemma_keys_rise(items, items.len() - 1);
    }
}

/// In a strictly ordered sequence the key at a position is no less than the
/// position.
proof fn lemma_keys_rise(items: Seq<RangeComponent>, at: int)
    requires
        strictly_ordered(items),
        0 <= at < items.len(),
    ensures
        items[at].order_key() >= at,
    decreases at,
{
    lemma_rank_round_trip();
    if at > 0 {
        lemma_keys_rise(items, at - 1);
    }
}

/// Putting a component between the smaller and the larger keys of a strictly
/// ordered sequence keeps the order and adds the component to the set.
proof fn lemma_insert_ordered(items: Seq<RangeComponent>, at: int, component: RangeComponent)
    requires
        strictly_ordered(items),
        0 <= at <= items.len(),
        forall|i: int| 0 <= i < at ==> (#[trigger] items[i]).order_key() < component.order_key(),
        at < items.len() ==> component.order_key() < items[at].order_key(),
    ensures
        strictly_ordered(items.insert(at, component)),
        items.insert(at, component).to_set() == items.to_set().insert(component),
        !items.to_set().contains(component),
{
    let grown = items.insert(at, component);
    // the grown sequence, item by item
    assert forall|i: int| 0 <= i < grown.len() implies #[trigger] grown[i] == (if i < at {
        items[i]
    } else if i == at {
        component
    } else {
        items[i - 1]
    }) by {}
    // every key from the place of insertion on is above the new one
    assert forall|i: int| at <= i < items.len() implies component.order_key() < (
    #[trigger] items[i]).order_key() by {}
    assert(grown.to_set() =~= items.to_set().insert(component)) by {
        assert forall|c: RangeComponent| grown.to_set().contains(c) implies items.to_set().insert(
            component,
        ).contains(c) by {
            let i = choose|i: int| 0 <= i < grown.len() && grown[i] == c;
            assert(i == at || items.contains(c));
        }
        assert forall|c: RangeComponent| items.to_set().contains(c) implies grown.to_set().contains(
            c,
        ) by {
            let i = choose|i: int| 0 <= i < items.len() && items[i] == c;
            assert(grown[if i < at { i } else { i + 1 }] == c);
        }
        assert(grown[at] == component);
    }
}

} // verus!
