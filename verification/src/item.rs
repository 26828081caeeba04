//! Inventory items: identified by a string id, optionally stackable, with a
//! stack count. Items of the same id stack together.

use vstd::prelude::*;
use crate::add_clamped;
use crate::sub_clamped;
use crate::str_eq;
use crate::clamped;

verus! {

/// One inventory item (or a stack of identical ones).
pub struct Item {
    pub id_string: String,
    pub name: String,
    pub description: String,
    pub stackable: bool,
    pub count: i32,
}

impl Item {
    /// The id that determines stacking, as characters.
    pub open spec fn spec_id(self) -> Seq<char> {
        self.id_string@
    }

    pub open spec fn spec_name(self) -> Seq<char> {
        self.name@
    }

    pub open spec fn spec_description(self) -> Seq<char> {
        self.description@
    }

    pub open spec fn spec_stackable(self) -> bool {
        self.stackable
    }

    /// Two items that differ at most in their stack count.
    pub open spec fn same_kind(self, other: Item) -> bool {
        &&& self.spec_id() == other.spec_id()
        &&& self.spec_name() == other.spec_name()
        &&& self.spec_description() == other.spec_description()
        &&& self.spec_stackable() == other.spec_stackable()
    }

    pub fn new(id_string: String, name: String, description: String, stackable: bool, count: i32)
        -> (r: Item)
        ensures
            r.spec_id() == id_string@,
            r.spec_name() == name@,
            r.spec_description() == description@,
            r.spec_stackable() == stackable,
            r.count == count,
    {
        Item { id_string, name, description, stackable, count }
    }

    /// Unique string id of this item; stacks share it.
    pub fn id_string(&self) -> (r: &str)
        ensures
            r@ == self.spec_id(),
    {
        self.id_string.as_str()
    }

    pub fn name(&self) -> (r: &str)
        ensures
            r@ == self.spec_name(),
    {
        self.name.as_str()
    }

    pub fn description(&self) -> (r: &str)
        ensures
            r@ == self.spec_description(),
    {
        self.description.as_str()
    }

    pub fn stackable(&self) -> (r: bool)
        ensures
            r == self.spec_stackable(),
    {
        self.stackable
    }

    /// Merges `other` into this stack when the ids match and this item
    /// stacks; otherwise hands `other` back untouched.
    pub fn try_combine(&mut self, other: Item) -> (r: Option<Item>)
        ensures
            if old(self).spec_id() != other.spec_id() || !old(self).spec_stackable() {
                r == Some(other) && *final(self) == *old(self)
            } else {
                r is None
                    && final(self).same_kind(*old(self))
                    && final(self).count as int == clamped(old(self).count + other.count)
            },
    {
        if !str_eq(self.id_string.as_str(), other.id_string.as_str()) || !self.stackable {
            Some(other)
        } else {
            self.count = add_clamped(self.count, other.count);
            None
        }
    }

    /// Splits `new_count` off this stack into a fresh item; fails (returning
    /// `None`, changing nothing) when the stack is too small to leave
    /// anything behind or the item does not stack.
    pub fn try_split(&mut self, new_count: i32) -> (r: Option<Item>)
        ensures
            if old(self).count <= new_count || !old(self).spec_stackable() {
                r is None && *final(self) == *old(self)
            } else {
                &&& r is Some
                &&& r->0.same_kind(*old(self))
                &&& r->0.count == new_count
                &&& final(self).same_kind(*old(self))
                &&& final(self).count as int == clamped(old(self).count - new_count)
            },
    {
        if self.count <= new_count || !self.stackable {
            None
        } else {
            let split_item = Item {
                id_string: self.id_string.clone(),
                name: self.name.clone(),
                description: self.description.clone(),
                stackable: self.stackable,
                count: new_count,
            };
            self.count = sub_clamped(self.count, new_count);
            Some(split_item)
        }
    }
}

impl Clone for Item {
    /// An exact copy: string fields clone to equal strings.
    fn clone(&self) -> (res: Self)
        ensures
            res == *self,
    {
        Item {
            id_string: self.id_string.clone(),
            name: self.name.clone(),
            description: self.description.clone(),
            stackable: self.stackable,
            count: self.count,
        }
    }
}

} // verus!
