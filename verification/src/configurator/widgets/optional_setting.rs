//! A setting that takes a default value or a custom value entered in a field.
use vstd::prelude::*;

verus! {

/// A setting whose menu offers the default (entry 0) and a custom value (entry 1).
#[derive(Clone, Copy, Debug, PartialEq, Eq, Structural)]
pub struct OptionalSetting {
    index: usize,
}

/// The menu entry that stands for the choice: the default first, the custom value second.
pub open spec fn spec_choice_index(is_default: bool) -> usize {
    if is_default { 0 } else { 1 }
}

impl OptionalSetting {
    /// The menu entry selected.
    pub closed spec fn index(self) -> usize {
        self.index
    }

    /// A setting that starts on the default, or on the custom value.
    pub fn new(is_default: bool) -> (setting: Self)
        ensures
            setting.index() == spec_choice_index(is_default),
    {
        OptionalSetting { index: if is_default { 0 } else { 1 } }
    }

    /// Selects the default, or the custom value.
    pub fn set_is_default(&mut self, is_default: bool)
        ensures
            final(self).index() == spec_choice_index(is_default),
    {
        self.index = if is_default { 0 } else { 1 };
    }

    /// The menu entry selected.
    pub fn selected_index(&self) -> (index: usize)
        ensures
            index == self.index(),
    {
        self.index
    }

    /// The setting's value, given what the custom field holds: nothing for the
    /// default, the field's value for the custom choice.
    pub fn value<V>(&self, field_value: V) -> (value: Option<V>)
        ensures
            self.index() == 0 ==> value is None,
            self.index() != 0 ==> value == Some(field_value),
    {
        if self.index == 0 {
            None
        } else {
            Some(field_value)
        }
    }
}

} // verus!
