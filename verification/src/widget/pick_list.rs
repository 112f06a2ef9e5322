//! A dropdown list of selectable options, with support for disabling
//! individual options.
//!
//! The pick list does not take part in focus traversal; its verified
//! logic is the selection rule: an option can be chosen exactly when its
//! index is valid and the option is not disabled.

use vstd::prelude::*;

verus! {

/// A dropdown list: its options, a disabled mask and the current
/// selection.
pub struct PickList {
    /// The selectable options.
    pub options: Vec<String>,
    /// Which options are disabled; indices beyond the mask are enabled.
    pub disabled: Vec<bool>,
    /// The index of the selected option, if any.
    pub selected: Option<usize>,
}

impl PickList {
    /// Whether the option at `i` is disabled.
    pub open spec fn spec_option_disabled(&self, i: int) -> bool {
        0 <= i < self.disabled@.len() && self.disabled@[i]
    }

    /// Whether the option at `i` can be selected: the index is valid and
    /// the option is not disabled.
    pub open spec fn spec_selectable(&self, i: int) -> bool {
        0 <= i < self.options@.len() && !self.spec_option_disabled(i)
    }

    /// A selection, when present, points at a selectable option.
    pub open spec fn wf(&self) -> bool {
        match self.selected {
            Option::Some(i) => self.spec_selectable(i as int),
            Option::None => true,
        }
    }

    /// Creates a pick list with the given options and selection.
    /// A selection pointing at an invalid index is dropped.
    pub fn new(options: Vec<String>, selected: Option<usize>) -> (p: PickList)
        ensures
            p.options == options,
            p.disabled@ == Seq::<bool>::empty(),
            p.selected == (match selected {
                Option::Some(i) => if i < options@.len() {
                    Option::Some(i)
                } else {
                    Option::<usize>::None
                },
                Option::None => Option::<usize>::None,
            }),
            p.wf(),
    {
        let checked: Option<usize> = match selected {
            Option::Some(i) => {
                if i < options.len() {
                    Option::Some(i)
                } else {
                    Option::None
                }
            }
            Option::None => Option::None,
        };
        PickList { options, disabled: Vec::new(), selected: checked }
    }

    /// Sets which options are disabled. A current selection that the
    /// mask disables is dropped.
    pub fn disabled(self, mask: Vec<bool>) -> (p: PickList)
        ensures
            p.options == self.options,
            p.disabled == mask,
            p.selected == (match self.selected {
                Option::Some(i) => if (i as int) < mask@.len() && mask@[i as int] {
                    Option::<usize>::None
                } else {
                    Option::Some(i)
                },
                Option::None => Option::<usize>::None,
            }),
            self.wf() ==> p.wf(),
    {
        let selected: Option<usize> = match self.selected {
            Option::Some(i) => {
                if i < mask.len() && mask[i] {
                    Option::None
                } else {
                    Option::Some(i)
                }
            }
            Option::None => Option::None,
        };
        PickList { options: self.options, disabled: mask, selected }
    }

    /// Selects the option at `i`. Succeeds, and changes the selection,
    /// exactly when the index is valid and the option is not disabled;
    /// otherwise the selection is unchanged.
    pub fn select(&mut self, i: usize) -> (ok: bool)
        ensures
            ok == old(self).spec_selectable(i as int),
            final(self).selected == (if ok {
                Option::Some(i)
            } else {
                old(self).selected
            }),
            final(self).options == old(self).options,
            final(self).disabled == old(self).disabled,
            old(self).wf() ==> final(self).wf(),
    {
        if i < self.options.len() && !(i < self.disabled.len() && self.disabled[i]) {
            self.selected = Option::Some(i);
            true
        } else {
            false
        }
    }
}

} // verus!
