//! The state that the chat screen shows: the conversation, the available
//! models and the side bar.
use vstd::prelude::*;
use vstd::std_specs::cmp::PartialEqSpecImpl;

use crate::text::str_eq;

verus! {

/// A message of the conversation on screen.
#[derive(Debug)]
pub struct Message {
    pub content: String,
    pub role: String,
}

impl Clone for Message {
    fn clone(&self) -> (res: Self)
        ensures
            res == *self,
    {
        Message { content: self.content.clone(), role: self.role.clone() }
    }
}

impl PartialEq for Message {
    fn eq(&self, other: &Self) -> (res: bool) {
        self.content == other.content && self.role == other.role
    }
}

impl PartialEqSpecImpl for Message {
    open spec fn obeys_eq_spec() -> bool {
        true
    }

    open spec fn eq_spec(&self, other: &Self) -> bool {
        self.content@ == other.content@ && self.role@ == other.role@
    }
}

/// A model that the backend offers. `created_bits` is the IEEE-754 bit
/// pattern of the 32-bit float creation time that the backend reports.
#[derive(Debug)]
pub struct CompletionModel {
    pub id: String,
    pub object: String,
    pub created_bits: u32,
    pub owned_by: String,
}

impl Clone for CompletionModel {
    fn clone(&self) -> (res: Self)
        ensures
            res == *self,
    {
        CompletionModel {
            id: self.id.clone(),
            object: self.object.clone(),
            created_bits: self.created_bits,
            owned_by: self.owned_by.clone(),
        }
    }
}

/// The state of the model list: whether it is loading, the last error and
/// the models.
#[derive(Debug)]
pub struct CompletionModelState {
    pub is_loading: bool,
    pub error: Option<String>,
    pub models: Vec<CompletionModel>,
}

impl Clone for CompletionModelState {
    fn clone(&self) -> (res: Self)
        ensures
            res.is_loading == self.is_loading,
            res.error == self.error,
            res.models@ == self.models@,
    {
        let error = match &self.error {
            Some(e) => Some(e.clone()),
            None => None,
        };
        let models = self.models.clone();
        proof {
            assert(models@ =~= self.models@);
        }
        CompletionModelState { is_loading: self.is_loading, error, models }
    }
}

impl Default for CompletionModelState {
    fn default() -> (res: Self)
        ensures
            !res.is_loading,
            res.error.is_none(),
            res.models@.len() == 0,
    {
        CompletionModelState { is_loading: false, error: None, models: Vec::new() }
    }
}

impl CompletionModelState {
    /// Records the outcome of fetching the model list: the models replace the
    /// list, an error is kept; either way loading ends.
    pub fn apply_fetch_result(&mut self, result: Result<Vec<CompletionModel>, String>)
        ensures
            !final(self).is_loading,
            match result {
                Ok(models) => final(self).models == models && final(self).error == old(
                    self,
                ).error,
                Err(e) => final(self).models == old(self).models && final(self).error == Some(e),
            },
    {
        match result {
            Ok(models) => {
                self.models = models;
                self.is_loading = false;
            },
            Err(e) => {
                self.is_loading = false;
                self.error = Some(e);
            },
        }
    }

    /// The model selector is disabled while there are no models or they are
    /// loading.
    pub fn selector_disabled(&self) -> (res: bool)
        ensures
            res == (self.models@.len() == 0 || self.is_loading),
    {
        self.models.len() == 0 || self.is_loading
    }

    /// The first model with the given id.
    pub fn find_model(&self, model_id: &str) -> (res: Option<CompletionModel>)
        ensures
            match res {
                Some(m) => exists|i: int|
                    0 <= i < self.models@.len() && self.models@[i] == m && m.id@ == model_id@
                        && forall|j: int| 0 <= j < i ==> self.models@[j].id@ != model_id@,
                None => forall|j: int|
                    0 <= j < self.models@.len() ==> self.models@[j].id@ != model_id@,
            },
    {
        let mut i: usize = 0;
        while i < self.models.len()
            invariant
                i <= self.models@.len(),
                forall|j: int| 0 <= j < i ==> self.models@[j].id@ != model_id@,
            decreases self.models@.len() - i,
        {
            if str_eq(self.models[i].id.as_str(), model_id) {
                return Some(self.models[i].clone());
            }
            i = i + 1;
        }
        None
    }
}

/// True when the active model is `model` (compared by id).
pub fn is_active_model(active: &Option<CompletionModel>, model: &CompletionModel) -> (res: bool)
    ensures
        res == match active {
            Some(m) => m.id@ == model.id@,
            None => false,
        },
{
    match active {
        Some(m) => str_eq(m.id.as_str(), model.id.as_str()),
        None => false,
    }
}

/// Whether the side bar is expanded.
#[derive(Debug)]
pub struct SideBarState {
    pub is_expanded: bool,
}

impl Clone for SideBarState {
    fn clone(&self) -> (res: Self)
        ensures
            res == *self,
    {
        SideBarState { is_expanded: self.is_expanded }
    }
}

impl Default for SideBarState {
    fn default() -> (res: Self)
        ensures
            res.is_expanded,
    {
        SideBarState { is_expanded: true }
    }
}

impl SideBarState {
    /// Expands a collapsed side bar and collapses an expanded one.
    pub fn toggle(&mut self)
        ensures
            final(self).is_expanded == !old(self).is_expanded,
    {
        let is_expanded = self.is_expanded;
        self.is_expanded = !is_expanded;
    }

    /// The class that the content next to the side bar takes.
    pub fn content_class(&self) -> (res: &'static str)
        ensures
            res@ == if self.is_expanded {
                ""@
            } else {
                "sidebar-collapsed"@
            },
    {
        if self.is_expanded {
            ""
        } else {
            "sidebar-collapsed"
        }
    }

    /// The class of the side bar and its toggle button.
    pub fn toggle_style(&self) -> (res: &'static str)
        ensures
            res@ == if self.is_expanded {
                "expanded"@
            } else {
                "collapsed"@
            },
    {
        if self.is_expanded {
            "expanded"
        } else {
            "collapsed"
        }
    }
}

} // verus!
