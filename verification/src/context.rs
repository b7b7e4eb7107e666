//! The selection that an interactive session keeps between commands: at
//! most one selected file, group or tag, used when a command names none.
use vstd::prelude::*;

verus! {

/// The ids selected in a session.
#[derive(Clone, Copy, Debug, PartialEq, Eq, Structural)]
pub struct Context {
    pub selected_file_id: Option<i32>,
    pub selected_group_id: Option<i32>,
    pub selected_tag_id: Option<i32>,
}

impl Context {
    /// A context with nothing selected.
    pub fn new() -> (r: Self)
        ensures
            r.selected_file_id is None,
            r.selected_group_id is None,
            r.selected_tag_id is None,
    {
        Context { selected_file_id: None, selected_group_id: None, selected_tag_id: None }
    }

    /// Selects file `id` alone.
    pub fn select_file(&mut self, id: i32)
        ensures
            *final(self) == (Context { selected_file_id: Some(id), selected_group_id: None, selected_tag_id: None }),
    {
        self.selected_file_id = Some(id);
        self.selected_group_id = None;
        self.selected_tag_id = None;
    }

    /// Selects group `id` alone.
    pub fn select_group(&mut self, id: i32)
        ensures
            *final(self) == (Context { selected_file_id: None, selected_group_id: Some(id), selected_tag_id: None }),
    {
        self.selected_file_id = None;
        self.selected_group_id = Some(id);
        self.selected_tag_id = None;
    }

    /// Selects tag `id` alone.
    pub fn select_tag(&mut self, id: i32)
        ensures
            *final(self) == (Context { selected_file_id: None, selected_group_id: None, selected_tag_id: Some(id) }),
    {
        self.selected_file_id = None;
        self.selected_group_id = None;
        self.selected_tag_id = Some(id);
    }

    /// The file a command acts on: the one it names, else the selected one.
    pub fn file_target(&self, named: Option<i32>) -> (r: Option<i32>)
        ensures
            r == (if named is Some { named } else { self.selected_file_id }),
    {
        match named {
            Some(id) => Some(id),
            None => self.selected_file_id,
        }
    }

    /// The group a command acts on: the one it names, else the selected one.
    pub fn group_target(&self, named: Option<i32>) -> (r: Option<i32>)
        ensures
            r == (if named is Some { named } else { self.selected_group_id }),
    {
        match named {
            Some(id) => Some(id),
            None => self.selected_group_id,
        }
    }

    /// The tag a command acts on: the one it names, else the selected one.
    pub fn tag_target(&self, named: Option<i32>) -> (r: Option<i32>)
        ensures
            r == (if named is Some { named } else { self.selected_tag_id }),
    {
        match named {
            Some(id) => Some(id),
            None => self.selected_tag_id,
        }
    }

    /// Forgets file `id` if it is the selected file, after it was deleted.
    pub fn forget_file(&mut self, id: i32)
        ensures
            final(self).selected_file_id == (if old(self).selected_file_id == Some(id) {
                None
            } else {
                old(self).selected_file_id
            }),
            final(self).selected_group_id == old(self).selected_group_id,
            final(self).selected_tag_id == old(self).selected_tag_id,
    {
        if self.selected_file_id == Some(id) {
            self.selected_file_id = None;
        }
    }

    /// Forgets group `id` if it is the selected group, after it was deleted.
    pub fn forget_group(&mut self, id: i32)
        ensures
            final(self).selected_group_id == (if old(self).selected_group_id == Some(id) {
                None
            } else {
                old(self).selected_group_id
            }),
            final(self).selected_file_id == old(self).selected_file_id,
            final(self).selected_tag_id == old(self).selected_tag_id,
    {
        if self.selected_group_id == Some(id) {
            self.selected_group_id = None;
        }
    }

    /// Forgets tag `id` if it is the selected tag, after it was deleted.
    pub fn forget_tag(&mut self, id: i32)
        ensures
            final(self).selected_tag_id == (if old(self).selected_tag_id == Some(id) {
                None
            } else {
                old(self).selected_tag_id
            }),
            final(self).selected_file_id == old(self).selected_file_id,
            final(self).selected_group_id == old(self).selected_group_id,
    {
        if self.selected_tag_id == Some(id) {
            self.selected_tag_id = None;
        }
    }
}

} // verus!
