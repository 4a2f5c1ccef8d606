//! The store without a cipher: the same transitions as [`crate::Folder`],
//! with the entries kept as they are.
use vstd::prelude::*;
use crate::entry::Entry;
use crate::errors::{already_exists, already_exists_text, not_found, not_found_text, Error};
use crate::name_map::{lookup, put, without, NameMap};

verus! {

/// A named store of entries, each kept as it is under its name.
#[derive(Debug, Clone, PartialEq, Eq)]
pub struct PlainFolder {
    pub name: String,
    pub entries: NameMap<Entry>,
}

impl PlainFolder {
    /// An empty store.
    pub fn new(name: &str) -> (r: PlainFolder)
        ensures
            r.name@ == name@,
            r.entries.entries().len() == 0,
    {
        PlainFolder { name: name.to_owned(), entries: NameMap::new() }
    }

    /// Keeps a new entry under its name. Fails with `AlreadyExists`
    /// exactly where an entry of that name is kept already, and then leaves
    /// the store as it was.
    pub fn add_entry(&mut self, entry: Entry) -> (r: Result<(), Error>)
        ensures
            match r {
                Ok(()) => !old(self).entries.has(entry.name@) && final(self).entries.entries()
                    == put(old(self).entries.entries(), entry.name@, entry) && final(self).name
                    == old(self).name,
                Err(e) => old(self).entries.has(entry.name@) && e is AlreadyExists
                    && e.message_text() == already_exists_text(entry.name@) && *final(self) == *old(
                    self,
                ),
            },
    {
        if self.entries.contains_key(entry.name.as_str()) {
            return Err(already_exists(entry.name.as_str()));
        }
        let name: String = entry.name.clone();
        self.entries.insert(name, entry);
        Ok(())
    }

    /// Keeps `entry` in place of the entry of its name. Fails with
    /// `NotFound` exactly where no entry of that name is kept, and then
    /// leaves the store as it was.
    pub fn update_entry(&mut self, entry: Entry) -> (r: Result<(), Error>)
        ensures
            match r {
                Ok(()) => old(self).entries.has(entry.name@) && final(self).entries.entries()
                    == put(old(self).entries.entries(), entry.name@, entry) && final(self).name
                    == old(self).name,
                Err(e) => !old(self).entries.has(entry.name@) && e is NotFound
                    && e.message_text() == not_found_text(entry.name@) && *final(self) == *old(
                    self,
                ),
            },
    {
        if !self.entries.contains_key(entry.name.as_str()) {
            return Err(not_found(entry.name.as_str()));
        }
        let name: String = entry.name.clone();
        self.entries.insert(name, entry);
        Ok(())
    }

    /// The entry that is kept under `name`; `NotFound` exactly where there
    /// is none.
    pub fn get(&self, name: &str) -> (r: Result<&Entry, Error>)
        ensures
            match r {
                Ok(entry) => lookup(self.entries.entries(), name@) == Some(*entry),
                Err(e) => !self.entries.has(name@) && e is NotFound && e.message_text()
                    == not_found_text(name@),
            },
    {
        match self.entries.get(name) {
            Some(entry) => Ok(entry),
            None => Err(not_found(name)),
        }
    }

    /// Takes the entry of `name` out. Fails with `NotFound` exactly where
    /// there is none, and then leaves the store as it was.
    pub fn delete(&mut self, name: &str) -> (r: Result<bool, Error>)
        ensures
            match r {
                Ok(done) => done && old(self).entries.has(name@) && final(self).entries.entries()
                    == without(old(self).entries.entries(), name@) && !final(self).entries.has(
                    name@,
                ) && final(self).name == old(self).name,
                Err(e) => !old(self).entries.has(name@) && e is NotFound && e.message_text()
                    == not_found_text(name@) && *final(self) == *old(self),
            },
    {
        if !self.entries.contains_key(name) {
            return Err(not_found(name));
        }
        self.entries.remove(name);
        Ok(true)
    }
}

} // verus!
