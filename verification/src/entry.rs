//! A credential record.
use vstd::prelude::*;
use vstd::std_specs::convert::FromSpecImpl;
use crate::codec::PlainBytes;
use crate::name_map::NameMap;
use crate::secret::Secret;

verus! {

/// A credential record: who, where, the password and free attributes.
#[derive(Debug, Clone, PartialEq, Eq)]
pub struct Entry {
    pub name: String,
    pub username: String,
    pub password: Secret,
    pub description: String,
    pub email: String,
    pub urls: Vec<String>,
    pub attributes: NameMap<Secret>,
}

/// The fields of an entry in the order of its layout.
pub type EntryRow = (String, (String, (Secret, (String, (String, (Vec<String>, NameMap<Secret>))))));

/// The value of an entry: the values of its fields, in the order of the layout.
pub type EntryPlain = (
    Seq<char>,
    (
        Seq<char>,
        (
            (Seq<u8>, usize),
            (Seq<char>, (Seq<char>, (Seq<Seq<char>>, Seq<(Seq<char>, (Seq<u8>, usize))>))),
        ),
    ),
);

impl Entry {
    /// An entry with the given name and every other field empty.
    pub fn new(name: &str) -> (r: Entry)
        ensures
            r.name@ == name@,
            r.username@.len() == 0,
            r.password.bytes().len() == 0,
            r.password.shown_len() == 0,
            r.description@.len() == 0,
            r.email@.len() == 0,
            r.urls@.len() == 0,
            r.attributes.entries().len() == 0,
    {
        Entry {
            name: name.to_owned(),
            username: String::new(),
            password: Secret::default(),
            description: String::new(),
            email: String::new(),
            urls: Vec::new(),
            attributes: NameMap::new(),
        }
    }
}

impl Default for Entry {
    /// The entry with every field empty.
    fn default() -> (r: Entry)
        ensures
            r.name@.len() == 0,
            r.username@.len() == 0,
            r.password.bytes().len() == 0,
            r.password.shown_len() == 0,
            r.description@.len() == 0,
            r.email@.len() == 0,
            r.urls@.len() == 0,
            r.attributes.entries().len() == 0,
    {
        let r = Entry::new("");
        proof {
            reveal_strlit("");
        }
        r
    }
}

impl From<&str> for Entry {
    fn from(name: &str) -> (r: Entry)
        ensures
            r.name@ == name@,
    {
        Entry::new(name)
    }
}

impl FromSpecImpl<&str> for Entry {
    open spec fn obeys_from_spec() -> bool {
        false
    }

    open spec fn from_spec(name: &str) -> Entry {
        arbitrary()
    }
}

impl From<String> for Entry {
    fn from(name: String) -> (r: Entry)
        ensures
            r.name@ == name@,
    {
        Entry::new(name.as_str())
    }
}

impl FromSpecImpl<String> for Entry {
    open spec fn obeys_from_spec() -> bool {
        false
    }

    open spec fn from_spec(name: String) -> Entry {
        arbitrary()
    }
}

impl PlainBytes for Entry {
    type Plain = EntryPlain;

    open spec fn plain(&self) -> EntryPlain {
        (
            self.name@,
            (
                self.username@,
                (
                    self.password.plain(),
                    (
                        self.description@,
                        (self.email@, (self.urls.plain(), self.attributes.plain())),
                    ),
                ),
            ),
        )
    }

    open spec fn canonical(value: EntryPlain) -> bool {
        <EntryRow as PlainBytes>::canonical(value)
    }

    open spec fn layout(value: EntryPlain) -> Seq<u8> {
        <EntryRow as PlainBytes>::layout(value)
    }

    open spec fn parsed(bytes: Seq<u8>) -> Option<(EntryPlain, int)> {
        <EntryRow as PlainBytes>::parsed(bytes)
    }

    proof fn lemma_parsed_layout(value: EntryPlain, rest: Seq<u8>) {
        <EntryRow as PlainBytes>::lemma_parsed_layout(value, rest);
    }

    proof fn lemma_parsed_bounds(bytes: Seq<u8>) {
        <EntryRow as PlainBytes>::lemma_parsed_bounds(bytes);
    }

    fn write_plain(&self, out: &mut Vec<u8>) {
        self.name.write_plain(out);
        self.username.write_plain(out);
        self.password.write_plain(out);
        self.description.write_plain(out);
        self.email.write_plain(out);
        self.urls.write_plain(out);
        self.attributes.write_plain(out);
    }

    fn read_plain(bytes: &[u8], start: usize) -> (r: Option<(Self, usize)>) {
        match <EntryRow as PlainBytes>::read_plain(bytes, start) {
            Some((row, end)) => {
                let (name, (username, (password, (description, (email, (urls, attributes)))))) =
                    row;
                Some(
                    (
                        Entry { name, username, password, description, email, urls, attributes },
                        end,
                    ),
                )
            },
            None => None,
        }
    }
}

} // verus!
