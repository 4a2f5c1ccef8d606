//! The encrypted store: entries under their names, each enciphered with the
//! password cipher and sealed in a box, beside the nonce it was enciphered under.
use vstd::prelude::*;
use crate::codec::{PlainBytes, BEST_COMPRESSION};
use crate::entry::{Entry, EntryPlain};
use crate::errors::{already_exists, already_exists_text, nonce_not_found, nonce_not_found_text, not_found, not_found_text, Error, ErrorKind};
use crate::name_map::{lookup, NameMap};
use crate::primitives::{deflated, inflated, sealable};
use crate::secret_box::SecretBox;
use crate::tool::{derived_nonce, lemma_decrypt_inverts_encrypt, well_sized, Chacha20Tool, CipherText};

verus! {

/// A named store of entries. An entry is kept as a sealed box in `entries`
/// and its nonce in `nonces`, both under the name of the entry.
#[derive(Debug, Clone, PartialEq, Eq)]
pub struct Folder {
    pub name: String,
    pub entries: NameMap<SecretBox>,
    pub nonces: NameMap<[u8; 12]>,
}

/// The fields of a folder in the order of its layout.
pub type FolderRow = (String, (NameMap<SecretBox>, NameMap<[u8; 12]>));

/// The value of a folder: its name, its boxes and its nonces.
pub type FolderPlain = (
    Seq<char>,
    (Seq<(Seq<char>, (Seq<u8>, (Seq<u8>, Seq<u8>)))>, Seq<(Seq<char>, Seq<u8>)>),
);

impl Folder {
    /// Whether the folder keeps a box and a nonce under the same names.
    pub open spec fn consistent(&self) -> bool {
        forall|name: Seq<char>| self.entries.has(name) == self.nonces.has(name)
    }

    /// Whether the folder keeps `packed` under `name`: enciphered by `tool`
    /// under the nonce that is kept beside it, and sealed.
    pub open spec fn keeps(&self, name: Seq<char>, packed: Seq<u8>, tool: &Chacha20Tool) -> bool {
        &&& self.entries.has(name)
        &&& self.nonces.has(name)
        &&& tool.within_stream(packed.len())
        &&& self.entries.value(name).seals(tool.enciphered(packed, self.nonces.value(name)@))
    }

    /// The compressed layout of an entry; `None` where the compressor makes
    /// none of it.
    pub open spec fn packed(entry: EntryPlain) -> Option<Seq<u8>> {
        deflated(Entry::layout(entry), BEST_COMPRESSION)
    }

    /// Whether the folder keeps the entry of value `entry` under `name`, for
    /// `tool` to read.
    pub open spec fn holds(&self, name: Seq<char>, entry: EntryPlain, tool: &Chacha20Tool) -> bool {
        &&& Entry::canonical(entry)
        &&& Self::packed(entry) is Some
        &&& self.keeps(name, Self::packed(entry)->Some_0, tool)
    }

    /// What keeping an entry under a nonce of the hash and its salt comes
    /// to, step by step: the compressed layout that is kept, or the kind of
    /// the failure. The entry must compress
    /// (`EncodingError`), the hash and its salt must have their lengths
    /// (`PasswordHashingError`), and the compressed layout must lie inside
    /// the keystream and be short enough to seal (`EncryptionError`).
    pub open spec fn keeping(
        entry: EntryPlain,
        tool: &Chacha20Tool,
        hash: Seq<u8>,
        salt: Seq<u8>,
    ) -> Result<Seq<u8>, ErrorKind> {
        match Self::packed(entry) {
            None => Err(ErrorKind::EncodingError),
            Some(packed) => if !well_sized(hash, salt) {
                Err(ErrorKind::PasswordHashingError)
            } else if !tool.within_stream(packed.len()) || !sealable(packed.len()) {
                Err(ErrorKind::EncryptionError)
            } else {
                Ok(packed)
            },
        }
    }

    /// Whether `other` keeps under every name but `name` what `self` keeps,
    /// and has the name of `self`.
    pub open spec fn differs_at_most_at(&self, other: &Folder, name: Seq<char>) -> bool {
        &&& self.name == other.name
        &&& forall|n: Seq<char>|
            n != name ==> lookup(self.entries.entries(), n) == lookup(other.entries.entries(), n)
        &&& forall|n: Seq<char>|
            n != name ==> lookup(self.nonces.entries(), n) == lookup(other.nonces.entries(), n)
    }

    /// Whether `after` is `self` with `packed` newly kept under `name`, under
    /// the nonce that belongs to the hash and its salt.
    pub open spec fn kept_in(
        &self,
        after: &Folder,
        name: Seq<char>,
        packed: Seq<u8>,
        tool: &Chacha20Tool,
        hash: Seq<u8>,
        salt: Seq<u8>,
    ) -> bool {
        &&& after.keeps(name, packed, tool)
        &&& after.nonces.value(name)@ == derived_nonce(hash, salt, tool.rounds())
        &&& self.differs_at_most_at(after, name)
        &&& self.consistent() ==> after.consistent()
    }

    /// Whether `e` is the failure of keeping something under a nonce of the
    /// hash and its salt: `PasswordHashingError` where their lengths are
    /// wrong, `EncryptionError` else.
    pub open spec fn keeping_fails_with(e: Error, hash: Seq<u8>, salt: Seq<u8>) -> bool {
        if well_sized(hash, salt) {
            e is EncryptionError
        } else {
            e is PasswordHashingError
        }
    }

    /// Enciphers `packed` under the nonce of one fresh output of the
    /// password hash, seals the ciphertext and keeps box and nonce under
    /// `name`, in place of what was kept there. Either both maps change or
    /// neither. Succeeds exactly where the hash and its salt have their
    /// lengths, `packed` lies inside the keystream and can be sealed.
    pub fn insert_packed(
        &mut self,
        name: &str,
        packed: &[u8],
        tool: &Chacha20Tool,
        hash_bytes: &[u8],
        salt_bytes: &[u8],
    ) -> (r: Result<(), Error>)
        ensures
            r is Ok <==> well_sized(hash_bytes@, salt_bytes@) && tool.within_stream(packed@.len())
                && sealable(packed@.len()),
            r is Ok ==> old(self).kept_in(
                final(self),
                name@,
                packed@,
                tool,
                hash_bytes@,
                salt_bytes@,
            ),
            r matches Err(e) ==> *final(self) == *old(self) && Self::keeping_fails_with(
                e,
                hash_bytes@,
                salt_bytes@,
            ),
    {
        let enciphered: CipherText = match tool.encrypt(packed, hash_bytes, salt_bytes) {
            Ok(enciphered) => enciphered,
            Err(e) => {
                return Err(e);
            },
        };
        let mut ciphertext = enciphered.ciphertext();
        let sealed: SecretBox = match SecretBox::close(ciphertext.bytes.as_slice()) {
            Ok(sealed) => sealed,
            Err(e) => {
                ciphertext.destroy();
                return Err(e);
            },
        };
        ciphertext.destroy();
        let nonce: [u8; 12] = enciphered.nonce();
        self.entries.insert(name.to_owned(), sealed);
        self.nonces.insert(name.to_owned(), nonce);
        proof {
            if old(self).consistent() {
                assert forall|n: Seq<char>| self.entries.has(n) == self.nonces.has(n) by {
                    if n != name@ {
                        assert(old(self).entries.has(n) == old(self).nonces.has(n));
                    }
                }
            }
        }
        Ok(())
    }

    /// Packs `entry` and keeps it under its name, as [`Folder::keeping`]
    /// says step by step; on a failure the folder is left as it was.
    fn encrypt_and_insert_entry(
        &mut self,
        entry: &Entry,
        tool: &Chacha20Tool,
        hash_bytes: &[u8],
        salt_bytes: &[u8],
    ) -> (r: Result<(), Error>)
        ensures
            Entry::canonical(entry.plain()),
            match Self::keeping(entry.plain(), tool, hash_bytes@, salt_bytes@) {
                Ok(packed) => r is Ok && old(self).kept_in(
                    final(self),
                    entry.name@,
                    packed,
                    tool,
                    hash_bytes@,
                    salt_bytes@,
                ),
                Err(kind) => r matches Err(e) && e.kind() == kind && *final(self) == *old(
                    self,
                ),
            },
    {
        let mut packed: Vec<u8> = match entry.to_flate_bytes() {
            Ok(packed) => packed,
            Err(e) => {
                return Err(e);
            },
        };
        let r = self.insert_packed(
            entry.name.as_str(),
            packed.as_slice(),
            tool,
            hash_bytes,
            salt_bytes,
        );
        crate::utils::drop(&mut packed);
        r
    }

    /// Keeps a new entry and hands it back. Fails with `AlreadyExists`,
    /// naming the entry, exactly where an entry of that name is kept
    /// already; else it succeeds exactly where [`Folder::keeping`] does, and
    /// fails with the variant that it names. Afterwards the folder holds
    /// the entry for `tool`; on any failure it is left as it was.
    pub fn add_entry(
        &mut self,
        entry: Entry,
        tool: &Chacha20Tool,
        hash_bytes: &[u8],
        salt_bytes: &[u8],
    ) -> (r: Result<Entry, Error>)
        ensures
            if old(self).entries.has(entry.name@) {
                &&& r matches Err(e)
                &&& e is AlreadyExists
                &&& e.message_text() == already_exists_text(entry.name@)
                &&& *final(self) == *old(self)
            } else {
                match Self::keeping(entry.plain(), tool, hash_bytes@, salt_bytes@) {
                    Ok(packed) => {
                        &&& r matches Ok(kept)
                        &&& kept == entry
                        &&& final(self).holds(entry.name@, entry.plain(), tool)
                        &&& old(self).kept_in(
                            final(self),
                            entry.name@,
                            packed,
                            tool,
                            hash_bytes@,
                            salt_bytes@,
                        )
                    },
                    Err(kind) => {
                        &&& r matches Err(e)
                        &&& e.kind() == kind
                        &&& *final(self) == *old(self)
                    },
                }
            },
    {
        if self.entries.contains_key(entry.name.as_str()) {
            return Err(already_exists(entry.name.as_str()));
        }
        match self.encrypt_and_insert_entry(&entry, tool, hash_bytes, salt_bytes) {
            Ok(()) => Ok(entry),
            Err(e) => Err(e),
        }
    }

    /// Keeps `entry` in place of the entry of its name. Fails with
    /// `NotFound`, naming the entry, exactly where no entry of that name is
    /// kept; else it succeeds exactly where [`Folder::keeping`] does, and
    /// fails with the variant that it names. Afterwards the folder holds
    /// the entry for `tool`; on any failure it is left as it was.
    pub fn update_entry(
        &mut self,
        entry: &Entry,
        tool: &Chacha20Tool,
        hash_bytes: &[u8],
        salt_bytes: &[u8],
    ) -> (r: Result<(), Error>)
        ensures
            if !old(self).entries.has(entry.name@) {
                &&& r matches Err(e)
                &&& e is NotFound
                &&& e.message_text() == not_found_text(entry.name@)
                &&& *final(self) == *old(self)
            } else {
                match Self::keeping(entry.plain(), tool, hash_bytes@, salt_bytes@) {
                    Ok(packed) => {
                        &&& r is Ok
                        &&& final(self).holds(entry.name@, entry.plain(), tool)
                        &&& old(self).kept_in(
                            final(self),
                            entry.name@,
                            packed,
                            tool,
                            hash_bytes@,
                            salt_bytes@,
                        )
                    },
                    Err(kind) => {
                        &&& r matches Err(e)
                        &&& e.kind() == kind
                        &&& *final(self) == *old(self)
                    },
                }
            },
    {
        if self.entries.contains_key(entry.name.as_str()) {
            self.encrypt_and_insert_entry(entry, tool, hash_bytes, salt_bytes)
        } else {
            Err(not_found(entry.name.as_str()))
        }
    }

    /// The nonce that is kept under `name`; `NotFound`, naming the entry,
    /// exactly where there is none.
    pub fn get_nonce(&self, name: &str) -> (r: Result<[u8; 12], Error>)
        ensures
            match r {
                Ok(nonce) => self.nonces.has(name@) && nonce == self.nonces.value(name@),
                Err(e) => !self.nonces.has(name@) && e is NotFound && e.message_text()
                    == nonce_not_found_text(name@),
            },
    {
        match self.nonces.get(name) {
            Some(nonce) => Ok(*nonce),
            None => Err(nonce_not_found(name)),
        }
    }

    /// What reading `name` with `tool` gives: the value of the entry, or the
    /// kind of the failure. The box and the nonce of the name
    /// must be there (`NotFound`), the box must open and what it held must
    /// lie inside the keystream (`DecryptionError`), the deciphered bytes
    /// must expand (`DecodingError`) and start with the layout of an entry
    /// (`DeserializationError`).
    pub open spec fn reading(&self, name: Seq<char>, tool: &Chacha20Tool) -> Result<
        EntryPlain,
        ErrorKind,
    > {
        if !self.entries.has(name) || !self.nonces.has(name) {
            Err(ErrorKind::NotFound)
        } else if !self.entries.value(name).opens() || !tool.within_stream(
            self.entries.value(name).content().len(),
        ) {
            Err(ErrorKind::DecryptionError)
        } else {
            match inflated(
                tool.enciphered(self.entries.value(name).content(), self.nonces.value(name)@),
            ) {
                None => Err(ErrorKind::DecodingError),
                Some(raw) => match Entry::parsed(raw) {
                    None => Err(ErrorKind::DeserializationError),
                    Some((entry, _)) => Ok(entry),
                },
            }
        }
    }

    /// The entry that is kept under `name`, as [`Folder::reading`] says. An
    /// entry that the folder holds for `tool` is returned as it was kept.
    /// A `NotFound` names the entry, and says whether the box or only the
    /// nonce is missing. The folder is not changed.
    pub fn get(&self, name: &str, tool: &Chacha20Tool) -> (r: Result<Entry, Error>)
        ensures
            match self.reading(name@, tool) {
                Ok(entry) => r matches Ok(x) && x.plain() == entry,
                Err(kind) => r matches Err(e) && e.kind() == kind,
            },
            forall|entry: EntryPlain| #[trigger]
                self.holds(name@, entry, tool) ==> r is Ok && r->Ok_0.plain() == entry,
            !self.entries.has(name@) ==> (r matches Err(e) && e.message_text() == not_found_text(
                name@,
            )),
            self.entries.has(name@) && !self.nonces.has(name@) ==> (r matches Err(e)
                && e.message_text() == nonce_not_found_text(name@)),
    {
        let secret_box: &SecretBox = match self.entries.get(name) {
            Some(ciphertext) => ciphertext,
            None => {
                return Err(not_found(name));
            },
        };
        let nonce: [u8; 12] = match self.get_nonce(name) {
            Ok(nonce) => nonce,
            Err(e) => {
                return Err(e);
            },
        };
        let entry_ciphertext = match secret_box.open() {
            Ok(opened) => opened,
            Err(e) => {
                return Err(e);
            },
        };
        let ghost held = entry_ciphertext@;
        let ciphertext: CipherText = CipherText::new(entry_ciphertext, nonce);
        let mut bytes: Vec<u8> = match tool.decrypt(&ciphertext) {
            Ok(bytes) => bytes,
            Err(e) => {
                return Err(e);
            },
        };
        let r = Entry::from_deflate_bytes(bytes.as_slice());
        proof {
            assert forall|entry: EntryPlain| #[trigger]
                self.holds(name@, entry, tool) implies r is Ok && r->Ok_0.plain() == entry by {
                lemma_decrypt_inverts_encrypt(*tool, Self::packed(entry)->Some_0, nonce@);
            }
        }
        crate::utils::drop(&mut bytes);
        r
    }

    /// Takes the entry of `name` out, box and nonce together. Fails with
    /// `NotFound`, naming the entry, exactly where no box of that name is
    /// kept, and leaves the folder as it was.
    pub fn delete(&mut self, name: &str) -> (r: Result<bool, Error>)
        ensures
            match r {
                Ok(done) => done && old(self).entries.has(name@) && !final(self).entries.has(name@)
                    && !final(self).nonces.has(name@) && old(self).differs_at_most_at(
                    final(self),
                    name@,
                ),
                Err(e) => !old(self).entries.has(name@) && e is NotFound && e.message_text()
                    == not_found_text(name@) && *final(self) == *old(self),
            },
            r is Ok && old(self).consistent() ==> final(self).consistent(),
    {
        if !self.entries.contains_key(name) {
            return Err(not_found(name));
        }
        self.entries.remove(name);
        self.nonces.remove(name);
        proof {
            if old(self).consistent() {
                assert forall|n: Seq<char>| self.entries.has(n) == self.nonces.has(n) by {
                    if n != name@ {
                        assert(old(self).entries.has(n) == old(self).nonces.has(n));
                    }
                }
            }
        }
        Ok(true)
    }
}

/// What is done under one name leaves the entries of the other names to be
/// read: an entry that a folder holds under `name` is held by every folder
/// that differs from it at most at another name.
pub proof fn lemma_held_elsewhere(
    before: Folder,
    after: Folder,
    changed: Seq<char>,
    name: Seq<char>,
    entry: EntryPlain,
    tool: &Chacha20Tool,
)
    requires
        before.differs_at_most_at(&after, changed),
        name != changed,
        before.holds(name, entry, tool),
    ensures
        after.holds(name, entry, tool),
{
}

impl Default for Folder {
    /// The folder without a name and without entries.
    fn default() -> (r: Folder)
        ensures
            r.name@.len() == 0,
            r.entries.entries().len() == 0,
            r.nonces.entries().len() == 0,
            r.consistent(),
    {
        Folder { name: String::new(), entries: NameMap::new(), nonces: NameMap::new() }
    }
}

impl PlainBytes for Folder {
    type Plain = FolderPlain;

    open spec fn plain(&self) -> FolderPlain {
        (self.name@, (self.entries.plain(), self.nonces.plain()))
    }

    open spec fn canonical(value: FolderPlain) -> bool {
        <FolderRow as PlainBytes>::canonical(value)
    }

    open spec fn layout(value: FolderPlain) -> Seq<u8> {
        <FolderRow as PlainBytes>::layout(value)
    }

    open spec fn parsed(bytes: Seq<u8>) -> Option<(FolderPlain, int)> {
        <FolderRow as PlainBytes>::parsed(bytes)
    }

    proof fn lemma_parsed_layout(value: FolderPlain, rest: Seq<u8>) {
        <FolderRow as PlainBytes>::lemma_parsed_layout(value, rest);
    }

    proof fn lemma_parsed_bounds(bytes: Seq<u8>) {
        <FolderRow as PlainBytes>::lemma_parsed_bounds(bytes);
    }

    fn write_plain(&self, out: &mut Vec<u8>) {
        self.name.write_plain(out);
        self.entries.write_plain(out);
        self.nonces.write_plain(out);
    }

    fn read_plain(bytes: &[u8], start: usize) -> (r: Option<(Self, usize)>) {
        match <FolderRow as PlainBytes>::read_plain(bytes, start) {
            Some(((name, (entries, nonces)), end)) => Some((Folder { name, entries, nonces }, end)),
            None => None,
        }
    }
}

} // verus!
