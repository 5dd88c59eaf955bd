//! An in-memory picture of the events directory.
//!
//! The events directory functions as an unindexed, unordered table:
//! one regular file per event, independently creatable and deletable,
//! scanned whole for "read all".  This module models that table as a
//! value — the list of regular files together with whether the
//! directory itself exists — so that every rule of the store can be
//! stated and verified over it.  The thin unverified layer around the
//! library mirrors this picture onto the real filesystem.

use vstd::prelude::*;

verus! {

use crate::error::Error;
use vstd::slice::slice_to_vec;

/// One regular file: its name and its contents.
pub struct FileEntry {
    pub name: String,
    pub bytes: Vec<u8>,
}

impl View for FileEntry {
    type V = (Seq<char>, Seq<u8>);

    open spec fn view(&self) -> (Seq<char>, Seq<u8>) {
        (self.name@, self.bytes@)
    }
}

/// The events directory as the store sees it: whether it exists on
/// disk, and the regular files it holds, in listing order.
pub struct EventsDir {
    path: String,
    exists: bool,
    files: Vec<FileEntry>,
}

impl EventsDir {
    /// The path this directory stands at; used to annotate failures.
    pub closed spec fn path(&self) -> Seq<char> {
        self.path@
    }

    /// Whether the directory itself exists on disk.
    pub closed spec fn dir_exists(&self) -> bool {
        self.exists
    }

    /// The files, in listing order: the name and contents of each.
    pub closed spec fn entries(&self) -> Seq<(Seq<char>, Seq<u8>)> {
        Seq::new(self.files@.len(), |i: int| self.files@[i]@)
    }

    /// The filenames, in listing order.
    pub open spec fn names(&self) -> Seq<Seq<char>> {
        Seq::new(self.entries().len(), |i: int| self.entries()[i].0)
    }

    /// Whether a file of the given name is present.
    pub open spec fn has_file(&self, name: Seq<char>) -> bool {
        self.names().contains(name)
    }

    /// The position of the file with the given name.
    pub open spec fn file_index(&self, name: Seq<char>) -> int {
        self.names().index_of(name)
    }

    /// Well-formed: no two files share a name, and a directory that
    /// does not exist on disk holds no files.
    pub closed spec fn wf(&self) -> bool {
        &&& forall|i: int, j: int|
            0 <= i < j < self.entries().len() ==> self.entries()[i].0 != self.entries()[j].0
        &&& !self.exists ==> self.entries().len() == 0
    }

    /// No two files share a name.
    pub proof fn lemma_unique_names(&self)
        requires
            self.wf(),
        ensures
            forall|i: int, j: int|
                0 <= i < j < self.entries().len() ==> self.entries()[i].0 != self.entries()[j].0,
            !self.dir_exists() ==> self.entries().len() == 0,
    {
    }

    /// A picture of a storage location where nothing exists on disk
    /// yet.
    pub fn new(path: &str) -> (d: EventsDir)
        ensures
            d.wf(),
            d.path() == path@,
            !d.dir_exists(),
            d.entries().len() == 0,
    {
        EventsDir { path: path.to_owned(), exists: false, files: Vec::new() }
    }

    /// Creates the events directory if it is missing.  Succeeds
    /// silently, leaving the contents untouched, when it already
    /// exists — calling this twice in a row changes nothing further.
    pub fn create_dirs(&mut self)
        requires
            old(self).wf(),
        ensures
            final(self).wf(),
            final(self).dir_exists(),
            final(self).path() == old(self).path(),
            final(self).entries() == old(self).entries(),
    {
        self.exists = true;
    }

    /// The position of the file named `name`, if one is present.
    fn find(&self, name: &str) -> (r: Option<usize>)
        requires
            self.wf(),
        ensures
            match r {
                Some(i) => {
                    &&& i < self.entries().len()
                    &&& self.entries()[i as int].0 == name@
                    &&& self.has_file(name@)
                    &&& self.file_index(name@) == i as int
                },
                None => !self.has_file(name@),
            },
    {
        let owned = name.to_owned();
        let n = self.files.len();
        let mut i: usize = 0;
        while i < n
            invariant
                self.wf(),
                owned@ == name@,
                n == self.entries().len(),
                i <= n,
                forall|j: int| 0 <= j < i ==> self.entries()[j].0 != name@,
            decreases n - i,
        {
            if self.files[i].name.eq(&owned) {
                proof {
                    assert(self.names()[i as int] == name@);
                    assert(self.has_file(name@));
                    let k = self.file_index(name@);
                    assert(self.names()[k] == name@);
                    assert(k == i as int);
                }
                return Some(i);
            }
            i = i + 1;
        }
        proof {
            assert forall|k: int| 0 <= k < self.names().len() implies self.names()[k]
                != name@ by {}
        }
        None
    }

    /// Whether a file of the given name is present.
    pub fn contains_file(&self, name: &str) -> (r: bool)
        requires
            self.wf(),
        ensures
            r == self.has_file(name@),
    {
        match self.find(name) {
            Some(_) => true,
            None => false,
        }
    }

    /// Writes a file of the given name and contents, overwriting a
    /// file of that name if one is already present.  Fails only when
    /// the directory itself does not exist.
    pub fn write_file(&mut self, name: &str, bytes: Vec<u8>) -> (r: Result<(), Error>)
        requires
            old(self).wf(),
        ensures
            final(self).wf(),
            final(self).path() == old(self).path(),
            final(self).dir_exists() == old(self).dir_exists(),
            r is Ok <==> old(self).dir_exists(),
            r is Err ==> *final(self) == *old(self),
            r matches Err(e) ==> e is Filesystem,
            old(self).dir_exists() && old(self).has_file(name@) ==> final(self).entries()
                == old(self).entries().update(old(self).file_index(name@), (name@, bytes@)),
            old(self).dir_exists() && !old(self).has_file(name@) ==> final(self).entries()
                == old(self).entries().push((name@, bytes@)),
    {
        if !self.exists {
            return Err(Error::Filesystem { path: self.path.clone() });
        }
        match self.find(name) {
            Some(i) => {
                let ghost idx = i as int;
                self.files.set(i, FileEntry { name: name.to_owned(), bytes });
                proof {
                    assert(self.entries() =~= old(self).entries().update(idx, (name@, bytes@)));
                }
            },
            None => {
                self.files.push(FileEntry { name: name.to_owned(), bytes });
                proof {
                    assert(self.entries() =~= old(self).entries().push((name@, bytes@)));
                    assert forall|i: int, j: int|
                        0 <= i < j < self.entries().len() implies self.entries()[i].0
                        != self.entries()[j].0 by {
                        if j < self.entries().len() - 1 {
                            assert(self.entries()[i] == old(self).entries()[i]);
                            assert(self.entries()[j] == old(self).entries()[j]);
                        } else {
                            assert(self.entries()[j].0 == name@);
                            assert(old(self).names()[i] == old(self).entries()[i].0);
                        }
                    }
                }
            },
        }
        Ok(())
    }

    /// Removes the file of the given name.  Unlike directory
    /// creation, removing an absent file is an error, as is removing
    /// from a directory that does not exist.
    pub fn remove_file(&mut self, name: &str) -> (r: Result<(), Error>)
        requires
            old(self).wf(),
        ensures
            final(self).wf(),
            final(self).path() == old(self).path(),
            final(self).dir_exists() == old(self).dir_exists(),
            r is Ok <==> old(self).dir_exists() && old(self).has_file(name@),
            r is Ok ==> final(self).entries() == old(self).entries().remove(
                old(self).file_index(name@),
            ),
            r is Err ==> *final(self) == *old(self),
            r matches Err(e) ==> e is Filesystem,
    {
        if !self.exists {
            return Err(Error::Filesystem { path: self.path.clone() });
        }
        match self.find(name) {
            Some(i) => {
                let ghost idx = i as int;
                self.files.remove(i);
                proof {
                    assert(self.entries() =~= old(self).entries().remove(idx));
                    assert forall|i2: int, j2: int|
                        0 <= i2 < j2 < self.entries().len() implies self.entries()[i2].0
                        != self.entries()[j2].0 by {
                        let oi = if i2 < idx {
                            i2
                        } else {
                            i2 + 1
                        };
                        let oj = if j2 < idx {
                            j2
                        } else {
                            j2 + 1
                        };
                        assert(self.entries()[i2] == old(self).entries()[oi]);
                        assert(self.entries()[j2] == old(self).entries()[oj]);
                    }
                }
                Ok(())
            },
            None => Err(Error::Filesystem { path: name.to_owned() }),
        }
    }

    /// Reads the full contents of the file of the given name.
    pub fn read_file(&self, name: &str) -> (r: Result<Vec<u8>, Error>)
        requires
            self.wf(),
        ensures
            r is Ok <==> self.dir_exists() && self.has_file(name@),
            r matches Ok(b) ==> b@ == self.entries()[self.file_index(name@)].1,
            r matches Err(e) ==> e is Filesystem,
    {
        if !self.exists {
            return Err(Error::Filesystem { path: self.path.clone() });
        }
        match self.find(name) {
            Some(i) => Ok(slice_to_vec(self.files[i].bytes.as_slice())),
            None => Err(Error::Filesystem { path: name.to_owned() }),
        }
    }

    /// Lists the names of all files, in listing order.  Fails only
    /// when the directory does not exist.
    pub fn file_names(&self) -> (r: Result<Vec<String>, Error>)
        requires
            self.wf(),
        ensures
            r is Ok <==> self.dir_exists(),
            r matches Ok(v) ==> v@.len() == self.names().len() && (forall|i: int|
                0 <= i < v@.len() ==> v@[i]@ == self.names()[i]),
            r matches Err(e) ==> e is Filesystem,
    {
        if !self.exists {
            return Err(Error::Filesystem { path: self.path.clone() });
        }
        let n = self.files.len();
        let mut out: Vec<String> = Vec::new();
        let mut i: usize = 0;
        while i < n
            invariant
                n == self.entries().len(),
                i <= n,
                out@.len() == i,
                forall|j: int| 0 <= j < i ==> out@[j]@ == self.names()[j],
            decreases n - i,
        {
            out.push(self.files[i].name.clone());
            i = i + 1;
        }
        Ok(out)
    }

    /// Whether the directory exists on disk right now.
    pub fn present(&self) -> (b: bool)
        ensures
            b == self.dir_exists(),
    {
        self.exists
    }

    /// The path the directory stands at.
    pub fn path_name(&self) -> (p: &String)
        ensures
            p@ == self.path(),
    {
        &self.path
    }

    /// How many files the directory holds.
    pub fn file_count(&self) -> (n: usize)
        ensures
            n == self.entries().len(),
    {
        self.files.len()
    }

    /// The name of the file at the given listing position.
    pub fn entry_name(&self, i: usize) -> (name: &String)
        requires
            i < self.entries().len(),
        ensures
            name@ == self.entries()[i as int].0,
    {
        &self.files[i].name
    }

    /// The contents of the file at the given listing position.
    pub fn entry_bytes(&self, i: usize) -> (bytes: &Vec<u8>)
        requires
            i < self.entries().len(),
        ensures
            bytes@ == self.entries()[i as int].1,
    {
        &self.files[i].bytes
    }
}

} // verus!
