//! The object cache: a mapping from integer handle to a live engine
//! instance.
//!
//! The cache owns every open object. Insertion fails when the key is
//! already present (guarding against handle reuse), removal fails when it
//! is absent (guarding against a double close), and every read, write,
//! status or sync call looks the object up and runs against it, passing the
//! engine's answer through unchanged.

use std::collections::HashMap;

use vstd::prelude::*;

use crate::error::{Action, BackendError};
use crate::model::{read_view, spec_max_extent, write_view};
use crate::object::{BackendObject, ObjectHandle};

verus! {

broadcast use vstd::std_specs::hash::group_hash_axioms;

/// The cache of open objects, keyed by the handle's integer identity.
pub struct ObjectStore<T: BackendObject> {
    files: HashMap<i32, T>,
}

impl<T: BackendObject> View for ObjectStore<T> {
    type V = Map<i32, T>;

    closed spec fn view(&self) -> Map<i32, T> {
        self.files@
    }
}

impl<T: BackendObject> ObjectStore<T> {
    /// Every cached object is well-formed.
    pub open spec fn wf(&self) -> bool {
        forall|k: i32| #[trigger] self@.contains_key(k) ==> self@[k].wf()
    }

    /// The two maps agree everywhere but possibly at `key`, where both
    /// still hold an object with the given contents and stamp.
    pub open spec fn updated_at(
        m0: Map<i32, T>,
        m1: Map<i32, T>,
        key: i32,
        contents: Seq<u8>,
        modified: i64,
    ) -> bool {
        &&& m1.dom() == m0.dom()
        &&& forall|k: i32| #[trigger] m1.contains_key(k) && k != key ==> m1[k] == m0[k]
        &&& m1.contains_key(key) ==> m1[key].contents() == contents && m1[key].modified()
            == modified
    }

    /// A fresh, empty store.
    pub fn new() -> (r: Self)
        ensures
            r@ == Map::<i32, T>::empty(),
            r.wf(),
    {
        ObjectStore { files: HashMap::new() }
    }

    /// Whether an object is cached under `key`.
    pub fn contains(&self, key: i32) -> (r: bool)
        ensures
            r == self@.contains_key(key),
    {
        self.files.contains_key(&key)
    }

    /// Takes ownership of `file` under `key`; fails, changing nothing,
    /// when the key is already present.
    pub fn insert(&mut self, file: T, key: i32) -> (r: Result<(), BackendError>)
        requires
            old(self).wf(),
            file.wf(),
        ensures
            final(self).wf(),
            old(self)@.contains_key(key) ==> (r matches Err(e) && e.action == Action::Internal
                && final(self)@ == old(self)@),
            !old(self)@.contains_key(key) ==> (r is Ok && final(self)@ == old(self)@.insert(
                key,
                file,
            )),
    {
        if self.files.contains_key(&key) {
            return Err(
                BackendError::new_internal(
                    "cannot insert object, the store already contains a matching object",
                ),
            );
        }
        self.files.insert(key, file);
        proof {
            assert forall|k: i32| #[trigger] self@.contains_key(k) implies self@[k].wf() by {
                if k != key {
                    assert(old(self)@.contains_key(k));
                }
            }
        }
        Ok(())
    }

    /// Returns ownership of the object cached under `key`; fails, changing
    /// nothing, when the key is absent.
    pub fn remove(&mut self, key: i32) -> (r: Result<T, BackendError>)
        requires
            old(self).wf(),
        ensures
            final(self).wf(),
            old(self)@.contains_key(key) ==> (r matches Ok(f) && f == old(self)@[key] && f.wf()
                && final(self)@ == old(self)@.remove(key)),
            !old(self)@.contains_key(key) ==> (r matches Err(e) && e.action == Action::Internal
                && final(self)@ == old(self)@),
    {
        let r = self.files.remove(&key);
        proof {
            assert forall|k: i32| #[trigger] self@.contains_key(k) implies self@[k].wf() by {
                assert(old(self)@.contains_key(k));
            }
        }
        match r {
            Some(f) => Ok(f),
            None => Err(
                BackendError::new_internal(
                    "cannot remove object, the store does not contain a matching object",
                ),
            ),
        }
    }

    /// Reads from the object cached under `key`; fails when no object is
    /// cached there.
    pub fn read(&mut self, key: i32, offset: u64, length: u64) -> (r: Result<
        Vec<u8>,
        BackendError,
    >)
        requires
            old(self).wf(),
        ensures
            final(self).wf(),
            !old(self)@.contains_key(key) ==> (r matches Err(e) && e.action == Action::Internal
                && final(self)@ == old(self)@),
            old(self)@.contains_key(key) ==> (r matches Ok(bytes) && bytes@ == read_view(
                old(self)@[key].contents(),
                offset as int,
                length as int,
            ) && Self::updated_at(
                old(self)@,
                final(self)@,
                key,
                old(self)@[key].contents(),
                old(self)@[key].modified(),
            ) && final(self)@.contains_key(key)),
    {
        match self.files.remove(&key) {
            None => {
                proof {
                    assert(self@ =~= old(self)@);
                }
                Err(
                    BackendError::new_internal(
                        "the object store does not contain a matching object",
                    ),
                )
            },
            Some(mut f) => {
                proof {
                    assert(old(self)@.contains_key(key));
                    assert(f.wf());
                }
                let out = f.read(offset, length);
                self.files.insert(key, f);
                proof {
                    assert(self@.dom() =~= old(self)@.dom());
                    assert forall|k: i32| #[trigger] self@.contains_key(k) implies self@[k].wf()
                    by {
                        if k != key {
                            assert(old(self)@.contains_key(k));
                        }
                    }
                }
                out
            },
        }
    }

    /// Writes through the object cached under `key`; fails when no object
    /// is cached there, and passes the engine's answer through unchanged.
    pub fn write(&mut self, key: i32, buffer: &[u8], offset: u64, length: u64) -> (r: Result<
        u64,
        BackendError,
    >)
        requires
            old(self).wf(),
        ensures
            final(self).wf(),
            !old(self)@.contains_key(key) ==> (r matches Err(e) && e.action == Action::Internal
                && final(self)@ == old(self)@),
            old(self)@.contains_key(key) ==> {
                let before = old(self)@[key].contents();
                &&& final(self)@.contains_key(key)
                &&& length > buffer@.len() ==> (r matches Ok(n) && n == 0 && Self::updated_at(
                    old(self)@,
                    final(self)@,
                    key,
                    before,
                    old(self)@[key].modified(),
                ))
                &&& length <= buffer@.len() && offset + length <= spec_max_extent() ==> (
                r matches Ok(n) && n == length && Self::updated_at(
                    old(self)@,
                    final(self)@,
                    key,
                    write_view(before, buffer@.take(length as int), offset as int),
                    old(self)@[key].modified(),
                ))
                &&& length <= buffer@.len() && offset + length > spec_max_extent() ==> (
                r matches Err(e) && e.action == Action::Write && Self::updated_at(
                    old(self)@,
                    final(self)@,
                    key,
                    before,
                    old(self)@[key].modified(),
                ))
            },
    {
        match self.files.remove(&key) {
            None => {
                proof {
                    assert(self@ =~= old(self)@);
                }
                Err(
                    BackendError::new_internal(
                        "the object store does not contain a matching object",
                    ),
                )
            },
            Some(mut f) => {
                proof {
                    assert(old(self)@.contains_key(key));
                    assert(f.wf());
                }
                let out = f.write(buffer, offset, length);
                self.files.insert(key, f);
                proof {
                    assert(self@.dom() =~= old(self)@.dom());
                    assert forall|k: i32| #[trigger] self@.contains_key(k) implies self@[k].wf()
                    by {
                        if k != key {
                            assert(old(self)@.contains_key(k));
                        }
                    }
                }
                out
            },
        }
    }

    /// Reports the status of the object cached under `key`; fails when no
    /// object is cached there.
    pub fn status(&self, key: i32) -> (r: Result<(i64, u64), BackendError>)
        requires
            self.wf(),
        ensures
            !self@.contains_key(key) ==> (r matches Err(e) && e.action == Action::Internal),
            self@.contains_key(key) ==> (r matches Ok(st) && st.0 == self@[key].modified()
                && st.1 == self@[key].contents().len()),
    {
        match self.files.get(&key) {
            None => Err(
                BackendError::new_internal("the object store does not contain a matching object"),
            ),
            Some(f) => {
                proof {
                    assert(self@.contains_key(key));
                    assert(f.wf());
                }
                f.status()
            },
        }
    }

    /// Flushes the object cached under `key`; fails when no object is
    /// cached there.
    pub fn sync(&mut self, key: i32) -> (r: Result<(), BackendError>)
        requires
            old(self).wf(),
        ensures
            final(self).wf(),
            !old(self)@.contains_key(key) ==> (r matches Err(e) && e.action == Action::Internal
                && final(self)@ == old(self)@),
            old(self)@.contains_key(key) ==> (r is Ok && final(self)@.contains_key(key)
                && Self::updated_at(
                old(self)@,
                final(self)@,
                key,
                old(self)@[key].contents(),
                old(self)@[key].modified(),
            )),
    {
        match self.files.remove(&key) {
            None => {
                proof {
                    assert(self@ =~= old(self)@);
                }
                Err(
                    BackendError::new_internal(
                        "the object store does not contain a matching object",
                    ),
                )
            },
            Some(mut f) => {
                proof {
                    assert(old(self)@.contains_key(key));
                    assert(f.wf());
                }
                let out = f.sync();
                self.files.insert(key, f);
                proof {
                    assert(self@.dom() =~= old(self)@.dom());
                    assert forall|k: i32| #[trigger] self@.contains_key(k) implies self@[k].wf()
                    by {
                        if k != key {
                            assert(old(self)@.contains_key(k));
                        }
                    }
                }
                out
            },
        }
    }
}

/// Cache uniqueness. The store inserts exactly when the key is absent and
/// removes exactly when it is present; so, for every key: after a
/// successful insert the key is present and a second insert of it fails
/// until it is removed; in the fresh store, which holds nothing, a remove
/// fails; and after a remove the key is absent again, so an insert
/// succeeds anew.
pub proof fn lemma_cache_uniqueness<T: BackendObject>(m: Map<i32, T>, k: i32, v: T)
    ensures
        m.insert(k, v).contains_key(k),
        !Map::<i32, T>::empty().contains_key(k),
        !m.insert(k, v).remove(k).contains_key(k),
        !m.contains_key(k) ==> m.remove(k) == m,
{
    if !m.contains_key(k) {
        assert(m.remove(k) =~= m);
    }
}

/// A backend: the cache of open objects together with the namespace path
/// the backend was initialized in.
pub struct Backend<T: BackendObject> {
    pub object_store: ObjectStore<T>,
    pub namespace: String,
}

impl<T: BackendObject> Backend<T> {
    /// A backend over an empty cache, rooted at `path`.
    pub fn new(path: String) -> (r: Self)
        ensures
            r.object_store@ == Map::<i32, T>::empty(),
            r.object_store.wf(),
            r.namespace == path,
    {
        Backend { object_store: ObjectStore::new(), namespace: path }
    }

    /// Whether the cache holds an object under the handle's key.
    pub fn contains(&self, key: i32) -> (r: bool)
        ensures
            r == self.object_store@.contains_key(key),
    {
        self.object_store.contains(key)
    }

    /// Whether this backend was initialized in the expected namespace.
    pub fn check_namespace(&self, expected: &String) -> (r: bool)
        ensures
            r == (self.namespace@ == expected@),
    {
        self.namespace == *expected
    }

    /// Reads from the object the handle names.
    pub fn read(&mut self, backend_object: &ObjectHandle, offset: u64, length: u64) -> (r: Result<
        Vec<u8>,
        BackendError,
    >)
        requires
            old(self).object_store.wf(),
        ensures
            final(self).object_store.wf(),
            final(self).namespace == old(self).namespace,
            !old(self).object_store@.contains_key(backend_object.raw_fd) ==> (r matches Err(e)
                && e.action == Action::Internal && final(self).object_store@ == old(
                self,
            ).object_store@),
            old(self).object_store@.contains_key(backend_object.raw_fd) ==> (r matches Ok(bytes)
                && bytes@ == read_view(
                old(self).object_store@[backend_object.raw_fd].contents(),
                offset as int,
                length as int,
            )),
    {
        self.object_store.read(backend_object.raw_fd, offset, length)
    }

    /// Writes through the object the handle names.
    pub fn write(
        &mut self,
        backend_object: &ObjectHandle,
        buffer: &[u8],
        offset: u64,
        length: u64,
    ) -> (r: Result<u64, BackendError>)
        requires
            old(self).object_store.wf(),
        ensures
            final(self).object_store.wf(),
            final(self).namespace == old(self).namespace,
            !old(self).object_store@.contains_key(backend_object.raw_fd) ==> (r matches Err(e)
                && e.action == Action::Internal && final(self).object_store@ == old(
                self,
            ).object_store@),
            old(self).object_store@.contains_key(backend_object.raw_fd) ==> {
                let before = old(self).object_store@[backend_object.raw_fd].contents();
                &&& length > buffer@.len() ==> (r matches Ok(n) && n == 0)
                &&& length <= buffer@.len() && offset + length <= spec_max_extent() ==> (
                r matches Ok(n) && n == length && ObjectStore::<T>::updated_at(
                    old(self).object_store@,
                    final(self).object_store@,
                    backend_object.raw_fd,
                    write_view(before, buffer@.take(length as int), offset as int),
                    old(self).object_store@[backend_object.raw_fd].modified(),
                ) && final(self).object_store@.contains_key(backend_object.raw_fd))
                &&& length <= buffer@.len() && offset + length > spec_max_extent() ==> (
                r matches Err(e) && e.action == Action::Write)
            },
    {
        self.object_store.write(backend_object.raw_fd, buffer, offset, length)
    }

    /// Reports the status of the object the handle names.
    pub fn status(&self, backend_object: &ObjectHandle) -> (r: Result<(i64, u64), BackendError>)
        requires
            self.object_store.wf(),
        ensures
            !self.object_store@.contains_key(backend_object.raw_fd) ==> (r matches Err(e)
                && e.action == Action::Internal),
            self.object_store@.contains_key(backend_object.raw_fd) ==> (r matches Ok(st) && st.0
                == self.object_store@[backend_object.raw_fd].modified() && st.1
                == self.object_store@[backend_object.raw_fd].contents().len()),
    {
        self.object_store.status(backend_object.raw_fd)
    }

    /// Flushes the object the handle names.
    pub fn sync(&mut self, backend_object: &ObjectHandle) -> (r: Result<(), BackendError>)
        requires
            old(self).object_store.wf(),
        ensures
            final(self).object_store.wf(),
            final(self).namespace == old(self).namespace,
            !old(self).object_store@.contains_key(backend_object.raw_fd) ==> (r matches Err(e)
                && e.action == Action::Internal && final(self).object_store@ == old(
                self,
            ).object_store@),
            old(self).object_store@.contains_key(backend_object.raw_fd) ==> (r is Ok
                && ObjectStore::<T>::updated_at(
                old(self).object_store@,
                final(self).object_store@,
                backend_object.raw_fd,
                old(self).object_store@[backend_object.raw_fd].contents(),
                old(self).object_store@[backend_object.raw_fd].modified(),
            )),
    {
        self.object_store.sync(backend_object.raw_fd)
    }
}

} // verus!
