//! Iteration over object names with literal prefix filtering.
//!
//! The layer above enumerates a namespace directory and hands the byte
//! names to an iterator; the iterator walks them in order and yields each
//! name that starts with the caller-supplied prefix (or every name, when
//! no prefix was given). Only the filtering walk lives here; reading the
//! directory does not.

use vstd::prelude::*;

use crate::model::read_view;
use crate::region::copy_window;

verus! {

/// Whether `p` is a prefix of `s`.
pub open spec fn is_prefix(p: Seq<u8>, s: Seq<u8>) -> bool {
    p.len() <= s.len() && s.take(p.len() as int) == p
}

/// Whether a name passes the filter: with no prefix every name does; with
/// one, exactly the names it is a prefix of.
pub open spec fn name_matches(name: Seq<u8>, prefix: Option<Vec<u8>>) -> bool {
    match prefix {
        Option::None => true,
        Option::Some(p) => is_prefix(p@, name),
    }
}

/// The index of the first name at or after `from` that passes the filter,
/// or a negative number when none is left.
pub open spec fn next_match(names: Seq<Vec<u8>>, prefix: Option<Vec<u8>>, from: int) -> int
    decreases names.len() - from,
    when 0 <= from <= names.len()
{
    if from >= names.len() {
        -1
    } else if name_matches(names[from]@, prefix) {
        from
    } else {
        next_match(names, prefix, from + 1)
    }
}

/// Whether `prefix` starts `name`.
pub fn has_prefix(name: &Vec<u8>, prefix: &Vec<u8>) -> (r: bool)
    ensures
        r == is_prefix(prefix@, name@),
{
    if prefix.len() > name.len() {
        return false;
    }
    let mut i: usize = 0;
    while i < prefix.len()
        invariant
            i <= prefix@.len() <= name@.len(),
            forall|j: int| 0 <= j < i ==> name@[j] == prefix@[j],
        decreases prefix@.len() - i,
    {
        if name[i] != prefix[i] {
            assert(name@.take(prefix@.len() as int)[i as int] != prefix@[i as int]);
            return false;
        }
        i = i + 1;
    }
    assert(name@.take(prefix@.len() as int) =~= prefix@);
    true
}

/// Whether a name passes the iterator's filter.
pub fn matches_name(name: &Vec<u8>, prefix: &Option<Vec<u8>>) -> (r: bool)
    ensures
        r == name_matches(name@, *prefix),
{
    match prefix {
        Option::None => true,
        Option::Some(p) => has_prefix(name, p),
    }
}

/// An iterator over the names of a namespace, filtered by an optional
/// literal prefix.
pub struct BackendIterator {
    pub names: Vec<Vec<u8>>,
    pub cursor: usize,
    pub prefix: Option<Vec<u8>>,
}

impl BackendIterator {
    /// The cursor never leaves the name list.
    pub open spec fn wf(&self) -> bool {
        self.cursor <= self.names@.len()
    }

    /// An iterator at the start of `names`.
    pub fn new(names: Vec<Vec<u8>>, prefix: Option<Vec<u8>>) -> (r: Self)
        ensures
            r.wf(),
            r.names == names,
            r.cursor == 0,
            r.prefix == prefix,
    {
        BackendIterator { names, cursor: 0, prefix }
    }

    /// Yields the next name passing the filter, advancing the cursor past
    /// it; when none is left, parks the cursor at the end and yields
    /// nothing.
    pub fn next_name(&mut self) -> (r: Option<Vec<u8>>)
        requires
            old(self).wf(),
        ensures
            final(self).wf(),
            final(self).names == old(self).names,
            final(self).prefix == old(self).prefix,
            ({
                let nm = next_match(old(self).names@, old(self).prefix, old(self).cursor as int);
                if nm < 0 {
                    r is None && final(self).cursor == old(self).names@.len()
                } else {
                    r matches Some(name) && name@ == old(self).names@[nm]@ && final(self).cursor
                        == nm + 1
                }
            }),
    {
        while self.cursor < self.names.len()
            invariant
                self.wf(),
                self.names == old(self).names,
                self.prefix == old(self).prefix,
                old(self).cursor <= self.cursor,
                next_match(self.names@, self.prefix, old(self).cursor as int) == next_match(
                    self.names@,
                    self.prefix,
                    self.cursor as int,
                ),
            decreases self.names@.len() - self.cursor,
        {
            let matching = matches_name(&self.names[self.cursor], &self.prefix);
            if matching {
                let n = &self.names[self.cursor];
                let out = copy_window(n, 0, n.len() as u64);
                assert(out@ =~= n@);
                self.cursor = self.cursor + 1;
                return Some(out);
            }
            self.cursor = self.cursor + 1;
        }
        None
    }
}

} // verus!
