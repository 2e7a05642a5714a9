//! Entries of the versioned key/value store: a text key and a byte value,
//! addressed by the digest of the key.
use vstd::prelude::*;
use vstd::string::StringExecFns;

use crate::hash::string_hash;

verus! {

/// One stored value under its key.
pub struct Global {
    key: String,
    value: Vec<u8>,
}

impl Global {
    pub closed spec fn spec_key(&self) -> Seq<char> {
        self.key@
    }

    pub closed spec fn spec_value(&self) -> Seq<u8> {
        self.value@
    }

    /// An entry for `key` holding `value`.
    pub fn from(key: &str, value: &[u8]) -> (r: Global)
        ensures
            r.spec_key() == key@,
            r.spec_value() == value@,
    {
        let mut v: Vec<u8> = Vec::new();
        crate::messages::append_bytes(&mut v, value);
        assert(v@ =~= value@);
        Global { key: String::from_str(key), value: v }
    }

    /// The address of the entry: the digest of its key.
    pub fn hash(&self) -> (r: crate::Hash)
        ensures
            r@ == string_hash(self.spec_key()),
    {
        crate::hash::string(self.key.as_str())
    }

    /// The key and the value.
    pub fn pair(&self) -> (r: (String, Vec<u8>))
        ensures
            r.0@ == self.spec_key(),
            r.1@ == self.spec_value(),
    {
        let mut v: Vec<u8> = Vec::new();
        crate::messages::append_bytes(&mut v, self.value.as_slice());
        assert(v@ =~= self.value@);
        (self.key.clone(), v)
    }
}

} // verus!
