//! Perfect hash functions over sets of byte-string keys.

use vstd::prelude::*;
use vstd::std_specs::cmp::PartialEqSpecImpl;

verus! {

/// `ph::fmph::Function`: a fingerprint-based minimal perfect hash function. Nothing
/// inside it is seen here.
#[verifier::external_type_specification]
#[verifier::external_body]
#[verifier::reject_recursive_types(S)]
pub struct ExFunction<S>(ph::fmph::Function<S>);

/// `ph::seedable_hash::BuildWyHash`: the family of hash functions that a
/// `ph::fmph::Function` uses unless it is given another.
#[verifier::external_type_specification]
#[verifier::external_body]
pub struct ExBuildWyHash(ph::seedable_hash::BuildWyHash);

/// Why a key set could not answer.
#[derive(Clone, Copy, Debug, PartialEq, Eq, Structural)]
pub enum NippyJarError {
    /// The index of a key was asked for before any keys were added.
    PHFMissingKeys,
    /// No function could be built for the keys, as happens when a key occurs twice.
    PHFBuildFailed,
}

/// A set of keys that gives each of its keys an index.
pub trait KeySet {
    /// Add key to the list.
    fn add_keys(&mut self, keys: &[&[u8]]) -> Result<(), NippyJarError>;

    /// Get key index.
    fn get_index(&self, key: &[u8]) -> Result<Option<u64>, NippyJarError>;
}

/// Builds a fingerprint-based minimal perfect hash function for `keys` with
/// `ph::fmph::Function::try_with_conf_stats`, in the default configuration. Nothing is
/// claimed of the result: the construction gives `None` when it fails, which is how it
/// ends for keys it cannot tell apart.
#[verifier::external_body]
fn build_function(keys: &[&[u8]]) -> (function: Option<ph::fmph::Function>) {
    ph::fmph::Function::try_with_conf_stats(
        ph::fmph::keyset::SliceSourceWithRefs::<_, u8>::new(keys),
        ph::fmph::BuildConf::default(),
        &mut (),
    )
}

/// Looks `key` up with `ph::fmph::Function::get`. Nothing is claimed of the result:
/// for a key that was not among those the function was built for, it is `None` or the
/// index of some other key.
#[verifier::external_body]
fn function_index(function: &ph::fmph::Function, key: &[u8]) -> (index: Option<u64>) {
    function.get(key)
}

/// The sizes of the levels of `function`, from `ph::fmph::Function::level_sizes`.
#[verifier::external_body]
fn function_level_sizes(function: &ph::fmph::Function) -> (sizes: Vec<u64>) {
    function.level_sizes().to_vec()
}

/// The number of bytes that `function` is written in, from
/// `ph::fmph::Function::write_bytes`.
#[verifier::external_body]
fn function_write_bytes(function: &ph::fmph::Function) -> (len: usize) {
    function.write_bytes()
}

/// The bytes that `ph::fmph::Function::write` writes for `function`, or `None` when
/// writing fails.
#[verifier::external_body]
fn function_bytes(function: &ph::fmph::Function) -> (bytes: Option<Vec<u8>>) {
    let mut bytes = Vec::new();
    function.write(&mut bytes).ok().map(|_| bytes)
}

/// Whether two lists hold the same numbers in the same order.
pub fn same_numbers(a: &Vec<u64>, b: &Vec<u64>) -> (same: bool)
    ensures
        same == (a@ == b@),
{
    if a.len() != b.len() {
        return false;
    }
    let mut i: usize = 0;
    while i < a.len()
        invariant
            a@.len() == b@.len(),
            i <= a@.len(),
            a@.take(i as int) == b@.take(i as int),
        decreases a@.len() - i,
    {
        if a[i] != b[i] {
            return false;
        }
        assert(a@.take(i + 1) =~= a@.take(i as int).push(a@[i as int]));
        assert(b@.take(i + 1) =~= b@.take(i as int).push(b@[i as int]));
        i = i + 1;
    }
    assert(a@ =~= a@.take(a@.len() as int));
    assert(b@ =~= b@.take(b@.len() as int));
    true
}

/// Whether two byte strings are the same.
pub fn same_bytes(a: &Vec<u8>, b: &Vec<u8>) -> (same: bool)
    ensures
        same == (a@ == b@),
{
    if a.len() != b.len() {
        return false;
    }
    let mut i: usize = 0;
    while i < a.len()
        invariant
            a@.len() == b@.len(),
            i <= a@.len(),
            a@.take(i as int) == b@.take(i as int),
        decreases a@.len() - i,
    {
        if a[i] != b[i] {
            return false;
        }
        assert(a@.take(i + 1) =~= a@.take(i as int).push(a@[i as int]));
        assert(b@.take(i + 1) =~= b@.take(i as int).push(b@[i as int]));
        i = i + 1;
    }
    assert(a@ =~= a@.take(a@.len() as int));
    assert(b@ =~= b@.take(b@.len() as int));
    true
}

/// Whether two functions are written alike, told by what was read off them: the sizes
/// of their levels, the number of bytes they are written in, and the bytes themselves.
/// A function that could not be written is like no other.
pub fn written_alike(
    sizes: &Vec<u64>,
    len: usize,
    bytes: &Option<Vec<u8>>,
    other_sizes: &Vec<u64>,
    other_len: usize,
    other_bytes: &Option<Vec<u8>>,
) -> (alike: bool)
    ensures
        alike == (sizes@ == other_sizes@ && len == other_len && match (bytes, other_bytes) {
            (Some(b), Some(o)) => b@ == o@,
            _ => false,
        }),
{
    if !same_numbers(sizes, other_sizes) {
        return false;
    }
    if len != other_len {
        return false;
    }
    match (bytes, other_bytes) {
        (Some(b), Some(o)) => same_bytes(b, o),
        _ => false,
    }
}

/// A key set backed by a fingerprint-based minimal perfect hash function.
pub struct Fmph {
    function: Option<ph::fmph::Function>,
}

/// The kinds of perfect hash function that a file can carry.
#[derive(PartialEq)]
pub enum Functions {
    Fmph(Fmph),
    Unused,
}

impl Fmph {
    /// Whether keys have been added.
    pub closed spec fn has_keys(&self) -> bool {
        self.function is Some
    }

    /// A key set without keys.
    pub fn new() -> (set: Self)
        ensures
            !set.has_keys(),
    {
        Fmph { function: None }
    }

    /// Whether both sets are without keys, or both have a function and the two are
    /// written alike. A set with keys never equals one without.
    pub fn same(&self, other: &Self) -> (same: bool)
        ensures
            !self.has_keys() && !other.has_keys() ==> same,
            self.has_keys() != other.has_keys() ==> !same,
    {
        match (&self.function, &other.function) {
            (Some(one), Some(two)) => written_alike(
                &function_level_sizes(one),
                function_write_bytes(one),
                &function_bytes(one),
                &function_level_sizes(two),
                function_write_bytes(two),
                &function_bytes(two),
            ),
            (None, None) => true,
            _ => false,
        }
    }

    /// The bytes that stand for this set: none for a set without keys, else those of
    /// its function. `None` when the function cannot be written.
    pub fn to_bytes(&self) -> (bytes: Option<Vec<u8>>)
        ensures
            !self.has_keys() ==> (bytes matches Some(b) && b@.len() == 0),
    {
        match &self.function {
            Some(function) => function_bytes(function),
            None => Some(Vec::new()),
        }
    }
}

impl KeySet for Fmph {
    /// Replaces the keys of the set by `keys`. Fails, and leaves the set as it was,
    /// when no function can be built for them.
    fn add_keys(&mut self, keys: &[&[u8]]) -> (r: Result<(), NippyJarError>)
        ensures
            r is Ok ==> final(self).has_keys(),
            r is Err ==> r == Err::<(), _>(NippyJarError::PHFBuildFailed) && *final(self) == *old(
                self,
            ),
    {
        match build_function(keys) {
            Some(function) => {
                self.function = Some(function);
                Ok(())
            },
            None => Err(NippyJarError::PHFBuildFailed),
        }
    }

    /// The index of `key`. Fails on a set that no keys were added to.
    fn get_index(&self, key: &[u8]) -> (r: Result<Option<u64>, NippyJarError>)
        ensures
            self.has_keys() ==> r is Ok,
            !self.has_keys() ==> r == Err::<Option<u64>, _>(NippyJarError::PHFMissingKeys),
    {
        match &self.function {
            Some(function) => Ok(function_index(function, key)),
            None => Err(NippyJarError::PHFMissingKeys),
        }
    }
}

impl PartialEq for Fmph {
    /// Whether both sets are without keys, or both have a function and the two are
    /// written alike.
    fn eq(&self, other: &Self) -> (same: bool) {
        self.same(other)
    }
}

impl PartialEqSpecImpl for Fmph {
    /// What `==` gives for two sets with keys is told by their functions, of which
    /// nothing is seen here.
    open spec fn obeys_eq_spec() -> bool {
        false
    }

    open spec fn eq_spec(&self, other: &Self) -> bool {
        !self.has_keys() && !other.has_keys()
    }
}

impl Default for Fmph {
    fn default() -> (set: Self)
        ensures
            !set.has_keys(),
    {
        Fmph::new()
    }
}

} // verus!
