//! Small containers used by the records and by the query layer.

use vstd::prelude::*;
use crate::crypto::{Address, Digest};

verus! {

/// A list of election addresses together with the commitment to its own history.
#[derive(Debug)]
pub struct VecI64 {
    pub _0: Vec<i64>,
    pub history_len: u64,
    pub history_hash: Digest,
}

/// The mathematical content of a [`VecI64`].
pub struct VecI64View {
    pub content: Seq<i64>,
    pub history_len: u64,
    pub history_hash: Digest,
}

impl View for VecI64 {
    type V = VecI64View;

    open spec fn view(&self) -> VecI64View {
        VecI64View {
            content: self._0@,
            history_len: self.history_len,
            history_hash: self.history_hash,
        }
    }
}

impl VecI64 {
    /// Wraps a copy of `content` with the given history commitment.
    pub fn new(content: &Vec<i64>, history_len: u64, history: &Digest) -> (list: VecI64)
        ensures
            list@ == (VecI64View { content: content@, history_len, history_hash: *history }),
    {
        VecI64 { _0: content.clone(), history_len, history_hash: *history }
    }

    /// A copy of the list with `item` added at its end and a new history commitment.
    pub fn append(&self, item: i64, history_len: u64, history: &Digest) -> (list: VecI64)
        ensures
            list@ == (VecI64View {
                content: self@.content.push(item),
                history_len,
                history_hash: *history,
            }),
    {
        let mut content = self._0.clone();
        content.push(item);
        VecI64::new(&content, history_len, history)
    }

    /// Gives up the wrapper and returns the list itself.
    pub fn into_vec(self) -> (content: Vec<i64>)
        ensures
            content@ == self@.content,
    {
        self._0
    }
}

/// An optional value in the shape in which records carry it.
#[derive(Clone, Copy, Debug)]
pub struct OptionalContainer<T>(pub Option<T>);

/// An optional author key.
pub type OptionalPubKeyWrap = OptionalContainer<Address>;

impl<T> OptionalContainer<T> {
    /// Wraps an optional value.
    pub fn new(value: Option<T>) -> (wrapped: OptionalContainer<T>)
        ensures
            wrapped.0 == value,
    {
        OptionalContainer(value)
    }

    /// The container without a value.
    pub fn none() -> (wrapped: OptionalContainer<T>)
        ensures
            wrapped.0 is None,
    {
        OptionalContainer(None)
    }

    /// Borrows the optional value.
    pub fn as_ref(&self) -> (value: &Option<T>)
        ensures
            *value == self.0,
    {
        &self.0
    }

    /// Gives up the container and returns the optional value.
    pub fn into_option(self) -> (value: Option<T>)
        ensures
            value == self.0,
    {
        self.0
    }
}

impl<T> Default for OptionalContainer<T> {
    /// The container without a value.
    fn default() -> (wrapped: OptionalContainer<T>)
        ensures
            wrapped.0 is None,
    {
        OptionalContainer(None)
    }
}

impl OptionalContainer<Digest> {
    /// What a present, all-zero digest and an absent one have in common on the
    /// wire: both stand for "no value".
    pub open spec fn spec_decoded(field: Option<Digest>) -> Option<Digest> {
        match field {
            Some(value) => if value == Digest::spec_zero() {
                None
            } else {
                Some(value)
            },
            None => None,
        }
    }

    /// The digest that stands for this value on the wire: the value itself, or
    /// the all-zero digest where there is none.
    pub fn encoded(&self) -> (field: Digest)
        ensures
            field == match self.0 {
                Some(value) => value,
                None => Digest::spec_zero(),
            },
    {
        match self.0 {
            Some(value) => value,
            None => Digest::zero(),
        }
    }

    /// Reads a wire field back: an absent field and the all-zero digest both
    /// give the empty container.
    pub fn decoded(field: Option<Digest>) -> (wrapped: OptionalContainer<Digest>)
        ensures
            wrapped.0 == Self::spec_decoded(field),
    {
        match field {
            Some(value) => {
                if value.is_zero() {
                    OptionalContainer(None)
                } else {
                    OptionalContainer(Some(value))
                }
            },
            None => OptionalContainer(None),
        }
    }
}

/// How a table turns a key into the path that its proofs speak of.
#[derive(Clone, Copy, Debug, PartialEq, Eq, Structural)]
pub enum KeyMode {
    /// The key is used as it is.
    Raw,
    /// The key is hashed first.
    Hashed,
}

/// A marker type that names a [`KeyMode`].
pub trait TypeWrapper {
    /// The mode that the marker stands for.
    spec fn mode() -> KeyMode;

    /// The mode that the marker stands for.
    fn key_mode() -> (mode: KeyMode)
        ensures
            mode == Self::mode(),
    ;
}

/// Marks tables whose keys are used as they are.
#[derive(Clone, Copy, Debug)]
pub struct RawKeyModeWrapper;

/// Marks tables whose keys are hashed before they are looked up.
#[derive(Clone, Copy, Debug)]
pub struct HashedKeyModeWrapper;

impl TypeWrapper for RawKeyModeWrapper {
    open spec fn mode() -> KeyMode {
        KeyMode::Raw
    }

    fn key_mode() -> (mode: KeyMode) {
        KeyMode::Raw
    }
}

impl TypeWrapper for HashedKeyModeWrapper {
    open spec fn mode() -> KeyMode {
        KeyMode::Hashed
    }

    fn key_mode() -> (mode: KeyMode) {
        KeyMode::Hashed
    }
}

} // verus!
