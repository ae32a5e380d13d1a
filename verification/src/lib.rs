//! A streaming event pipeline over the textual progress output of a build
//! tool: each line is classified into a typed event, events are confirmed
//! with a one-line lookahead delay, carried through a bounded FIFO queue,
//! and drained by a single worker that drives a store-replication backend,
//! so that artifacts the build fetches or produces are mirrored to a
//! destination cache.  Any read, resolution or backend failure is fatal to
//! the whole run; nothing is retried or skipped.

use vstd::prelude::*;

pub mod bootstrap;
pub mod nix;
pub mod parser;
pub mod queue;
pub mod worker;

verus! {

/// Whether two pieces of text hold the same characters.
pub fn str_eq(a: &str, b: &str) -> (r: bool)
    ensures
        r == (a@ == b@),
{
    let na = a.unicode_len();
    let nb = b.unicode_len();
    if na != nb {
        return false;
    }
    let mut i: usize = 0;
    while i < na
        invariant
            na == a@.len(),
            nb == b@.len(),
            na == nb,
            0 <= i <= na,
            forall|k: int| 0 <= k < i ==> a@[k] == b@[k],
        decreases na - i,
    {
        if a.get_char(i) != b.get_char(i) {
            assert(a@[i as int] != b@[i as int]);
            return false;
        }
        i += 1;
    }
    proof {
        assert(a@ =~= b@);
    }
    true
}

/// An identifier for a content-addressed build artifact in the store.
///
/// Equality and ordering are by the underlying text only; the value carries
/// no behaviour beyond its identity.
#[derive(Debug, PartialEq, Clone)]
pub struct StorePath {
    text: String,
}

impl View for StorePath {
    type V = Seq<char>;

    closed spec fn view(&self) -> Seq<char> {
        self.text@
    }
}

impl StorePath {
    /// Validated constructor: a store path is never empty.
    pub fn new(text: String) -> (r: Self)
        requires
            text@.len() > 0,
        ensures
            r@ == text@,
    {
        StorePath { text }
    }

    pub fn as_str(&self) -> (r: &str)
        ensures
            r@ == self@,
    {
        self.text.as_str()
    }

    /// Unvalidated constructor for text captured out of a classified line.
    pub(crate) fn from_text(text: String) -> (r: Self)
        ensures
            r@ == text@,
    {
        StorePath { text }
    }
}

impl From<String> for StorePath {
    fn from(text: String) -> (r: Self) {
        StorePath { text }
    }
}

impl vstd::std_specs::convert::FromSpecImpl<String> for StorePath {
    open spec fn obeys_from_spec() -> bool {
        true
    }

    closed spec fn from_spec(text: String) -> Self {
        StorePath { text }
    }
}

/// A build description identifier whose resolution yields named output
/// store paths.
#[derive(Debug, PartialEq, Clone)]
pub struct DrvFile {
    text: String,
}

impl View for DrvFile {
    type V = Seq<char>;

    closed spec fn view(&self) -> Seq<char> {
        self.text@
    }
}

impl DrvFile {
    /// Validated constructor: a derivation file name is never empty.
    pub fn new(text: String) -> (r: Self)
        requires
            text@.len() > 0,
        ensures
            r@ == text@,
    {
        DrvFile { text }
    }

    pub fn as_str(&self) -> (r: &str)
        ensures
            r@ == self@,
    {
        self.text.as_str()
    }

    /// Unvalidated constructor for text captured out of a classified line.
    pub(crate) fn from_text(text: String) -> (r: Self)
        ensures
            r@ == text@,
    {
        DrvFile { text }
    }
}

impl From<String> for DrvFile {
    fn from(text: String) -> (r: Self) {
        DrvFile { text }
    }
}

impl vstd::std_specs::convert::FromSpecImpl<String> for DrvFile {
    open spec fn obeys_from_spec() -> bool {
        true
    }

    closed spec fn from_spec(text: String) -> Self {
        DrvFile { text }
    }
}

/// A named destination or source for replicated store paths.
#[derive(Debug, PartialEq, Clone)]
pub struct BinaryCache {
    text: String,
}

impl View for BinaryCache {
    type V = Seq<char>;

    closed spec fn view(&self) -> Seq<char> {
        self.text@
    }
}

impl BinaryCache {
    /// Validated constructor: a binary cache reference is never empty.
    pub fn new(text: String) -> (r: Self)
        requires
            text@.len() > 0,
        ensures
            r@ == text@,
    {
        BinaryCache { text }
    }

    pub fn as_str(&self) -> (r: &str)
        ensures
            r@ == self@,
    {
        self.text.as_str()
    }

    /// Whether this cache reference names the given destination.
    pub fn matches(&self, other: &String) -> (r: bool)
        ensures
            r == (self@ == other@),
    {
        self.text == *other
    }

    /// Unvalidated constructor for text captured out of a classified line.
    pub(crate) fn from_text(text: String) -> (r: Self)
        ensures
            r@ == text@,
    {
        BinaryCache { text }
    }
}

impl From<String> for BinaryCache {
    fn from(text: String) -> (r: Self) {
        BinaryCache { text }
    }
}

impl vstd::std_specs::convert::FromSpecImpl<String> for BinaryCache {
    open spec fn obeys_from_spec() -> bool {
        true
    }

    closed spec fn from_spec(text: String) -> Self {
        BinaryCache { text }
    }
}

/// The error type of the pipeline: every failure is fatal to the run and
/// carries a human-readable description.
#[derive(Debug)]
pub struct Error {
    message: String,
}

impl View for Error {
    type V = Seq<char>;

    closed spec fn view(&self) -> Seq<char> {
        self.message@
    }
}

impl Error {
    pub fn new(message: &str) -> (r: Self)
        ensures
            r@ == message@,
    {
        Error { message: message.to_owned() }
    }

    pub fn message(&self) -> (r: &str)
        ensures
            r@ == self@,
    {
        self.message.as_str()
    }
}

} // verus!
