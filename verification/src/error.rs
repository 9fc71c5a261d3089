//! The envelope in which a failure is reported: the canonical name of its
//! kind and a message.

use crate::kind::{lemma_canonical_name_nonempty, reveal_canonical_names, BucketsMdapiErrorType};
use crate::wire::{
    decode, encode, escape, fields_of, is_record, lemma_escape_plain, lemma_fields_of_record,
    quote, record,
};
use vstd::prelude::*;

verus! {

/// A reported failure, in the shape in which it is sent.
#[derive(Debug)]
pub struct BucketsMdapiError {
    pub error: BucketsMdapiInnerError,
}

/// The two strings of a reported failure.
#[derive(Debug)]
pub struct BucketsMdapiInnerError {
    pub name: String,
    pub message: String,
}

/// What an envelope holds, as two sequences of characters.
pub struct ErrorView {
    pub name: Seq<char>,
    pub message: Seq<char>,
}

/// Why a text was not read as an envelope.
#[derive(Clone, Copy, Debug, PartialEq, Eq, Structural)]
pub enum DeserializeError {
    /// The text is not a record.
    Malformed,
    /// The text is a record, but no kind goes by its name.
    UnknownName,
}

impl View for BucketsMdapiInnerError {
    type V = ErrorView;

    open spec fn view(&self) -> ErrorView {
        ErrorView { name: self.name@, message: self.message@ }
    }
}

impl View for BucketsMdapiError {
    type V = ErrorView;

    open spec fn view(&self) -> ErrorView {
        self.error@
    }
}

impl ErrorView {
    /// The envelope of a kind with its default message.
    pub open spec fn new(kind: BucketsMdapiErrorType) -> ErrorView {
        ErrorView::with_message(kind, kind.default_message())
    }

    /// The envelope of a kind with a message of the caller's.
    pub open spec fn with_message(kind: BucketsMdapiErrorType, message: Seq<char>) -> ErrorView {
        ErrorView { name: kind.canonical_name(), message }
    }

    /// Whether the name is the canonical name of a kind.
    pub open spec fn wf(self) -> bool {
        exists|kind: BucketsMdapiErrorType| #[trigger] kind.canonical_name() == self.name
    }

    /// The text that describes the failure to a reader.
    pub open spec fn description(self) -> Seq<char> {
        self.message
    }

    /// The envelope rendered as text.
    pub open spec fn rendered(self) -> Seq<char> {
        self.message
    }

    /// The failure that lies behind this one: there is never one.
    pub open spec fn source(self) -> Option<ErrorView> {
        None
    }

    /// The record that carries the envelope.
    pub open spec fn serialize(self) -> Seq<char> {
        record(self.name, self.message)
    }

    /// The envelope that `text` carries: the fields of the record, where
    /// `text` is one and a kind goes by its name.
    pub open spec fn deserialize(text: Seq<char>) -> Result<ErrorView, DeserializeError> {
        let read = ErrorView { name: fields_of(text).0, message: fields_of(text).1 };
        if !is_record(text) {
            Err(DeserializeError::Malformed)
        } else if !read.wf() {
            Err(DeserializeError::UnknownName)
        } else {
            Ok(read)
        }
    }
}

impl BucketsMdapiError {
    /// Whether the name is the canonical name of a kind, as it is in every
    /// envelope that this library makes.
    pub open spec fn wf(&self) -> bool {
        self@.wf()
    }

    /// Makes the envelope of `error` with its default message.
    pub fn new(error: BucketsMdapiErrorType) -> (made: Self)
        ensures
            made@ == ErrorView::new(error),
            made.wf(),
    {
        Self::with_message(error, error.message())
    }

    /// Makes the envelope of `error` with `msg` in place of the default
    /// message. Any string is taken, the empty one too.
    pub fn with_message(error: BucketsMdapiErrorType, msg: String) -> (made: Self)
        ensures
            made@ == ErrorView::with_message(error, msg@),
            made.error.message == msg,
            made.wf(),
    {
        let inner = BucketsMdapiInnerError { name: error.to_string(), message: msg };
        Self { error: inner }
    }

    /// The message of the envelope.
    pub fn description(&self) -> (text: &str)
        ensures
            text@ == self@.description(),
    {
        self.error.message.as_str()
    }

    /// The envelope rendered as text: the message, without the name.
    pub fn to_string(&self) -> (text: String)
        ensures
            text@ == self@.rendered(),
    {
        self.error.message.clone()
    }

    /// The failure that lies behind this one: there is never one.
    pub fn source(&self) -> (cause: Option<&BucketsMdapiError>)
        ensures
            cause is None,
            self@.source() is None,
    {
        None
    }

    /// Writes the envelope as a record.
    pub fn serialize(&self) -> (text: String)
        ensures
            text@ == self@.serialize(),
    {
        encode(self.error.name.as_str(), self.error.message.as_str())
    }

    /// Reads an envelope from a record. A text that is no record, whether a
    /// field is missing, added or out of place, is refused, and so is a
    /// record whose name is not the canonical name of a kind.
    pub fn deserialize(text: &str) -> (read: Result<Self, DeserializeError>)
        ensures
            match read {
                Ok(e) => ErrorView::deserialize(text@) == Ok::<ErrorView, DeserializeError>(e@)
                    && e.wf(),
                Err(why) => ErrorView::deserialize(text@) == Err::<ErrorView, DeserializeError>(
                    why,
                ),
            },
    {
        match decode(text) {
            None => Err(DeserializeError::Malformed),
            Some((name, message)) => {
                match BucketsMdapiErrorType::from_name(name.as_str()) {
                    None => Err(DeserializeError::UnknownName),
                    Some(_) => Ok(BucketsMdapiError { error: BucketsMdapiInnerError { name, message } }),
                }
            },
        }
    }
}

impl PartialEq for BucketsMdapiInnerError {
    fn eq(&self, other: &Self) -> (same: bool) {
        self.name == other.name && self.message == other.message
    }
}

impl vstd::std_specs::cmp::PartialEqSpecImpl for BucketsMdapiInnerError {
    open spec fn obeys_eq_spec() -> bool {
        true
    }

    open spec fn eq_spec(&self, other: &Self) -> bool {
        self.name@ == other.name@ && self.message@ == other.message@
    }
}

impl PartialEq for BucketsMdapiError {
    fn eq(&self, other: &Self) -> (same: bool) {
        self.error == other.error
    }
}

impl vstd::std_specs::cmp::PartialEqSpecImpl for BucketsMdapiError {
    open spec fn obeys_eq_spec() -> bool {
        true
    }

    open spec fn eq_spec(&self, other: &Self) -> bool {
        self.error.name@ == other.error.name@ && self.error.message@ == other.error.message@
    }
}

/// An envelope made of a kind alone is described by the default message of
/// the kind.
pub proof fn lemma_new_description(kind: BucketsMdapiErrorType)
    ensures
        ErrorView::new(kind).description() == kind.default_message(),
{
}

/// An envelope made with a message is described by that message, whatever
/// the kind and whatever the message, the empty one too.
pub proof fn lemma_with_message_description(kind: BucketsMdapiErrorType, message: Seq<char>)
    ensures
        ErrorView::with_message(kind, message).description() == message,
{
}

/// The record of an envelope made with a message carries the canonical
/// name of the kind, whatever the message: the name is the one that is read
/// out of the record, and it stands in the text as it is, between quotes.
pub proof fn lemma_serialized_name(kind: BucketsMdapiErrorType, message: Seq<char>)
    ensures
        is_record(ErrorView::with_message(kind, message).serialize()),
        fields_of(ErrorView::with_message(kind, message).serialize()).0 == kind.canonical_name(),
        ErrorView::with_message(kind, message).serialize() == "{\"error\":{\"name\":\""@
            + kind.canonical_name() + "\",\"message\":"@ + quote(message) + "}}"@,
{
    lemma_fields_of_record(kind.canonical_name(), message);
    lemma_kind_texts_plain(kind);
    reveal_strlit("{\"error\":{\"name\":");
    reveal_strlit("{\"error\":{\"name\":\"");
    reveal_strlit(",\"message\":");
    reveal_strlit("\",\"message\":");
    assert(ErrorView::with_message(kind, message).serialize() =~= "{\"error\":{\"name\":\""@
        + kind.canonical_name() + "\",\"message\":"@ + quote(message) + "}}"@);
}

/// The canonical name and the default message of a kind hold no character
/// that a record escapes: both stand in it as they are.
pub proof fn lemma_kind_texts_plain(kind: BucketsMdapiErrorType)
    ensures
        escape(kind.canonical_name()) == kind.canonical_name(),
        escape(kind.default_message()) == kind.default_message(),
{
    reveal_canonical_names();
    reveal_strlit("requested bucket already exists");
    reveal_strlit("requested bucket not found");
    reveal_strlit("requested object not found");
    reveal_strlit("postgres encountered an error");
    reveal_strlit("a limit constraint was violated");
    reveal_strlit("precondition failed");
    lemma_escape_plain(kind.canonical_name());
    lemma_escape_plain(kind.default_message());
}

/// Reading the record of an envelope gives the envelope back, for every
/// envelope whose name is that of a kind.
pub proof fn lemma_deserialize_serialize(e: ErrorView)
    requires
        e.wf(),
    ensures
        ErrorView::deserialize(e.serialize()) == Ok::<ErrorView, DeserializeError>(e),
{
    lemma_fields_of_record(e.name, e.message);
}

/// An envelope renders as its description.
pub proof fn lemma_rendered_is_description(e: ErrorView)
    ensures
        e.rendered() == e.description(),
{
}

/// No envelope has a failure behind it, however it was made or read.
pub proof fn lemma_no_source(e: ErrorView)
    ensures
        e.source() is None,
{
}

/// Every envelope made of a kind has the name of a kind, and that name is
/// not empty.
pub proof fn lemma_made_is_wf(kind: BucketsMdapiErrorType, message: Seq<char>)
    ensures
        ErrorView::new(kind).wf(),
        ErrorView::with_message(kind, message).wf(),
        ErrorView::with_message(kind, message).name.len() > 0,
{
    lemma_canonical_name_nonempty(kind);
    assert(kind.canonical_name() == ErrorView::with_message(kind, message).name);
    assert(kind.canonical_name() == ErrorView::new(kind).name);
}

} // verus!
