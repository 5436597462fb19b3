//! The traits that records and payloads implement, and what holds of every
//! record that is built from attributes.

use crate::attr::{attr_stream, lemma_stream_concat, parse_attributes, views, AttrView, Nlattr};
use crate::error::DecodeError;
use crate::schema::{first_error, lemma_unlisted_tag_causes_no_error, rule, Table};
use vstd::prelude::*;

verus! {

/// `built` is the outcome `expected`: the same error, or a record that is
/// `expected` field for field.
pub open spec fn agrees<T: View>(
    built: Result<T, DecodeError>,
    expected: Result<T::V, DecodeError>,
) -> bool {
    match expected {
        Ok(record) => built matches Ok(b) && b@ == record,
        Err(e) => built matches Err(b) && b == e,
    }
}

/// The outcome of a build: the error, where an attribute causes one, or
/// else the record. There is no partial result.
pub open spec fn outcome<V>(error: Option<DecodeError>, record: V) -> Result<V, DecodeError> {
    match error {
        Some(e) => Err(e),
        None => Ok(record),
    }
}

/// Construct object by parsing netlink messages attributes returned by a nl80211 command
pub trait FromNlAttributeHandle: Sized + View {
    /// The table of the tags that a message of this record may hold.
    spec fn table() -> Table;

    /// The record that the attributes of a message stand for, where none of
    /// them causes an error.
    spec fn fields(attrs: Seq<AttrView>) -> Self::V;

    /// Build the record from the attributes of a message, read in order.
    /// The error of the first attribute that causes one is returned alone.
    fn from_handle(handle: &[Nlattr]) -> (r: Result<Self, DecodeError>)
        ensures
            agrees(
                r,
                outcome(
                    first_error(Self::table(), views(handle@)),
                    Self::fields(views(handle@)),
                ),
            ),
    ;

    /// An attribute whose tag the table does not list says nothing of the
    /// record: the others stand for the same record with or without it.
    proof fn lemma_unlisted_tag_says_nothing(attrs: Seq<AttrView>, i: int)
        requires
            0 <= i < attrs.len(),
            rule(Self::table(), attrs[i].nla_type) is Ignore,
        ensures
            Self::fields(attrs.remove(i)) == Self::fields(attrs),
    ;
}

/// Decode netlink payloads (Vec\<u8\>) to appropriate types
pub trait NlPayloadDecode: Sized {
    fn decode(&mut self) -> Self;
}

/// The outcome of building a record from the attributes of a message: the
/// error of the first attribute that causes one, or else the record.
pub open spec fn decoded<T: FromNlAttributeHandle>(attrs: Seq<AttrView>) -> Result<
    T::V,
    DecodeError,
> {
    outcome(first_error(T::table(), attrs), T::fields(attrs))
}

/// The outcome of building a record from the bytes of a message: the error
/// of splitting them into attributes, or else the outcome for the
/// attributes.
pub open spec fn decoded_buffer<T: FromNlAttributeHandle>(buf: Seq<u8>) -> Result<
    T::V,
    DecodeError,
> {
    match attr_stream(buf) {
        Ok(attrs) => decoded::<T>(attrs),
        Err(e) => Err(e),
    }
}

/// Build a record from the bytes of a message: split them into attributes
/// and read these in order.
pub fn from_buffer<T: FromNlAttributeHandle>(buf: &[u8]) -> (r: Result<T, DecodeError>)
    ensures
        agrees(r, decoded_buffer::<T>(buf@)),
{
    let handle = parse_attributes(buf)?;
    T::from_handle(handle.as_slice())
}

/// Decoding is a function of the bytes: whatever two calls of `from_buffer`
/// return for the same buffer is the same error, or two records that are
/// equal field for field.
pub proof fn lemma_same_buffer_same_record<T: FromNlAttributeHandle>(
    buf: Seq<u8>,
    first: Result<T, DecodeError>,
    second: Result<T, DecodeError>,
)
    requires
        agrees(first, decoded_buffer::<T>(buf)),
        agrees(second, decoded_buffer::<T>(buf)),
    ensures
        match first {
            Ok(a) => second matches Ok(b) && a@ == b@,
            Err(a) => second matches Err(b) && a == b,
        },
{
}

/// Building is a function of the attributes: whatever two calls of
/// `from_handle` return for the same attributes is the same error, or two
/// records that are equal field for field.
pub proof fn lemma_same_attributes_same_record<T: FromNlAttributeHandle>(
    attrs: Seq<AttrView>,
    first: Result<T, DecodeError>,
    second: Result<T, DecodeError>,
)
    requires
        agrees(first, decoded::<T>(attrs)),
        agrees(second, decoded::<T>(attrs)),
    ensures
        match first {
            Ok(a) => second matches Ok(b) && a@ == b@,
            Err(a) => second matches Err(b) && a == b,
        },
{
}

/// An attribute whose tag the table of the record does not list never
/// stops the decoding of the others, nor changes what they decode to: with
/// or without it the outcome is the same.
pub proof fn lemma_unlisted_tag_changes_nothing<T: FromNlAttributeHandle>(
    attrs: Seq<AttrView>,
    i: int,
)
    requires
        0 <= i < attrs.len(),
        rule(T::table(), attrs[i].nla_type) is Ignore,
    ensures
        decoded::<T>(attrs.remove(i)) == decoded::<T>(attrs),
{
    lemma_unlisted_tag_causes_no_error(T::table(), attrs, i);
    T::lemma_unlisted_tag_says_nothing(attrs, i);
}

/// The same of the bytes of a message: where one attribute with an unlisted
/// tag stands between two runs of bytes, the buffer decodes as the two runs
/// do without it. The attribute and what stands before it are whole and
/// padded.
pub proof fn lemma_unlisted_attribute_changes_nothing<T: FromNlAttributeHandle>(
    before: Seq<u8>,
    unlisted: Seq<u8>,
    after: Seq<u8>,
)
    requires
        before.len() % 4 == 0,
        unlisted.len() % 4 == 0,
        attr_stream(before) is Ok,
        attr_stream(unlisted) matches Ok(one) && one.len() == 1 && rule(
            T::table(),
            one[0].nla_type,
        ) is Ignore,
    ensures
        decoded_buffer::<T>(before + unlisted + after) == decoded_buffer::<T>(before + after),
{
    let head = attr_stream(before)->Ok_0;
    let one = attr_stream(unlisted)->Ok_0;
    lemma_stream_concat(unlisted, after);
    lemma_stream_concat(before, unlisted + after);
    lemma_stream_concat(before, after);
    assert(before + unlisted + after =~= before + (unlisted + after));
    if attr_stream(after) is Ok {
        let tail = attr_stream(after)->Ok_0;
        let with = head + (one + tail);
        let i = head.len() as int;
        assert(with[i] == one[0]);
        assert(with.remove(i) =~= head + tail);
        lemma_unlisted_tag_changes_nothing::<T>(with, i);
    }
}

} // verus!
