//! One unit of work: the descriptor of one file, extracted by the strategy
//! that was selected, and signed.

use crate::config::Strategy;
use crate::error::Error;
use crate::params::{Params, ParamsView};
use crate::signer::{digest, hex_digest, SigningKey, HMAC_MAX_INPUT};
use crate::structural::{
    enters, extracted_swc, get_params_swc, lemma_collected_without_params, PropertyView,
};
use crate::syntax::key_value_props;
use crate::text::occurs_at;
use crate::textual::{extracted, get_params, marker};
use vstd::prelude::*;
use vstd::string::StringSliceAdditionalSpecFns;

verus! {

/// One entry of the signature map: the name of an operation and the digest
/// of its query text, in lowercase hexadecimal.
#[derive(Debug, Clone, PartialEq, Eq)]
pub struct SignatureEntry {
    pub name: String,
    pub digest: String,
}

impl View for SignatureEntry {
    type V = (Seq<char>, Seq<char>);

    open spec fn view(&self) -> (Seq<char>, Seq<char>) {
        (self.name@, self.digest@)
    }
}

/// The mathematical value of what a unit of work emits.
pub open spec fn emitted_view(r: Result<Option<SignatureEntry>, Error>) -> Result<
    Option<(Seq<char>, Seq<char>)>,
    Error,
> {
    match r {
        Ok(Some(entry)) => Ok(Some(entry@)),
        Ok(None) => Ok(None),
        Err(e) => Err(e),
    }
}

/// What the extractor that `strategy` selects reports for a file that holds
/// `contents`.
pub open spec fn extraction(strategy: Strategy, contents: Seq<char>) -> Result<
    Option<ParamsView>,
    Error,
> {
    match strategy {
        Strategy::Manual => extracted(contents),
        Strategy::Swc => extracted_swc(contents),
    }
}

/// What a unit of work emits for what the extractor reported: a failure
/// goes through; no descriptor gives no entry; a descriptor gives its name
/// with the digest of its text under `key`, unless the text is longer than
/// the digest accepts.
pub open spec fn signed(extraction: Result<Option<ParamsView>, Error>, key: Seq<u8>) -> Result<
    Option<(Seq<char>, Seq<char>)>,
    Error,
> {
    match extraction {
        Err(e) => Err(e),
        Ok(None) => Ok(None),
        Ok(Some(params)) => if vstd::utf8::encode_utf8(params.text).len() > HMAC_MAX_INPUT {
            Err(Error::InputTooLong)
        } else {
            Ok(Some((params.name, digest(key, params.text))))
        },
    }
}

/// A file that holds neither the marker nor a params object yields no
/// descriptor, whichever extractor reads it, and so no entry. The
/// structural extractor reads the file's key-value properties `props`, for
/// which the file has to parse.
pub proof fn lemma_nothing_to_extract(
    contents: Seq<char>,
    props: Seq<PropertyView>,
    strategy: Strategy,
    key: Seq<u8>,
)
    requires
        forall|at: int| !occurs_at(contents, at, marker()),
        strategy == Strategy::Swc ==> key_value_props(contents) == Some(props),
        forall|i: int| 0 <= i < props.len() ==> !enters(props[i]),
    ensures
        extraction(strategy, contents) == Ok::<Option<ParamsView>, Error>(None),
        signed(extraction(strategy, contents), key) == Ok::<Option<(Seq<char>, Seq<char>)>, Error>(
            None,
        ),
{
    lemma_collected_without_params(props);
}

/// What a unit of work emits is decided by the file, the strategy and the
/// key alone: the same contents under the same key give the same entry.
pub proof fn lemma_unit_deterministic(
    strategy: Strategy,
    contents_a: Seq<char>,
    key_a: Seq<u8>,
    contents_b: Seq<char>,
    key_b: Seq<u8>,
)
    requires
        contents_a == contents_b,
        key_a == key_b,
    ensures
        signed(extraction(strategy, contents_a), key_a) == signed(
            extraction(strategy, contents_b),
            key_b,
        ),
{
}

/// Signs what an extractor reported for one file.
pub fn sign_params(extraction: Result<Option<Params>, Error>, key: &SigningKey) -> (r: Result<
    Option<SignatureEntry>,
    Error,
>)
    ensures
        emitted_view(r) == signed(crate::params::outcome_view(extraction), key@),
{
    let params = match extraction {
        Ok(Some(params)) => params,
        Ok(None) => {
            return Ok(None);
        },
        Err(e) => {
            return Err(e);
        },
    };
    if params.text.as_str().as_bytes().len() as u64 > HMAC_MAX_INPUT {
        return Err(Error::InputTooLong);
    }
    let digest = hex_digest(key, params.text.as_str());
    Ok(Some(SignatureEntry { name: params.name, digest }))
}

/// One unit of work: extracts the descriptor of a file that holds
/// `contents` by the selected strategy and signs its text.
pub fn compute_digest(contents: &str, key: &SigningKey, strategy: Strategy) -> (r: Result<
    Option<SignatureEntry>,
    Error,
>)
    ensures
        emitted_view(r) == signed(extraction(strategy, contents@), key@),
{
    let params = match strategy {
        Strategy::Swc => get_params_swc(contents),
        Strategy::Manual => get_params(contents),
    };
    sign_params(params, key)
}

} // verus!
