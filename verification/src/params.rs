//! The request descriptor that both extractors produce.

use crate::text::chars_view;
use vstd::prelude::*;

verus! {

/// The descriptor of one GraphQL operation: its name and query text, and
/// the string fields that a params block may carry beside them.
#[derive(Debug, Clone, PartialEq, Eq)]
pub struct Params {
    pub cache_id: Option<String>,
    pub id: Option<String>,
    pub name: String,
    pub operation_kind: Option<String>,
    pub text: String,
}

/// The mathematical value of a `Params`.
pub struct ParamsView {
    pub cache_id: Option<Seq<char>>,
    pub id: Option<Seq<char>>,
    pub name: Seq<char>,
    pub operation_kind: Option<Seq<char>>,
    pub text: Seq<char>,
}

impl View for Params {
    type V = ParamsView;

    open spec fn view(&self) -> ParamsView {
        ParamsView {
            cache_id: chars_view(self.cache_id),
            id: chars_view(self.id),
            name: self.name@,
            operation_kind: chars_view(self.operation_kind),
            text: self.text@,
        }
    }
}

/// The mathematical value of an optional descriptor.
pub open spec fn params_view(p: Option<Params>) -> Option<ParamsView> {
    match p {
        Some(p) => Some(p@),
        None => None,
    }
}

/// The descriptor that holds a name and a text and nothing else.
pub open spec fn bare(name: Seq<char>, text: Seq<char>) -> ParamsView {
    ParamsView { cache_id: None, id: None, name, operation_kind: None, text }
}

/// What an extractor reports for one file: a descriptor, none, or a failure.
pub open spec fn outcome_view(r: Result<Option<Params>, crate::error::Error>) -> Result<
    Option<ParamsView>,
    crate::error::Error,
> {
    match r {
        Ok(p) => Ok(params_view(p)),
        Err(e) => Err(e),
    }
}

} // verus!
