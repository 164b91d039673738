//! The parse of a generated file and the walk of its syntax tree, as far as
//! the structural extractor reads them: the key-value properties of the
//! file's object literals. Parser and visitor are swc's.

use crate::structural::{props_view, PropValue, Property, PropertyView};
use swc_common::sync::Lrc;
use swc_common::{FileName, SourceMap};
use swc_ecma_ast::{Expr, Lit, PropName};
use swc_ecma_parser::lexer::Lexer;
use swc_ecma_parser::{Parser, StringInput, Syntax, TsSyntax};
use swc_ecma_visit::{Visit, VisitWith};
use vstd::prelude::*;

verus! {

/// A key-value property of swc's syntax tree.
#[verifier::external_type_specification]
#[verifier::external_body]
pub struct ExKeyValueProp(swc_ecma_ast::KeyValueProp);

/// The key-value properties that a walk has met.
struct Walker {
    props: Vec<Property>,
}

impl Visit for Walker {
    /// What swc's visitor calls for each key-value property, parents before
    /// their children and siblings in source order. The property is kept
    /// with its key, where that is a string literal, as the source wrote
    /// it, and with the kind of its value; then the walk goes on below it.
    #[verifier::external_body]
    fn visit_key_value_prop(&mut self, n: &swc_ecma_ast::KeyValueProp) {
        let key = match &n.key {
            PropName::Str(s) => s.raw.as_ref().map(|raw| raw.to_string()),
            _ => None,
        };
        let value = match &*n.value {
            Expr::Lit(Lit::Str(s)) => PropValue::Text(s.value.to_string_lossy().into_owned()),
            Expr::Object(_) => PropValue::Object,
            _ => PropValue::Other,
        };
        self.props.push(Property { key, value });
        n.visit_children_with(self);
    }
}

/// The key-value properties of the TypeScript module that swc parses
/// `contents` as, in the order of a depth-first walk of its syntax tree; or
/// nothing where swc does not parse `contents`.
pub uninterp spec fn key_value_props(contents: Seq<char>) -> Option<Seq<PropertyView>>;

/// `swc_ecma_parser::Parser::parse_typescript_module` on `contents`, read as
/// TypeScript without JSX and without early errors, and swc's visitor over
/// the module it gives: the key-value properties in the order in which the
/// visitor meets them, or nothing where the parser fails. The contract names
/// the outcome `key_value_props` and says no more of it.
#[verifier::external_body]
pub(crate) fn parse_props(contents: &str) -> (r: Option<Vec<Property>>)
    ensures
        match r {
            Some(props) => key_value_props(contents@) == Some(props_view(props@)),
            None => key_value_props(contents@) is None,
        },
{
    let cm: Lrc<SourceMap> = Default::default();
    let fm = cm.new_source_file(FileName::Anon.into(), contents.to_string());
    let syntax = Syntax::Typescript(TsSyntax { no_early_errors: true, ..Default::default() });
    let lexer = Lexer::new(syntax, Default::default(), StringInput::from(&*fm), None);
    let module = Parser::new_from(lexer).parse_typescript_module().ok()?;
    let mut walker = Walker { props: Vec::new() };
    module.visit_with(&mut walker);
    Some(walker.props)
}

} // verus!
