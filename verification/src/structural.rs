//! The structural extractor: a state machine over the key-value properties
//! of a parsed file, in the order in which a depth-first walk of the syntax
//! tree meets them. The parse and the walk themselves are in `syntax`.

use crate::error::Error;
use crate::params::{bare, outcome_view, Params, ParamsView};
use crate::syntax::{key_value_props, parse_props};
use crate::text::{chars_view, same};
use vstd::prelude::*;

verus! {

/// The value of a key-value property, as far as the extraction reads it.
#[derive(Debug, Clone, PartialEq, Eq)]
pub enum PropValue {
    /// A plain string literal, with its value.
    Text(String),
    /// An object literal.
    Object,
    /// Any other expression.
    Other,
}

/// The mathematical value of a `PropValue`.
pub enum PropValueView {
    Text(Seq<char>),
    Object,
    Other,
}

impl View for PropValue {
    type V = PropValueView;

    open spec fn view(&self) -> PropValueView {
        match self {
            PropValue::Text(s) => PropValueView::Text(s@),
            PropValue::Object => PropValueView::Object,
            PropValue::Other => PropValueView::Other,
        }
    }
}

/// One key-value property of an object literal. `key` is the source text of
/// the key, quotes included, where the key is a string literal.
#[derive(Debug, Clone, PartialEq, Eq)]
pub struct Property {
    pub key: Option<String>,
    pub value: PropValue,
}

/// The mathematical value of a `Property`.
pub struct PropertyView {
    pub key: Option<Seq<char>>,
    pub value: PropValueView,
}

impl View for Property {
    type V = PropertyView;

    open spec fn view(&self) -> PropertyView {
        PropertyView { key: chars_view(self.key), value: self.value@ }
    }
}

/// The views of `props`, in order.
pub open spec fn props_view(props: Seq<Property>) -> Seq<PropertyView> {
    Seq::new(props.len(), |i: int| props[i]@)
}

/// The property opens the params object.
pub open spec fn enters(n: PropertyView) -> bool {
    n.key == Some("\"params\""@) && n.value is Object
}

/// The property gives the operation's name.
pub open spec fn gives_name(n: PropertyView) -> bool {
    n.key == Some("\"name\""@) && n.value is Text
}

/// The property gives the query text.
pub open spec fn gives_text(n: PropertyView) -> bool {
    n.key == Some("\"text\""@) && n.value is Text
}

/// Where the walk stands.
#[allow(inconsistent_fields)]
#[derive(Debug, Clone, PartialEq, Eq)]
pub enum Collector {
    /// No params object has been met.
    NotInParams,
    /// A params object has been met, and what has been recorded since.
    InParams { name: Option<String>, text: Option<String> },
    /// Name and text have both been recorded; nothing further is read.
    Done { name: String, text: String },
}

/// The mathematical value of a `Collector`.
#[allow(inconsistent_fields)]
pub enum CollectorView {
    NotInParams,
    InParams { name: Option<Seq<char>>, text: Option<Seq<char>> },
    Done { name: Seq<char>, text: Seq<char> },
}

impl View for Collector {
    type V = CollectorView;

    open spec fn view(&self) -> CollectorView {
        match self {
            Collector::NotInParams => CollectorView::NotInParams,
            Collector::InParams { name, text } => CollectorView::InParams {
                name: chars_view(*name),
                text: chars_view(*text),
            },
            Collector::Done { name, text } => CollectorView::Done { name: name@, text: text@ },
        }
    }
}

/// The state in which name and text are recorded as far as given: done once
/// both are.
pub open spec fn recorded(name: Option<Seq<char>>, text: Option<Seq<char>>) -> CollectorView {
    match (name, text) {
        (Some(name), Some(text)) => CollectorView::Done { name, text },
        _ => CollectorView::InParams { name, text },
    }
}

/// The state after property `n` is met in state `c`. Outside the params
/// object only a property that opens it counts. Inside, the first string
/// under `"name"` and the first under `"text"` are recorded. Once both are,
/// nothing changes any more.
pub open spec fn step(c: CollectorView, n: PropertyView) -> CollectorView {
    match c {
        CollectorView::NotInParams => if enters(n) {
            CollectorView::InParams { name: None, text: None }
        } else {
            c
        },
        CollectorView::InParams { name, text } => if gives_name(n) && name is None {
            recorded(Some(n.value->Text_0), text)
        } else if gives_text(n) && text is None {
            recorded(name, Some(n.value->Text_0))
        } else {
            c
        },
        CollectorView::Done { .. } => c,
    }
}

/// The state after the properties `props` are met one after the other,
/// starting in state `c`.
pub open spec fn walk(c: CollectorView, props: Seq<PropertyView>) -> CollectorView
    decreases props.len(),
{
    if props.len() == 0 {
        c
    } else {
        step(walk(c, props.drop_last()), props.last())
    }
}

/// The descriptor that a walk which ended in state `c` reports.
pub open spec fn found(c: CollectorView) -> Option<ParamsView> {
    match c {
        CollectorView::Done { name, text } => Some(bare(name, text)),
        _ => None,
    }
}

/// What the structural extractor reports for a file whose key-value
/// properties are `props`.
pub open spec fn collected(props: Seq<PropertyView>) -> Option<ParamsView> {
    found(walk(CollectorView::NotInParams, props))
}

/// Once done, a walk stays where it is.
pub proof fn lemma_done_stays(c: CollectorView, props: Seq<PropertyView>)
    requires
        c is Done,
    ensures
        walk(c, props) == c,
    decreases props.len(),
{
    if props.len() > 0 {
        lemma_done_stays(c, props.drop_last());
    }
}

/// A walk may be cut in two.
pub proof fn lemma_walk_split(c: CollectorView, props: Seq<PropertyView>, at: int)
    requires
        0 <= at <= props.len(),
    ensures
        walk(c, props) == walk(walk(c, props.take(at)), props.skip(at)),
    decreases props.len(),
{
    if at == props.len() {
        assert(props.take(at) =~= props);
        assert(props.skip(at) =~= Seq::<PropertyView>::empty());
    } else {
        lemma_walk_split(c, props.drop_last(), at);
        assert(props.drop_last().take(at) =~= props.take(at));
        assert(props.drop_last().skip(at) =~= props.skip(at).drop_last());
    }
}

/// The first position of `props` at or after `from` whose property is of
/// kind `f`, or the length of `props` where there is none.
pub open spec fn first_from(
    props: Seq<PropertyView>,
    from: int,
    f: spec_fn(PropertyView) -> bool,
) -> int
    decreases props.len() - from,
{
    if from >= props.len() {
        props.len() as int
    } else if f(props[from]) {
        from
    } else {
        first_from(props, from + 1, f)
    }
}

/// What `first_from` finds is the first of its kind.
pub proof fn lemma_first_from(
    props: Seq<PropertyView>,
    from: int,
    f: spec_fn(PropertyView) -> bool,
)
    requires
        0 <= from <= props.len(),
    ensures
        from <= first_from(props, from, f) <= props.len(),
        first_from(props, from, f) < props.len() ==> f(props[first_from(props, from, f)]),
        forall|i: int| from <= i < first_from(props, from, f) ==> !f(props[i]),
    decreases props.len() - from,
{
    if from < props.len() && !f(props[from]) {
        lemma_first_from(props, from + 1, f);
    }
}

/// The descriptor that the properties `props` hold, said without the
/// walk: the first string under `"name"` and the first under `"text"` that
/// come after the first property that opens a params object; none where
/// one of the three is missing.
pub open spec fn described(props: Seq<PropertyView>) -> Option<ParamsView> {
    let p = first_from(props, 0, |n: PropertyView| enters(n));
    let i = first_from(props, p + 1, |n: PropertyView| gives_name(n));
    let j = first_from(props, p + 1, |n: PropertyView| gives_text(n));
    if i < props.len() && j < props.len() {
        Some(bare(props[i].value->Text_0, props[j].value->Text_0))
    } else {
        None
    }
}

/// The state of a walk after the first `k` of `props`, said without the
/// walk.
pub open spec fn state_after(props: Seq<PropertyView>, k: int) -> CollectorView {
    let p = first_from(props, 0, |n: PropertyView| enters(n));
    let i = first_from(props, p + 1, |n: PropertyView| gives_name(n));
    let j = first_from(props, p + 1, |n: PropertyView| gives_text(n));
    if k <= p {
        CollectorView::NotInParams
    } else {
        recorded(
            if i < k {
                Some(props[i].value->Text_0)
            } else {
                None
            },
            if j < k {
                Some(props[j].value->Text_0)
            } else {
                None
            },
        )
    }
}

/// After the first `k` properties the walk stands where `state_after` says.
pub proof fn lemma_walk_prefix(props: Seq<PropertyView>, k: int)
    requires
        0 <= k <= props.len(),
    ensures
        walk(CollectorView::NotInParams, props.take(k)) == state_after(props, k),
    decreases k,
{
    let enter = |n: PropertyView| enters(n);
    let name = |n: PropertyView| gives_name(n);
    let text = |n: PropertyView| gives_text(n);
    let p = first_from(props, 0, enter);
    lemma_first_from(props, 0, enter);
    if k == 0 {
        assert(props.take(0) =~= Seq::<PropertyView>::empty());
    } else {
        lemma_walk_prefix(props, k - 1);
        assert(props.take(k).drop_last() =~= props.take(k - 1));
        assert(props.take(k).last() == props[k - 1]);
        if p < props.len() {
            lemma_first_from(props, p + 1, name);
            lemma_first_from(props, p + 1, text);
            reveal_strlit("\"name\"");
            reveal_strlit("\"text\"");
            assert("\"name\""@[1] != "\"text\""@[1]);
        }
    }
}

/// The walk finds what `described` says: the extractor reports the first
/// name and the first text after the first params object.
pub proof fn lemma_collected_described(props: Seq<PropertyView>)
    ensures
        collected(props) == described(props),
{
    lemma_walk_prefix(props, props.len() as int);
    assert(props.take(props.len() as int) =~= props);
    let p = first_from(props, 0, |n: PropertyView| enters(n));
    lemma_first_from(props, 0, |n: PropertyView| enters(n));
    if p < props.len() {
        lemma_first_from(props, p + 1, |n: PropertyView| gives_name(n));
        lemma_first_from(props, p + 1, |n: PropertyView| gives_text(n));
    }
}

/// Without a property that opens a params object the extractor reports no
/// descriptor.
pub proof fn lemma_collected_without_params(props: Seq<PropertyView>)
    requires
        forall|i: int| 0 <= i < props.len() ==> !enters(props[i]),
    ensures
        collected(props) is None,
{
    lemma_collected_described(props);
    lemma_first_from(props, 0, |n: PropertyView| enters(n));
}

impl Collector {
    /// The state before anything is met.
    pub fn new() -> (c: Collector)
        ensures
            c@ == CollectorView::NotInParams,
    {
        Collector::NotInParams
    }

    /// Whether name and text have both been recorded, so that the rest of
    /// the tree need not be walked.
    pub fn is_done(&self) -> (b: bool)
        ensures
            b == (self@ is Done),
    {
        match self {
            Collector::Done { .. } => true,
            _ => false,
        }
    }

    /// Meets one key-value property.
    pub fn visit_key_value_prop(&mut self, n: &Property)
        ensures
            final(self)@ == step(old(self)@, n@),
    {
        let key = match &n.key {
            Some(key) => key,
            None => {
                return ;
            },
        };
        proof {
            reveal_strlit("\"name\"");
            reveal_strlit("\"text\"");
            assert("\"name\""@[1] != "\"text\""@[1]);
        }
        let next = match &*self {
            Collector::NotInParams => match &n.value {
                PropValue::Object => if same(key.as_str(), "\"params\"") {
                    Some(Collector::InParams { name: None, text: None })
                } else {
                    None
                },
                _ => None,
            },
            Collector::InParams { name, text } => match &n.value {
                PropValue::Text(value) => if name.is_none() && same(key.as_str(), "\"name\"") {
                    Some(Self::record(Some(value.clone()), text.clone()))
                } else if text.is_none() && same(key.as_str(), "\"text\"") {
                    Some(Self::record(name.clone(), Some(value.clone())))
                } else {
                    None
                },
                _ => None,
            },
            Collector::Done { .. } => None,
        };
        if let Some(next) = next {
            *self = next;
        }
    }

    /// The state in which `name` and `text` are recorded as far as given.
    fn record(name: Option<String>, text: Option<String>) -> (c: Collector)
        ensures
            c@ == recorded(chars_view(name), chars_view(text)),
    {
        match (name, text) {
            (Some(name), Some(text)) => Collector::Done { name, text },
            (name, text) => Collector::InParams { name, text },
        }
    }

    /// The descriptor that the walk reports: name and text where both were
    /// recorded, none otherwise.
    pub fn finish(self) -> (r: Option<Params>)
        ensures
            crate::params::params_view(r) == found(self@),
    {
        match self {
            Collector::Done { name, text } => Some(
                Params { cache_id: None, id: None, name, operation_kind: None, text },
            ),
            _ => None,
        }
    }
}

/// The descriptor that the key-value properties of a parsed file hold,
/// which are taken in the order of a depth-first walk of the file's syntax
/// tree. The walk ends as soon as name and text are recorded.
pub fn collect_params(props: &Vec<Property>) -> (r: Option<Params>)
    ensures
        crate::params::params_view(r) == collected(props_view(props@)),
{
    let ghost all = props_view(props@);
    let mut visitor = Collector::new();
    let mut i: usize = 0;
    assert(all.take(0) =~= Seq::<PropertyView>::empty());
    while i < props.len() && !visitor.is_done()
        invariant
            i <= props.len(),
            all == props_view(props@),
            visitor@ == walk(CollectorView::NotInParams, all.take(i as int)),
        decreases props.len() - i,
    {
        visitor.visit_key_value_prop(&props[i]);
        assert(all.take(i + 1).drop_last() =~= all.take(i as int));
        i += 1;
    }
    proof {
        lemma_walk_split(CollectorView::NotInParams, all, i as int);
        if visitor@ is Done {
            lemma_done_stays(visitor@, all.skip(i as int));
        } else {
            assert(all.take(i as int) =~= all);
            assert(all.skip(i as int) =~= Seq::<PropertyView>::empty());
        }
    }
    visitor.finish()
}

/// What the structural extractor reports for a file that holds `contents`:
/// a failure where the file does not parse, else what its key-value
/// properties hold.
pub open spec fn extracted_swc(contents: Seq<char>) -> Result<Option<ParamsView>, Error> {
    match key_value_props(contents) {
        None => Err(Error::Syntax),
        Some(props) => Ok(collected(props)),
    }
}

/// The structural extractor: parses a generated file and walks its syntax
/// tree for the descriptor.
pub fn get_params_swc(contents: &str) -> (r: Result<Option<Params>, Error>)
    ensures
        outcome_view(r) == extracted_swc(contents@),
{
    match parse_props(contents) {
        Some(props) => Ok(collect_params(&props)),
        None => Err(Error::Syntax),
    }
}

} // verus!
