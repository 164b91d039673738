//! The aggregator: the signature map, which holds one digest for each name
//! and keeps its entries in the order of their names, and the collecting of
//! the results of all units of work into it.

use crate::error::Error;
use crate::json::{json_pretty, render_object};
use crate::order::{lemma_precedes_irreflexive, lemma_precedes_transitive, precedes, rank, Rank};
use crate::work::{emitted_view, SignatureEntry};
use vstd::prelude::*;

verus! {

/// The views of `entries`, in order.
pub open spec fn pairs_of(entries: Seq<SignatureEntry>) -> Seq<(Seq<char>, Seq<char>)> {
    Seq::new(entries.len(), |i: int| entries[i]@)
}

/// The names of `pairs` ascend strictly.
pub open spec fn ascending(pairs: Seq<(Seq<char>, Seq<char>)>) -> bool {
    forall|i: int, j: int| 0 <= i < j < pairs.len() ==> precedes(pairs[i].0, pairs[j].0)
}

/// `pairs` holds an entry for `name`.
pub open spec fn has(pairs: Seq<(Seq<char>, Seq<char>)>, name: Seq<char>) -> bool {
    exists|i: int| 0 <= i < pairs.len() && pairs[i].0 == name
}

/// A position at which `pairs` holds an entry for `name`.
pub open spec fn index_of(pairs: Seq<(Seq<char>, Seq<char>)>, name: Seq<char>) -> int {
    choose|i: int| 0 <= i < pairs.len() && pairs[i].0 == name
}

/// The map from each name of `pairs` to the digest that stands with it.
pub open spec fn as_map(pairs: Seq<(Seq<char>, Seq<char>)>) -> Map<Seq<char>, Seq<char>> {
    Map::new(|name: Seq<char>| has(pairs, name), |name: Seq<char>| pairs[index_of(pairs, name)].1)
}

/// In an ascending sequence each name stands once, and the map gives each
/// name the digest that stands with it.
pub proof fn lemma_ascending_map(pairs: Seq<(Seq<char>, Seq<char>)>, i: int)
    requires
        ascending(pairs),
        0 <= i < pairs.len(),
    ensures
        has(pairs, pairs[i].0),
        index_of(pairs, pairs[i].0) == i,
        as_map(pairs).contains_key(pairs[i].0),
        as_map(pairs)[pairs[i].0] == pairs[i].1,
        forall|j: int| 0 <= j < pairs.len() && j != i ==> pairs[j].0 != pairs[i].0,
{
    lemma_precedes_irreflexive(pairs[i].0);
}

/// An entry put into an ascending sequence at the place that its name asks
/// for leaves the sequence ascending, and adds the entry to the map.
pub proof fn lemma_insert_between(
    pairs: Seq<(Seq<char>, Seq<char>)>,
    at: int,
    entry: (Seq<char>, Seq<char>),
)
    requires
        ascending(pairs),
        0 <= at <= pairs.len(),
        forall|j: int| 0 <= j < at ==> precedes(pairs[j].0, entry.0),
        forall|j: int| at <= j < pairs.len() ==> precedes(entry.0, pairs[j].0),
    ensures
        ascending(pairs.insert(at, entry)),
        as_map(pairs.insert(at, entry)) == as_map(pairs).insert(entry.0, entry.1),
{
    let wider = pairs.insert(at, entry);
    assert forall|name: Seq<char>| has(wider, name) <==> (name == entry.0 || has(pairs, name)) by {
        if has(wider, name) {
            let i = index_of(wider, name);
            if i < at {
                assert(pairs[i].0 == name);
            } else if i > at {
                assert(pairs[i - 1].0 == name);
            }
        }
        if name == entry.0 {
            assert(wider[at].0 == name);
        }
        if has(pairs, name) {
            let i = index_of(pairs, name);
            if i < at {
                assert(wider[i].0 == name);
            } else {
                assert(wider[i + 1].0 == name);
            }
        }
    }
    assert forall|name: Seq<char>| has(wider, name) implies #[trigger] as_map(wider)[name]
        == as_map(pairs).insert(entry.0, entry.1)[name] by {
        let i = index_of(wider, name);
        lemma_ascending_map(wider, i);
        if i < at {
            lemma_ascending_map(pairs, i);
            lemma_precedes_irreflexive(name);
        } else if i > at {
            lemma_ascending_map(pairs, i - 1);
            lemma_precedes_irreflexive(name);
        }
    }
    assert(as_map(wider) =~= as_map(pairs).insert(entry.0, entry.1));
}

/// A new digest for a name that an ascending sequence holds leaves the
/// sequence ascending, and gives the name that digest in the map.
pub proof fn lemma_replace_digest(pairs: Seq<(Seq<char>, Seq<char>)>, at: int, digest: Seq<char>)
    requires
        ascending(pairs),
        0 <= at < pairs.len(),
    ensures
        ascending(pairs.update(at, (pairs[at].0, digest))),
        as_map(pairs.update(at, (pairs[at].0, digest))) == as_map(pairs).insert(
            pairs[at].0,
            digest,
        ),
{
    let entry = (pairs[at].0, digest);
    let other = pairs.update(at, entry);
    assert forall|i: int, j: int| 0 <= i < j < other.len() implies precedes(
        other[i].0,
        other[j].0,
    ) by {
        assert(other[i].0 == pairs[i].0);
        assert(other[j].0 == pairs[j].0);
    }
    assert forall|name: Seq<char>| has(other, name) <==> (name == entry.0 || has(pairs, name)) by {
        if has(other, name) {
            let i = index_of(other, name);
            assert(pairs[i].0 == name);
        }
        if name == entry.0 {
            assert(other[at].0 == name);
        }
        if has(pairs, name) {
            let i = index_of(pairs, name);
            assert(other[i].0 == name);
        }
    }
    assert forall|name: Seq<char>| has(other, name) implies #[trigger] as_map(other)[name]
        == as_map(pairs).insert(entry.0, entry.1)[name] by {
        let i = index_of(other, name);
        lemma_ascending_map(other, i);
        lemma_ascending_map(pairs, i);
    }
    assert(as_map(other) =~= as_map(pairs).insert(entry.0, entry.1));
}

/// The signature map: for each name one digest, the entries kept in the
/// order of their names.
pub struct SignatureMap {
    entries: Vec<SignatureEntry>,
}

impl View for SignatureMap {
    type V = Map<Seq<char>, Seq<char>>;

    open spec fn view(&self) -> Map<Seq<char>, Seq<char>> {
        as_map(self.listing())
    }
}

impl SignatureMap {
    #[verifier::type_invariant]
    spec fn sorted(self) -> bool {
        ascending(pairs_of(self.entries@))
    }

    /// The entries, name and digest, in the order in which the map keeps
    /// and serializes them.
    pub closed spec fn listing(&self) -> Seq<(Seq<char>, Seq<char>)> {
        pairs_of(self.entries@)
    }

    /// The map without entries.
    pub fn new() -> (m: SignatureMap)
        ensures
            m.listing() == Seq::<(Seq<char>, Seq<char>)>::empty(),
            m@ == Map::<Seq<char>, Seq<char>>::empty(),
    {
        let m = SignatureMap { entries: Vec::new() };
        assert(m.listing() =~= Seq::empty());
        assert(m@ =~= Map::empty());
        m
    }

    /// The number of entries.
    pub fn len(&self) -> (n: usize)
        ensures
            n == self.listing().len(),
    {
        self.entries.len()
    }

    /// Puts `entry` into the map. An entry that the map held for the same
    /// name gives way to it.
    pub fn insert(&mut self, entry: SignatureEntry)
        ensures
            final(self)@ == old(self)@.insert(entry.name@, entry.digest@),
            ascending(final(self).listing()),
    {
        proof {
            use_type_invariant(&*self);
        }
        let ghost pairs = pairs_of(self.entries@);
        let mut entries: Vec<SignatureEntry> = Vec::new();
        assert(pairs_of(entries@) =~= Seq::empty());
        std::mem::swap(&mut self.entries, &mut entries);
        let mut at: usize = 0;
        let mut same: bool = false;
        while at < entries.len()
            invariant_except_break
                !same,
            invariant
                at <= entries.len(),
                pairs == pairs_of(entries@),
                ascending(pairs),
                forall|j: int| 0 <= j < at ==> precedes(pairs[j].0, entry.name@),
            ensures
                same ==> at < entries.len() && pairs[at as int].0 == entry.name@,
                !same ==> forall|j: int| at <= j < pairs.len() ==> precedes(entry.name@, pairs[j].0),
            decreases entries.len() - at,
        {
            match rank(entries[at].name.as_str(), entry.name.as_str()) {
                Rank::Before => {
                    at += 1;
                },
                Rank::Same => {
                    same = true;
                    break ;
                },
                Rank::After => {
                    proof {
                        assert forall|j: int| at <= j < pairs.len() implies precedes(
                            entry.name@,
                            pairs[j].0,
                        ) by {
                            if j > at {
                                lemma_precedes_transitive(
                                    entry.name@,
                                    pairs[at as int].0,
                                    pairs[j].0,
                                );
                            }
                        }
                    }
                    break ;
                },
            }
        }
        if same {
            proof {
                lemma_replace_digest(pairs, at as int, entry.digest@);
                assert(pairs_of(entries@.update(at as int, entry)) =~= pairs.update(
                    at as int,
                    (pairs[at as int].0, entry.digest@),
                ));
            }
            entries[at] = entry;
        } else {
            proof {
                lemma_insert_between(pairs, at as int, entry@);
                assert(pairs_of(entries@.insert(at as int, entry)) =~= pairs.insert(
                    at as int,
                    entry@,
                ));
            }
            entries.insert(at, entry);
        }
        self.entries = entries;
    }

    /// The digest that the map holds for `name`, if it holds one.
    pub fn get(&self, name: &str) -> (r: Option<&String>)
        ensures
            match r {
                Some(digest) => self@.contains_key(name@) && self@[name@] == digest@,
                None => !self@.contains_key(name@),
            },
    {
        proof {
            use_type_invariant(self);
        }
        let ghost pairs = pairs_of(self.entries@);
        let mut at: usize = 0;
        while at < self.entries.len()
            invariant
                at <= self.entries.len(),
                pairs == pairs_of(self.entries@),
                ascending(pairs),
                forall|j: int| 0 <= j < at ==> pairs[j].0 != name@,
            decreases self.entries.len() - at,
        {
            if crate::text::same(self.entries[at].name.as_str(), name) {
                proof {
                    lemma_ascending_map(pairs, at as int);
                }
                return Some(&self.entries[at].digest);
            }
            at += 1;
        }
        None
    }

    /// The map as JSON text: one object, its members the entries in the
    /// order of their names, pretty-printed with tabs.
    pub fn to_json(&self) -> (r: Result<String, Error>)
        ensures
            ascending(self.listing()),
            match r {
                Ok(text) => json_pretty(self.listing()) == Some(text@),
                Err(e) => e == Error::SignatureSerialization && json_pretty(self.listing()) is None,
            },
    {
        proof {
            use_type_invariant(self);
        }
        match render_object(&self.entries) {
            Some(text) => Ok(text),
            None => Err(Error::SignatureSerialization),
        }
    }

    /// The entries in the order of their names, as they are serialized.
    pub fn entries(&self) -> (r: &Vec<SignatureEntry>)
        ensures
            pairs_of(r@) == self.listing(),
            ascending(self.listing()),
    {
        proof {
            use_type_invariant(self);
        }
        &self.entries
    }
}

/// The views of `results`, in order.
pub open spec fn results_view(results: Seq<Result<Option<SignatureEntry>, Error>>) -> Seq<
    Result<Option<(Seq<char>, Seq<char>)>, Error>,
> {
    Seq::new(results.len(), |i: int| emitted_view(results[i]))
}

/// The map that `results` gather into: each entry is put into the map in
/// turn, so that of two entries for one name the later one stays.
pub open spec fn gathered(results: Seq<Result<Option<(Seq<char>, Seq<char>)>, Error>>) -> Map<
    Seq<char>,
    Seq<char>,
>
    decreases results.len(),
{
    if results.len() == 0 {
        Map::empty()
    } else {
        match results.last() {
            Ok(Some((name, digest))) => gathered(results.drop_last()).insert(name, digest),
            _ => gathered(results.drop_last()),
        }
    }
}

/// None of `results` is a failure.
pub open spec fn all_ok(results: Seq<Result<Option<(Seq<char>, Seq<char>)>, Error>>) -> bool {
    forall|i: int| 0 <= i < results.len() ==> results[i] is Ok
}

/// The first failure among `results` stands at `at`.
pub open spec fn first_failure(
    results: Seq<Result<Option<(Seq<char>, Seq<char>)>, Error>>,
    at: int,
) -> bool {
    &&& 0 <= at < results.len()
    &&& results[at] is Err
    &&& forall|j: int| 0 <= j < at ==> results[j] is Ok
}

/// A result among `results` carries an entry for `name`.
pub open spec fn names(
    results: Seq<Result<Option<(Seq<char>, Seq<char>)>, Error>>,
    name: Seq<char>,
) -> bool {
    exists|i: int, digest: Seq<char>|
        0 <= i < results.len() && results[i] == Ok::<Option<(Seq<char>, Seq<char>)>, Error>(
            Some((name, digest)),
        )
}

/// The results `x` and `y` do not give one name different digests.
pub open spec fn agree(
    x: Result<Option<(Seq<char>, Seq<char>)>, Error>,
    y: Result<Option<(Seq<char>, Seq<char>)>, Error>,
) -> bool {
    match (x, y) {
        (Ok(Some(a)), Ok(Some(b))) => a.0 == b.0 ==> a.1 == b.1,
        _ => true,
    }
}

/// No two of `results` give one name different digests.
pub open spec fn consistent(results: Seq<Result<Option<(Seq<char>, Seq<char>)>, Error>>) -> bool {
    forall|i: int, j: int|
        0 <= i < results.len() && 0 <= j < results.len() ==> agree(
            #[trigger] results[i],
            #[trigger] results[j],
        )
}

/// The map that results gather into holds the names that results carry,
/// each with a digest that a result carries for it.
pub proof fn lemma_gathered(
    results: Seq<Result<Option<(Seq<char>, Seq<char>)>, Error>>,
    name: Seq<char>,
)
    ensures
        gathered(results).contains_key(name) <==> names(results, name),
        gathered(results).contains_key(name) ==> exists|i: int|
            0 <= i < results.len() && results[i] == Ok::<Option<(Seq<char>, Seq<char>)>, Error>(
                Some((name, gathered(results)[name])),
            ),
    decreases results.len(),
{
    if results.len() > 0 {
        let before = results.drop_last();
        lemma_gathered(before, name);
        if names(before, name) {
            let (i, digest) = choose|i: int, digest: Seq<char>|
                0 <= i < before.len() && before[i] == Ok::<Option<(Seq<char>, Seq<char>)>, Error>(
                    Some((name, digest)),
                );
            assert(results[i] == before[i]);
        }
        if names(results, name) {
            let (i, digest) = choose|i: int, digest: Seq<char>|
                0 <= i < results.len() && results[i] == Ok::<
                    Option<(Seq<char>, Seq<char>)>,
                    Error,
                >(Some((name, digest)));
            if i < before.len() {
                assert(before[i] == results[i]);
            }
        }
        if gathered(results).contains_key(name) {
            match results.last() {
                Ok(Some((n, d))) => {
                    if n == name {
                        assert(results[results.len() - 1] == Ok::<
                            Option<(Seq<char>, Seq<char>)>,
                            Error,
                        >(Some((name, gathered(results)[name]))));
                    } else {
                        let i = choose|i: int|
                            0 <= i < before.len() && before[i] == Ok::<
                                Option<(Seq<char>, Seq<char>)>,
                                Error,
                            >(Some((name, gathered(before)[name])));
                        assert(results[i] == before[i]);
                    }
                },
                _ => {
                    let i = choose|i: int|
                        0 <= i < before.len() && before[i] == Ok::<
                            Option<(Seq<char>, Seq<char>)>,
                            Error,
                        >(Some((name, gathered(before)[name])));
                    assert(results[i] == before[i]);
                },
            }
        }
    }
}

/// However many results carry one name, the map holds exactly one entry
/// for it: in a listing of what the results gather into, the name stands
/// at one position and at no other.
pub proof fn lemma_one_entry_for_a_name(
    results: Seq<Result<Option<(Seq<char>, Seq<char>)>, Error>>,
    listing: Seq<(Seq<char>, Seq<char>)>,
    name: Seq<char>,
)
    requires
        ascending(listing),
        as_map(listing) == gathered(results),
        names(results, name),
    ensures
        exists|i: int|
            0 <= i < listing.len() && listing[i].0 == name && forall|j: int|
                0 <= j < listing.len() && j != i ==> listing[j].0 != name,
{
    lemma_gathered(results, name);
    assert(has(listing, name));
    let i = index_of(listing, name);
    lemma_ascending_map(listing, i);
}

/// The map that results gather into does not depend on the order in which
/// they come in, as long as no two of them give one name different digests.
pub proof fn lemma_gathered_in_any_order(
    a: Seq<Result<Option<(Seq<char>, Seq<char>)>, Error>>,
    b: Seq<Result<Option<(Seq<char>, Seq<char>)>, Error>>,
)
    requires
        a.to_multiset() == b.to_multiset(),
        consistent(a),
    ensures
        gathered(a) == gathered(b),
{
    a.to_multiset_ensures();
    b.to_multiset_ensures();
    assert forall|name: Seq<char>| #[trigger]
        gathered(a).dom().contains(name) implies gathered(b).dom().contains(name) && gathered(
        b,
    )[name] == gathered(a)[name] by {
        lemma_gathered(a, name);
        lemma_gathered(b, name);
        let i = choose|i: int|
            0 <= i < a.len() && a[i] == Ok::<Option<(Seq<char>, Seq<char>)>, Error>(
                Some((name, gathered(a)[name])),
            );
        assert(a.contains(a[i]));
        assert(a.to_multiset().count(a[i]) > 0);
        assert(b.contains(a[i]));
        let k = choose|k: int| 0 <= k < b.len() && b[k] == a[i];
        assert(names(b, name));
        let j = choose|j: int|
            0 <= j < b.len() && b[j] == Ok::<Option<(Seq<char>, Seq<char>)>, Error>(
                Some((name, gathered(b)[name])),
            );
        assert(b.contains(b[j]));
        assert(b.to_multiset().count(b[j]) > 0);
        assert(a.contains(b[j]));
        let l = choose|l: int| 0 <= l < a.len() && a[l] == b[j];
        assert(agree(a[i], a[l]));
    }
    assert forall|name: Seq<char>| #[trigger]
        gathered(b).dom().contains(name) implies gathered(a).dom().contains(name) by {
        lemma_gathered(a, name);
        lemma_gathered(b, name);
        let j = choose|j: int|
            0 <= j < b.len() && b[j] == Ok::<Option<(Seq<char>, Seq<char>)>, Error>(
                Some((name, gathered(b)[name])),
            );
        assert(b.contains(b[j]));
        assert(b.to_multiset().count(b[j]) > 0);
        assert(a.contains(b[j]));
        let l = choose|l: int| 0 <= l < a.len() && a[l] == b[j];
        assert(names(a, name));
    }
    assert(gathered(a) =~= gathered(b));
}

/// Without its first entry an ascending sequence is ascending still, and
/// its map is without the first name.
pub proof fn lemma_rest_of_listing(pairs: Seq<(Seq<char>, Seq<char>)>)
    requires
        ascending(pairs),
        pairs.len() > 0,
    ensures
        ascending(pairs.drop_first()),
        as_map(pairs.drop_first()) == as_map(pairs).remove(pairs[0].0),
{
    let rest = pairs.drop_first();
    assert forall|i: int, j: int| 0 <= i < j < rest.len() implies precedes(rest[i].0, rest[j].0) by {
        assert(rest[i] == pairs[i + 1]);
        assert(rest[j] == pairs[j + 1]);
    }
    lemma_ascending_map(pairs, 0);
    assert forall|name: Seq<char>| has(rest, name) <==> (has(pairs, name) && name != pairs[0].0) by {
        if has(rest, name) {
            let i = index_of(rest, name);
            assert(pairs[i + 1].0 == name);
        }
        if has(pairs, name) && name != pairs[0].0 {
            let i = index_of(pairs, name);
            assert(rest[i - 1].0 == name);
        }
    }
    assert forall|name: Seq<char>| has(rest, name) implies #[trigger] as_map(rest)[name] == as_map(
        pairs,
    )[name] by {
        let i = index_of(rest, name);
        lemma_ascending_map(rest, i);
        lemma_ascending_map(pairs, i + 1);
    }
    assert(as_map(rest) =~= as_map(pairs).remove(pairs[0].0));
}

/// A map has one ascending listing.
pub proof fn lemma_listing_unique(a: Seq<(Seq<char>, Seq<char>)>, b: Seq<(Seq<char>, Seq<char>)>)
    requires
        ascending(a),
        ascending(b),
        as_map(a) == as_map(b),
    ensures
        a == b,
    decreases a.len(),
{
    if a.len() == 0 {
        if b.len() > 0 {
            lemma_ascending_map(b, 0);
            assert(has(a, b[0].0));
        }
        assert(a =~= b);
    } else {
        lemma_ascending_map(a, 0);
        assert(has(b, a[0].0));
        lemma_ascending_map(b, 0);
        assert(has(a, b[0].0));
        let j = index_of(b, a[0].0);
        let k = index_of(a, b[0].0);
        lemma_ascending_map(b, j);
        lemma_ascending_map(a, k);
        if j > 0 && k > 0 {
            lemma_precedes_transitive(a[0].0, a[k].0, b[j].0);
            lemma_precedes_irreflexive(a[0].0);
        }
        assert(a[0] == b[0]);
        lemma_rest_of_listing(a);
        lemma_rest_of_listing(b);
        lemma_listing_unique(a.drop_first(), b.drop_first());
        assert(a =~= seq![a[0]] + a.drop_first());
        assert(b =~= seq![b[0]] + b.drop_first());
    }
}

/// The output of a run does not depend on the order in which the results
/// of its units of work come in, as long as no two files give one name
/// different digests: the listings of the two maps, and so the texts
/// written for them, are the same.
pub proof fn lemma_output_in_any_order(
    a: Seq<Result<Option<(Seq<char>, Seq<char>)>, Error>>,
    b: Seq<Result<Option<(Seq<char>, Seq<char>)>, Error>>,
    listing_a: Seq<(Seq<char>, Seq<char>)>,
    listing_b: Seq<(Seq<char>, Seq<char>)>,
)
    requires
        a.to_multiset() == b.to_multiset(),
        consistent(a),
        ascending(listing_a),
        as_map(listing_a) == gathered(a),
        ascending(listing_b),
        as_map(listing_b) == gathered(b),
    ensures
        listing_a == listing_b,
        json_pretty(listing_a) == json_pretty(listing_b),
{
    lemma_gathered_in_any_order(a, b);
    lemma_listing_unique(listing_a, listing_b);
}

/// Collects the results of all units of work, in the order in which they
/// came in. The first failure gives up the run. Without one, every entry is
/// in the map.
pub fn collect(results: Vec<Result<Option<SignatureEntry>, Error>>) -> (r: Result<
    SignatureMap,
    Error,
>)
    ensures
        match r {
            Ok(map) => {
                &&& all_ok(results_view(results@))
                &&& map@ == gathered(results_view(results@))
                &&& ascending(map.listing())
            },
            Err(e) => exists|at: int|
                first_failure(results_view(results@), at) && results_view(results@)[at] == Err::<
                    Option<(Seq<char>, Seq<char>)>,
                    Error,
                >(e),
        },
{
    let ghost all = results_view(results@);
    let mut signatures = SignatureMap::new();
    assert(all.take(0) =~= Seq::empty());
    for result in it: results
        invariant
            all == results_view(it.seq()),
            forall|j: int| 0 <= j < it.index() ==> all[j] is Ok,
            signatures@ == gathered(all.take(it.index())),
            ascending(signatures.listing()),
    {
        assert(all.take(it.index() + 1).drop_last() =~= all.take(it.index()));
        assert(all.take(it.index() + 1).last() == all[it.index()]);
        match result {
            Ok(Some(entry)) => {
                signatures.insert(entry);
            },
            Ok(None) => {},
            Err(e) => {
                assert(first_failure(all, it.index()));
                return Err(e);
            },
        }
    }
    assert(all.take(all.len() as int) =~= all);
    Ok(signatures)
}

} // verus!
