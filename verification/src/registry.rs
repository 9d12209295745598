//! The registry of error types and the catalogue of their summaries, sorted
//! by status and code.

use crate::descriptor::{summaries_of, ErrorInfoSummary, ErrorType, ErrorTypeView, SummaryView};
use crate::text::{lemma_ordered_total, lemma_ordered_transitive, ordered, precedes};
use vstd::prelude::*;

verus! {

/// `a` comes before `b`, or beside it, in the order of the catalogue: by
/// status, and among equal statuses by code in lexicographic order.
pub open spec fn key_le(a: SummaryView, b: SummaryView) -> bool {
    a.status < b.status || (a.status == b.status && ordered(a.code, b.code))
}

/// `output` holds the entries of `input` from index `from` on, sorted, and
/// `source` says for each place of `output` which index of `input` it holds:
/// every index from `from` on is there; the entries ascend by status and
/// code; and entries that the order does not tell apart stay in the order of
/// `input`.
pub open spec fn arranged_from(
    input: Seq<SummaryView>,
    output: Seq<SummaryView>,
    source: Seq<int>,
    from: int,
) -> bool {
    &&& 0 <= from <= input.len()
    &&& output.len() == input.len() - from
    &&& source.len() == output.len()
    &&& forall|k: int|
        0 <= k < output.len() ==> from <= #[trigger] source[k] < input.len() && output[k]
            == input[source[k]]
    &&& forall|i: int| from <= i < input.len() ==> #[trigger] source.contains(i)
    &&& forall|a: int, b: int|
        #![trigger output[a], output[b]]
        0 <= a < b < output.len() ==> key_le(output[a], output[b])
    &&& forall|a: int, b: int|
        #![trigger source[a], source[b]]
        0 <= a < b < output.len() && key_le(output[b], output[a]) ==> source[a] < source[b]
}

/// `output` is `input` sorted by status and code, every entry kept, and
/// entries of equal status and code left in the order they had.
pub open spec fn sorted_stably(input: Seq<SummaryView>, output: Seq<SummaryView>) -> bool {
    exists|source: Seq<int>| arranged_from(input, output, source, 0)
}

/// The order of the catalogue is total.
pub proof fn lemma_key_total(a: SummaryView, b: SummaryView)
    ensures
        key_le(a, b) || key_le(b, a),
{
    lemma_ordered_total(a.code, b.code, 0);
}

/// The order of the catalogue is transitive.
pub proof fn lemma_key_transitive(a: SummaryView, b: SummaryView, c: SummaryView)
    requires
        key_le(a, b),
        key_le(b, c),
    ensures
        key_le(a, c),
{
    if a.status == b.status && b.status == c.status {
        lemma_ordered_transitive(a.code, b.code, c.code, 0);
    }
}

/// Putting the entry before `from` into its place keeps the arrangement: the
/// place lies behind every entry that comes strictly before the new one, and
/// before the first entry that does not.
proof fn lemma_insert_arranged(
    input: Seq<SummaryView>,
    output: Seq<SummaryView>,
    source: Seq<int>,
    from: int,
    place: int,
)
    requires
        arranged_from(input, output, source, from),
        from > 0,
        0 <= place <= output.len(),
        forall|q: int| 0 <= q < place ==> !key_le(input[from - 1], #[trigger] output[q]),
        place < output.len() ==> key_le(input[from - 1], output[place]),
    ensures
        arranged_from(
            input,
            output.insert(place, input[from - 1]),
            source.insert(place, from - 1),
            from - 1,
        ),
{
    let entry = input[from - 1];
    let output2 = output.insert(place, entry);
    let source2 = source.insert(place, from - 1);
    assert forall|k: int| 0 <= k < output2.len() implies from - 1 <= #[trigger] source2[k]
        < input.len() && output2[k] == input[source2[k]] by {
        if k < place {
            assert(source2[k] == source[k]);
        } else if k > place {
            assert(source2[k] == source[k - 1]);
        }
    }
    assert forall|i: int| from - 1 <= i < input.len() implies #[trigger] source2.contains(i) by {
        if i == from - 1 {
            assert(source2[place] == i);
        } else {
            assert(source.contains(i));
            let k = choose|k: int| 0 <= k < source.len() && source[k] == i;
            if k < place {
                assert(source2[k] == i);
            } else {
                assert(source2[k + 1] == i);
            }
        }
    }
    assert forall|a: int, b: int|
        #![trigger output2[a], output2[b]]
        0 <= a < b < output2.len() implies key_le(output2[a], output2[b]) by {
        if b < place {
            assert(key_le(output[a], output[b]));
        } else if b == place {
            assert(!key_le(entry, output[a]));
            lemma_key_total(entry, output[a]);
        } else if a < place {
            assert(key_le(output[a], output[b - 1]));
        } else if a == place {
            assert(key_le(entry, output[place]));
            if b - 1 > place {
                assert(key_le(output[place], output[b - 1]));
                lemma_key_transitive(entry, output[place], output[b - 1]);
            }
        } else {
            assert(key_le(output[a - 1], output[b - 1]));
        }
    }
    assert forall|a: int, b: int|
        #![trigger source2[a], source2[b]]
        0 <= a < b < output2.len() && key_le(output2[b], output2[a]) implies source2[a]
            < source2[b] by {
        if b < place {
            assert(source[a] < source[b]);
        } else if b == place {
            assert(!key_le(entry, output[a]));
        } else if a < place {
            assert(source[a] < source[b - 1]);
        } else if a == place {
            assert(source2[b] == source[b - 1]);
        } else {
            assert(source[a - 1] < source[b - 1]);
        }
    }
}

/// Whether `a` comes before `b`, or beside it, in the order of the
/// catalogue.
pub fn comes_before(a: &ErrorInfoSummary, b: &ErrorInfoSummary) -> (le: bool)
    ensures
        le == key_le(a@, b@),
{
    let x = a.status.as_u16();
    let y = b.status.as_u16();
    x < y || (x == y && precedes(a.code.as_str(), b.code.as_str()))
}

/// Sorts summaries by status and code. Every entry is kept, and entries of
/// equal status and code stay in the order in which they came.
pub fn sort_summaries(entries: Vec<ErrorInfoSummary>) -> (sorted: Vec<ErrorInfoSummary>)
    ensures
        sorted_stably(entries.deep_view(), sorted.deep_view()),
{
    let ghost input = entries.deep_view();
    let mut pending = entries;
    let mut sorted: Vec<ErrorInfoSummary> = Vec::new();
    let ghost mut source: Seq<int> = Seq::empty();
    assert(sorted.deep_view() =~= Seq::<SummaryView>::empty());
    while pending.len() > 0
        invariant
            pending.deep_view() == input.take(pending.len() as int),
            pending.len() <= input.len(),
            arranged_from(input, sorted.deep_view(), source, pending.len() as int),
        decreases pending.len(),
    {
        let ghost from = pending.len() as int;
        let ghost before = sorted.deep_view();
        let ghost rest = pending.deep_view();
        let entry = pending.pop().unwrap();
        assert(entry@ == input[from - 1]) by {
            assert(rest[from - 1] == input[from - 1]);
        }
        assert(pending.deep_view() =~= input.take(from - 1));
        let mut place: usize = 0;
        while place < sorted.len() && !comes_before(&entry, &sorted[place])
            invariant
                place <= sorted.len(),
                before == sorted.deep_view(),
                forall|q: int| 0 <= q < place ==> !key_le(entry@, #[trigger] before[q]),
            decreases sorted.len() - place,
        {
            place = place + 1;
        }
        sorted.insert(place, entry);
        proof {
            lemma_insert_arranged(input, before, source, from, place as int);
            assert(sorted.deep_view() =~= before.insert(place as int, input[from - 1]));
            source = source.insert(place as int, from - 1);
        }
    }
    sorted
}

/// The summaries that one registered type gives.
pub open spec fn type_summaries() -> spec_fn(ErrorTypeView) -> Seq<SummaryView> {
    |ty: ErrorTypeView| summaries_of(ty)
}

/// The summaries of all `types`, type after type, each type's in the order
/// of its variants.
pub open spec fn all_summaries(types: Seq<ErrorTypeView>) -> Seq<SummaryView> {
    types.flat_map(type_summaries())
}

/// The error types that were registered, in the order of registration.
/// Types are only ever added.
pub struct Registry {
    types: Vec<ErrorType>,
}

impl View for Registry {
    type V = Seq<ErrorTypeView>;

    closed spec fn view(&self) -> Seq<ErrorTypeView> {
        self.types.deep_view()
    }
}

impl Registry {
    /// A registry without types.
    pub fn new() -> (registry: Registry)
        ensures
            registry@ == Seq::<ErrorTypeView>::empty(),
    {
        let registry = Registry { types: Vec::new() };
        assert(registry@ =~= Seq::<ErrorTypeView>::empty());
        registry
    }

    /// Adds `ty` behind the types that are registered.
    pub fn register(&mut self, ty: ErrorType)
        ensures
            final(self)@ == old(self)@.push(ty@),
    {
        self.types.push(ty);
        assert(self@ =~= old(self)@.push(ty@));
    }

    /// The number of registered types.
    pub fn len(&self) -> (n: usize)
        ensures
            n == self@.len(),
    {
        self.types.len()
    }

    /// The summaries of all registered types, in the order of registration.
    pub fn collect(&self) -> (entries: Vec<ErrorInfoSummary>)
        ensures
            entries.deep_view() == all_summaries(self@),
    {
        let ghost types = self@;
        let mut entries: Vec<ErrorInfoSummary> = Vec::new();
        let mut t: usize = 0;
        assert(entries.deep_view() =~= all_summaries(types.take(0))) by {
            assert(types.take(0).map_values(type_summaries()) =~= Seq::<
                Seq<SummaryView>,
            >::empty());
        }
        while t < self.types.len()
            invariant
                t <= self.types.len(),
                types == self@,
                entries.deep_view() == all_summaries(types.take(t as int)),
            decreases self.types.len() - t,
        {
            let ghost before = entries.deep_view();
            let mut given = self.types[t].summaries();
            let ghost added = given.deep_view();
            entries.append(&mut given);
            proof {
                types.lemma_flat_map_take_append(type_summaries(), t as int);
                assert(types[t as int] == self.types@[t as int]@);
                assert(entries.deep_view() =~= before + added);
            }
            t = t + 1;
        }
        assert(types.take(self.types.len() as int) =~= types);
        entries
    }
}

/// The catalogue of all registered error types: the summaries of every
/// variant of every type, sorted by status and, among equal statuses, by
/// code. The registry is left as it is.
pub fn summary(registry: &Registry) -> (catalogue: Vec<ErrorInfoSummary>)
    ensures
        sorted_stably(all_summaries(registry@), catalogue.deep_view()),
        catalogue.len() == all_summaries(registry@).len(),
        forall|a: int, b: int|
            #![trigger catalogue[a], catalogue[b]]
            0 <= a < b < catalogue.len() ==> key_le(catalogue[a]@, catalogue[b]@),
{
    let catalogue = sort_summaries(registry.collect());
    proof {
        let output = catalogue.deep_view();
        lemma_sorted_stably_holds(all_summaries(registry@), output);
        assert forall|a: int, b: int|
            #![trigger catalogue[a], catalogue[b]]
            0 <= a < b < catalogue.len() implies key_le(catalogue[a]@, catalogue[b]@) by {
            assert(output[a] == catalogue[a]@ && output[b] == catalogue[b]@);
        }
    }
    catalogue
}

/// Two arrangements of one input take every place from the same index.
proof fn lemma_sources_agree(
    input: Seq<SummaryView>,
    first: Seq<SummaryView>,
    first_source: Seq<int>,
    second: Seq<SummaryView>,
    second_source: Seq<int>,
    k: int,
)
    requires
        arranged_from(input, first, first_source, 0),
        arranged_from(input, second, second_source, 0),
        0 <= k < input.len(),
    ensures
        first_source[k] == second_source[k],
    decreases k,
{
    let x = first_source[k];
    let y = second_source[k];
    if x != y {
        assert(second_source.contains(x));
        assert(first_source.contains(y));
        let p = choose|p: int| 0 <= p < second_source.len() && second_source[p] == x;
        let q = choose|q: int| 0 <= q < first_source.len() && first_source[q] == y;
        lemma_key_total(input[x], input[x]);
        lemma_key_total(input[y], input[y]);
        if p < k {
            lemma_sources_agree(input, first, first_source, second, second_source, p);
            assert(first[p] == input[x] && first[k] == input[x]);
            assert(key_le(first[k], first[p]));
            assert(first_source[p] < first_source[k]);
        } else if q < k {
            lemma_sources_agree(input, first, first_source, second, second_source, q);
            assert(second[q] == input[y] && second[k] == input[y]);
            assert(key_le(second[k], second[q]));
            assert(second_source[q] < second_source[k]);
        } else {
            assert(k < p && k < q);
            assert(second[k] == input[y] && second[p] == input[x]);
            assert(first[k] == input[x] && first[q] == input[y]);
            assert(key_le(second[k], second[p]));
            assert(key_le(first[k], first[q]));
            assert(key_le(second[p], second[k]));
            assert(key_le(first[q], first[k]));
            assert(second_source[k] < second_source[p]);
            assert(first_source[k] < first_source[q]);
        }
    }
}

/// Sorting is deterministic: the order of status and code, together with the
/// order in which the entries came, leaves one result only.
pub proof fn lemma_sorted_stably_unique(
    input: Seq<SummaryView>,
    first: Seq<SummaryView>,
    second: Seq<SummaryView>,
)
    requires
        sorted_stably(input, first),
        sorted_stably(input, second),
    ensures
        first == second,
{
    let first_source = choose|source: Seq<int>| arranged_from(input, first, source, 0);
    let second_source = choose|source: Seq<int>| arranged_from(input, second, source, 0);
    assert forall|k: int| 0 <= k < first.len() implies first[k] == second[k] by {
        lemma_sources_agree(input, first, first_source, second, second_source, k);
    }
    assert(first =~= second);
}

/// What a sorted catalogue holds and how it is ordered: it has as many
/// entries as the input, each entry of the input stands in it, each of its
/// entries is one of the input, and of two entries the earlier has the
/// smaller status or, with the same status, a code that is not greater.
pub proof fn lemma_sorted_stably_holds(input: Seq<SummaryView>, output: Seq<SummaryView>)
    requires
        sorted_stably(input, output),
    ensures
        output.len() == input.len(),
        forall|i: int| 0 <= i < input.len() ==> output.contains(#[trigger] input[i]),
        forall|k: int| 0 <= k < output.len() ==> input.contains(#[trigger] output[k]),
        forall|a: int, b: int|
            #![trigger output[a], output[b]]
            0 <= a < b < output.len() ==> output[a].status < output[b].status || (
            output[a].status == output[b].status && ordered(output[a].code, output[b].code)),
{
    let source = choose|source: Seq<int>| arranged_from(input, output, source, 0);
    assert forall|i: int| 0 <= i < input.len() implies output.contains(#[trigger] input[i]) by {
        assert(source.contains(i));
        let k = choose|k: int| 0 <= k < source.len() && source[k] == i;
        assert(output[k] == input[i]);
    }
    assert forall|k: int| 0 <= k < output.len() implies input.contains(#[trigger] output[k]) by {
        assert(input[source[k]] == output[k]);
    }
    assert forall|a: int, b: int|
        #![trigger output[a], output[b]]
        0 <= a < b < output.len() implies output[a].status < output[b].status || (
    output[a].status == output[b].status && ordered(output[a].code, output[b].code)) by {
        assert(key_le(output[a], output[b]));
    }
}

} // verus!
