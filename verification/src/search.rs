//! Queries over the index, and the strict engine that answers them.

use crate::invoice::{Invoice, InvoiceView};
use crate::names::{lemma_precedes_transitive, name_precedes, precedes};
use crate::store::{
    as_map, ascending, holds, lemma_ascending_names_differ, lemma_slot_found,
    lemma_upsert_as_map, lemma_upsert_ascending, lemma_upsert_replaces, lemma_upsert_slot, slot,
    upsert,
};
pub use crate::version::version_compare;
use crate::version::version_accepted;
use vstd::prelude::*;

verus! {

/// The search options for performing a query and returning results.
#[derive(Clone, Copy, Debug)]
pub struct SearchOptions {
    /// How many of the matches to pass over before the first one returned.
    pub offset: u64,
    /// The maximum number of results to return.
    pub limit: u8,
    /// Whether to use strict mode (if there are multiple modes supported).
    pub strict: bool,
    /// Whether to return yanked bindles.
    pub yanked: bool,
}

impl Default for SearchOptions {
    fn default() -> (options: Self)
        ensures
            options == (SearchOptions { offset: 0, limit: 50, strict: false, yanked: false }),
    {
        SearchOptions { offset: 0, limit: 50, strict: false, yanked: false }
    }
}

/// Describes the matches that are returned.
#[derive(Debug)]
pub struct Matches {
    /// Whether the search engine used strict mode.
    pub strict: bool,
    /// The offset of the first result in the matches.
    pub offset: u64,
    /// The maximum number of results this query would have returned.
    pub limit: u8,
    /// The total number of matches the search engine located.
    ///
    /// In many cases, this will not match the number of results returned on
    /// this query.
    pub total: u64,
    /// Whether there are more results than the ones returned here.
    pub more: bool,
    /// The list of invoices returned as this part of the query.
    ///
    /// The length of this Vec will be less than or equal to the limit.
    pub invoices: Vec<Invoice>,
    /// Whether this list includes potentially yanked invoices.
    pub yanked: bool,
}

/// The mathematical value of a [`Matches`].
pub ghost struct MatchesView {
    pub strict: bool,
    pub offset: nat,
    pub limit: nat,
    pub total: nat,
    pub more: bool,
    pub invoices: Seq<InvoiceView>,
    pub yanked: bool,
}

impl View for Matches {
    type V = MatchesView;

    open spec fn view(&self) -> MatchesView {
        MatchesView {
            strict: self.strict,
            offset: self.offset as nat,
            limit: self.limit as nat,
            total: self.total as nat,
            more: self.more,
            invoices: self.invoices.deep_view(),
            yanked: self.yanked,
        }
    }
}

/// How many of `total` matches a page shows that passes over `offset` of
/// them and shows `limit` at most.
pub open spec fn shown(total: nat, offset: nat, limit: nat) -> nat {
    if offset >= total {
        0
    } else if offset + limit >= total {
        (total - offset) as nat
    } else {
        limit
    }
}

/// The page of `hits` that passes over the first `offset` of them and then
/// shows `limit` at most, in their order.
pub open spec fn page(hits: Seq<InvoiceView>, offset: nat, limit: nat) -> Seq<InvoiceView> {
    if offset >= hits.len() {
        Seq::empty()
    } else {
        hits.subrange(offset as int, (offset + shown(hits.len(), offset, limit)) as int)
    }
}

impl MatchesView {
    /// The result keeps the books of a page: it repeats the offset and the
    /// limit that were asked for, shows as many invoices as a page of its
    /// total shows, and says that there are more exactly when matches remain
    /// behind the page.
    pub open spec fn pages(self, options: SearchOptions) -> bool {
        &&& self.offset == options.offset
        &&& self.limit == options.limit
        &&& self.invoices.len() == shown(self.total, self.offset, self.limit)
        &&& self.more == (self.total > self.offset + self.limit)
    }
}

impl Matches {
    /// The result that holds no match yet: it takes the options' word for
    /// everything they say and is empty otherwise.
    pub fn new(opts: &SearchOptions) -> (fresh: Self)
        ensures
            fresh@ == (MatchesView {
                strict: opts.strict,
                offset: opts.offset as nat,
                limit: opts.limit as nat,
                total: 0,
                more: false,
                invoices: Seq::empty(),
                yanked: opts.yanked,
            }),
    {
        let fresh = Matches {
            strict: opts.strict,
            offset: opts.offset,
            limit: opts.limit,
            yanked: opts.yanked,
            invoices: Vec::new(),
            more: false,
            total: 0,
        };
        assert(fresh.invoices.deep_view() =~= Seq::empty());
        fresh
    }

    /// The strict engine's answer for the matches it found, all of them and
    /// in their order: the page of them that the options ask for.
    pub fn paged(found: Vec<Invoice>, options: &SearchOptions) -> (answer: Self)
        ensures
            answer@ == paged(found.deep_view(), *options),
    {
        let ghost hits = found.deep_view();
        let mut found = found;
        let mut matches = Matches::new(options);
        matches.strict = true;
        matches.total = found.len() as u64;
        if matches.offset >= matches.total {
            assert(matches.invoices.deep_view() =~= page(
                hits,
                options.offset as nat,
                options.limit as nat,
            ));
            return matches;
        }
        let remaining = matches.total - matches.offset;
        matches.more = remaining > matches.limit as u64;
        let mut shown_here = found.split_off(matches.offset as usize);
        shown_here.truncate(matches.limit as usize);
        assert(shown_here.deep_view() =~= page(hits, options.offset as nat, options.limit as nat));
        matches.invoices = shown_here;
        matches
    }
}

/// Why an engine could not do what was asked of it.
#[derive(Clone, Copy, Debug, PartialEq, Eq)]
pub enum SearchError {
    /// The engine's own store failed.
    EngineFault,
}

/// The minimal set of features a provider must implement to offer queries.
pub trait Search {
    /// The records that the engine holds, in the order in which it goes
    /// through them.
    spec fn records(&self) -> Seq<InvoiceView>;

    /// Takes a term and a filter with the options, and returns one page of
    /// the matches.
    ///
    /// Which records match is the engine's to say. Whatever it answers keeps
    /// the books of a page and shows only records that the engine holds.
    fn query(&self, term: String, filter: String, options: SearchOptions) -> (outcome: Result<
        Matches,
        SearchError,
    >)
        ensures
            outcome matches Ok(found) ==> {
                &&& found@.pages(options)
                &&& forall|i: int|
                    0 <= i < found@.invoices.len() ==> self.records().contains(
                        #[trigger] found@.invoices[i],
                    )
            },
    ;

    /// Takes an invoice into the index.
    ///
    /// If the engine has indexed an invoice of this name before, the call is
    /// an update; otherwise it adds a new entry. Either way the engine holds
    /// the invoice afterwards.
    fn index(&mut self, document: &Invoice) -> (outcome: Result<(), SearchError>)
        ensures
            outcome is Ok ==> final(self).records().contains(document@),
    ;
}

/// A record matches a strict query when its name is the term, letter for
/// letter, and its version is accepted by the filter.
pub open spec fn strict_hit(record: InvoiceView, term: Seq<char>, filter: Seq<char>) -> bool {
    record.name() == term && version_accepted(record.version(), filter)
}

/// All records that match a strict query, in the order of the index.
pub open spec fn strict_hits(
    records: Seq<InvoiceView>,
    term: Seq<char>,
    filter: Seq<char>,
) -> Seq<InvoiceView> {
    records.filter(|record: InvoiceView| strict_hit(record, term, filter))
}

/// The strict engine's answer for the matches it found: the page of them
/// that the options ask for, with the number of all matches and whether some
/// remain behind the page. It says that it was strict, and repeats the
/// options' word on yanked bindles.
pub open spec fn paged(hits: Seq<InvoiceView>, options: SearchOptions) -> MatchesView {
    MatchesView {
        strict: true,
        offset: options.offset as nat,
        limit: options.limit as nat,
        total: hits.len(),
        more: hits.len() > options.offset + options.limit,
        invoices: page(hits, options.offset as nat, options.limit as nat),
        yanked: options.yanked,
    }
}

/// What the strict engine answers to a query over `records`.
pub open spec fn strict_answer(
    records: Seq<InvoiceView>,
    term: Seq<char>,
    filter: Seq<char>,
    options: SearchOptions,
) -> MatchesView {
    paged(strict_hits(records, term, filter), options)
}

/// Implements strict query processing.
///
/// The records are kept in ascending order of their names, one to a name, so
/// that the matches come in an order that does not change from one query to
/// the next.
pub struct StrictEngine {
    index: Vec<Invoice>,
}

impl View for StrictEngine {
    type V = Seq<InvoiceView>;

    closed spec fn view(&self) -> Seq<InvoiceView> {
        self.index.deep_view()
    }
}

impl Default for StrictEngine {
    fn default() -> (engine: Self)
        ensures
            engine@ == Seq::<InvoiceView>::empty(),
    {
        let engine = StrictEngine { index: Vec::new() };
        assert(engine.index.deep_view() =~= Seq::empty());
        engine
    }
}

impl StrictEngine {
    #[verifier::type_invariant]
    spec fn ordered(&self) -> bool {
        ascending(self.index.deep_view())
    }

    /// The number of records in the index, which stand in ascending order
    /// of their names.
    pub fn len(&self) -> (count: usize)
        ensures
            count == self@.len(),
            ascending(self@),
    {
        proof {
            use_type_invariant(self);
        }
        self.index.len()
    }

    /// Where a record of this name is, or else where it belongs.
    fn position(&self, name: &str) -> (at: usize)
        ensures
            at == slot(self@, name@),
            at <= self@.len(),
    {
        proof {
            use_type_invariant(self);
        }
        let ghost records = self.index.deep_view();
        let mut low: usize = 0;
        let mut high: usize = self.index.len();
        while low < high
            invariant
                records == self.index.deep_view(),
                ascending(records),
                low <= high <= records.len(),
                forall|j: int| 0 <= j < low ==> name_precedes((#[trigger] records[j]).name(), name@),
                forall|j: int|
                    high <= j < records.len() ==> !name_precedes(
                        (#[trigger] records[j]).name(),
                        name@,
                    ),
            decreases high - low,
        {
            let middle = low + (high - low) / 2;
            if precedes(self.index[middle].bindle.name.as_str(), name) {
                proof {
                    assert forall|j: int| 0 <= j < middle + 1 implies name_precedes(
                        (#[trigger] records[j]).name(),
                        name@,
                    ) by {
                        if j < middle {
                            assert(name_precedes(records[j].name(), records[middle as int].name()));
                            lemma_precedes_transitive(
                                records[j].name(),
                                records[middle as int].name(),
                                name@,
                            );
                        }
                    }
                }
                low = middle + 1;
            } else {
                proof {
                    assert forall|j: int| middle <= j < records.len() implies !name_precedes(
                        (#[trigger] records[j]).name(),
                        name@,
                    ) by {
                        if j > middle && name_precedes(records[j].name(), name@) {
                            assert(name_precedes(records[middle as int].name(), records[j].name()));
                            lemma_precedes_transitive(
                                records[middle as int].name(),
                                records[j].name(),
                                name@,
                            );
                        }
                    }
                }
                high = middle;
            }
        }
        proof {
            lemma_slot_found(records, name@, low as int);
        }
        low
    }
}

impl Search for StrictEngine {
    open spec fn records(&self) -> Seq<InvoiceView> {
        self@
    }

    /// Answers with the page of the records whose name is `term` and whose
    /// version `filter` accepts. A filter that cannot be read is no error: no
    /// record matches it. Whether a record was yanked plays no part, whatever
    /// the options say: the answer only repeats their word.
    fn query(&self, term: String, filter: String, options: SearchOptions) -> (outcome: Result<
        Matches,
        SearchError,
    >)
        ensures
            outcome matches Ok(found) && found@ == strict_answer(self@, term@, filter@, options),
            ascending(self@),
    {
        proof {
            use_type_invariant(self);
        }
        let ghost records = self.index.deep_view();
        let mut found: Vec<Invoice> = Vec::new();
        let mut i: usize = 0;
        assert(found.deep_view() =~= strict_hits(records.take(0), term@, filter@)) by {
            reveal(Seq::filter);
        }
        while i < self.index.len()
            invariant
                records == self.index.deep_view(),
                i <= self.index.len(),
                found.deep_view() == strict_hits(records.take(i as int), term@, filter@),
            decreases self.index.len() - i,
        {
            let candidate = &self.index[i];
            let ghost before = found.deep_view();
            let hit = candidate.bindle.name == term && version_compare(
                candidate.bindle.version.as_str(),
                filter.as_str(),
            );
            if hit {
                found.push(candidate.clone());
            }
            proof {
                let seen = records.take(i + 1);
                assert(seen.drop_last() =~= records.take(i as int));
                assert(seen.last() == candidate@);
                assert(hit == strict_hit(candidate@, term@, filter@));
                reveal(Seq::filter);
                if hit {
                    assert(found.deep_view() =~= before.push(candidate@));
                } else {
                    assert(found.deep_view() =~= before);
                }
            }
            i += 1;
        }
        assert(records.take(i as int) =~= records);
        proof {
            lemma_hits_are_held(records, term@, filter@);
        }
        Ok(Matches::paged(found, &options))
    }

    /// Takes a copy of the invoice into the index, in place of the record of
    /// its name where there is one. Nothing of the invoice is checked, and
    /// the call does not fail.
    fn index(&mut self, document: &Invoice) -> (outcome: Result<(), SearchError>)
        ensures
            outcome is Ok,
            final(self)@ == upsert(old(self)@, document@),
            ascending(final(self)@),
    {
        proof {
            use_type_invariant(&*self);
            lemma_upsert_ascending(self@, document@);
            lemma_upsert_slot(self@, document@);
        }
        let ghost before = self.index.deep_view();
        let at = self.position(document.bindle.name.as_str());
        let copy = document.clone();
        let mut records: Vec<Invoice> = Vec::new();
        assert(records.deep_view() =~= Seq::empty());
        std::mem::swap(&mut self.index, &mut records);
        if at < records.len() && records[at].bindle.name == document.bindle.name {
            records.set(at, copy);
            assert(records.deep_view() =~= before.update(at as int, document@));
        } else {
            records.insert(at, copy);
            assert(records.deep_view() =~= before.insert(at as int, document@));
        }
        std::mem::swap(&mut self.index, &mut records);
        Ok(())
    }
}

/// Every record that matches a strict query is a record of the index.
pub proof fn lemma_hits_are_held(records: Seq<InvoiceView>, term: Seq<char>, filter: Seq<char>)
    ensures
        forall|i: int|
            0 <= i < strict_hits(records, term, filter).len() ==> records.contains(
                #[trigger] strict_hits(records, term, filter)[i],
            ),
{
    let hits = strict_hits(records, term, filter);
    assert forall|i: int| 0 <= i < hits.len() implies records.contains(#[trigger] hits[i]) by {
        assert(hits.contains(hits[i]));
        records.lemma_filter_contains_rev(
            |record: InvoiceView| strict_hit(record, term, filter),
            hits[i],
        );
    }
}

/// In an ascending index a strict query has one match at most: the record
/// that the index holds under the term, where it holds one and the filter
/// accepts its version.
pub proof fn lemma_strict_hits(records: Seq<InvoiceView>, term: Seq<char>, filter: Seq<char>)
    requires
        ascending(records),
    ensures
        strict_hits(records, term, filter) == if holds(records, term) && version_accepted(
            as_map(records)[term].version(),
            filter,
        ) {
            seq![as_map(records)[term]]
        } else {
            Seq::empty()
        },
    decreases records.len(),
{
    reveal(Seq::filter);
    if records.len() > 0 {
        let rest = records.drop_last();
        let last = records.last();
        let end = records.len() - 1;
        assert(ascending(rest)) by {
            assert forall|i: int, j: int|
                #![trigger rest[i], rest[j]]
                0 <= i < j < rest.len() implies name_precedes(rest[i].name(), rest[j].name()) by {
                assert(name_precedes(records[i].name(), records[j].name()));
            }
        }
        lemma_strict_hits(rest, term, filter);
        if holds(rest, term) {
            let k = choose|k: int| 0 <= k < rest.len() && (#[trigger] rest[k]).name() == term;
            let i = choose|i: int|
                0 <= i < records.len() && (#[trigger] records[i]).name() == term;
            assert(records[k].name() == term);
            lemma_ascending_names_differ(records, k, i);
            if last.name() == term {
                lemma_ascending_names_differ(records, k, end);
            }
        } else if last.name() == term {
            let i = choose|i: int|
                0 <= i < records.len() && (#[trigger] records[i]).name() == term;
            assert(records[end].name() == term);
            lemma_ascending_names_differ(records, end, i);
            assert(strict_hits(records, term, filter) =~= if version_accepted(
                last.version(),
                filter,
            ) {
                seq![last]
            } else {
                Seq::empty()
            });
        } else if holds(records, term) {
            let i = choose|i: int|
                0 <= i < records.len() && (#[trigger] records[i]).name() == term;
            assert(rest[i].name() == term);
        }
    }
}

/// What a page shows. Where the offset passes over all matches, the page is
/// empty and nothing remains behind it. Where offset and limit together
/// reach the last match, the page shows all the matches from the offset on
/// and nothing remains. Otherwise it shows as many as the limit says, and
/// some remain. What it shows are the matches from the offset on, in their
/// order.
pub proof fn lemma_paged(hits: Seq<InvoiceView>, options: SearchOptions)
    ensures
        paged(hits, options).pages(options),
        paged(hits, options).total == hits.len(),
        options.offset >= hits.len() ==> paged(hits, options).invoices.len() == 0 && !paged(
            hits,
            options,
        ).more,
        options.offset < hits.len() <= options.offset + options.limit ==> paged(
            hits,
            options,
        ).invoices.len() == hits.len() - options.offset && !paged(hits, options).more,
        options.offset + options.limit < hits.len() ==> paged(hits, options).invoices.len()
            == options.limit && paged(hits, options).more,
        forall|i: int|
            0 <= i < paged(hits, options).invoices.len() ==> #[trigger] paged(
                hits,
                options,
            ).invoices[i] == hits[options.offset + i],
{
}

/// Indexing the same record twice leaves what indexing it once leaves: the
/// index is the same, so it has the same size and answers every query as
/// before.
pub proof fn lemma_index_again(
    records: Seq<InvoiceView>,
    record: InvoiceView,
    term: Seq<char>,
    filter: Seq<char>,
    options: SearchOptions,
)
    ensures
        upsert(upsert(records, record), record) == upsert(records, record),
        upsert(upsert(records, record), record).len() == upsert(records, record).len(),
        strict_answer(upsert(upsert(records, record), record), term, filter, options)
            == strict_answer(upsert(records, record), term, filter, options),
{
    lemma_upsert_replaces(records, record, record);
}

/// Of two records of one name that are indexed one after the other, the
/// index keeps the later alone: it is as if the earlier had never been
/// indexed, the name maps to the later, and a query for the name finds the
/// later, where the filter accepts its version, and nothing else.
pub proof fn lemma_later_record_wins(
    records: Seq<InvoiceView>,
    earlier: InvoiceView,
    later: InvoiceView,
    filter: Seq<char>,
)
    requires
        ascending(records),
        earlier.name() == later.name(),
    ensures
        upsert(upsert(records, earlier), later) == upsert(records, later),
        as_map(upsert(upsert(records, earlier), later)) == as_map(records).insert(
            later.name(),
            later,
        ),
        strict_hits(upsert(upsert(records, earlier), later), later.name(), filter)
            == if version_accepted(later.version(), filter) {
            seq![later]
        } else {
            Seq::empty()
        },
{
    let after = upsert(records, later);
    lemma_upsert_replaces(records, earlier, later);
    lemma_upsert_as_map(records, later);
    lemma_upsert_ascending(records, later);
    lemma_strict_hits(after, later.name(), filter);
    assert(as_map(after).dom().contains(later.name()));
}

} // verus!
