//! What the query finds in an entry, and which match is the better one.

use crate::matcher;
use crate::matcher::Matcher;
use crate::order;
use crate::order::{Order, Ranked};
use crate::service::FuzzyFinderService;
use crate::state;
use crate::state::{FuzzyMatch, FuzzyMatchState, MatchStateView, MatchView, TabEntry, TabEntryView};
use crate::text;
use std::sync::Arc;
use vstd::prelude::*;

verus! {

/// The score of an entry that was not ranked against a query: lower than any score of the matcher.
pub const UNRANKED: i64 = -0x7fff_ffff_ffff_ffff;

/// Entries are listed from the one selected last to the one selected first, those selected at
/// one time by name.
impl Order for TabEntryView {
    open spec fn not_after(self, other: TabEntryView) -> bool {
        ||| self.last_selected > other.last_selected
        ||| self.last_selected == other.last_selected && text::not_after(self.name, other.name)
    }

    proof fn lemma_total(a: TabEntryView, b: TabEntryView) {
        text::lemma_bytes_total(
            vstd::utf8::encode_utf8(a.name),
            vstd::utf8::encode_utf8(b.name),
        );
    }

    proof fn lemma_transitive(a: TabEntryView, b: TabEntryView, c: TabEntryView) {
        if a.last_selected == b.last_selected && b.last_selected == c.last_selected {
            text::lemma_bytes_transitive(
                vstd::utf8::encode_utf8(a.name),
                vstd::utf8::encode_utf8(b.name),
                vstd::utf8::encode_utf8(c.name),
            );
        }
    }
}

impl Ranked for TabEntry {
    fn is_not_after(&self, other: &Self) -> (r: bool) {
        if self.last_selected == other.last_selected {
            text::is_not_after(self.name.as_str(), other.name.as_str())
        } else {
            self.last_selected > other.last_selected
        }
    }
}

/// Matches are listed from the highest score to the lowest.
impl Order for MatchView {
    open spec fn not_after(self, other: MatchView) -> bool {
        self.score >= other.score
    }

    proof fn lemma_total(a: MatchView, b: MatchView) {
    }

    proof fn lemma_transitive(a: MatchView, b: MatchView, c: MatchView) {
    }
}

impl Ranked for FuzzyMatch {
    fn is_not_after(&self, other: &Self) -> (r: bool) {
        self.score >= other.score
    }
}

/// The numbers from 0 to `n`, without `n`.
pub open spec fn up_to(n: nat) -> Seq<usize> {
    Seq::new(n, |i: int| i as usize)
}

/// The indices that lie in the first `len` places.
pub open spec fn below(indices: Seq<usize>, len: int) -> Seq<usize> {
    indices.filter(|e: usize| e < len)
}

/// The indices that lie past the first `len` places, counted from there.
pub open spec fn beyond(indices: Seq<usize>, len: int) -> Seq<usize> {
    indices.filter(|e: usize| e >= len).map_values(|e: usize| (e - len) as usize)
}

/// The match of an entry, given whether there is a query and what the matcher made of it: a
/// sticky entry is always found, its whole name matched; with no query any entry is found; and
/// with one, those that it matches.
///
/// The matcher counts characters of the name and the doc. Its places are parted at the number of
/// bytes of the name, and the display reads them as byte offsets. The two agree as long as the
/// text is ASCII; past a character of more than one byte, a place stands for an earlier part of
/// the text than the one that was matched, and one in the doc may be taken for one in the name.
pub open spec fn entry_match(
    entry: TabEntryView,
    has_query: bool,
    outcome: Option<(i64, Seq<usize>)>,
) -> Option<MatchView> {
    let len = text::byte_len(entry.name);
    if entry.sticky {
        Some(
            MatchView {
                score: UNRANKED,
                name_indices: up_to(len),
                doc_indices: Seq::empty(),
                tab: entry,
            },
        )
    } else if !has_query {
        Some(
            MatchView {
                score: UNRANKED,
                name_indices: Seq::empty(),
                doc_indices: Seq::empty(),
                tab: entry,
            },
        )
    } else {
        match outcome {
            Some((score, indices)) => Some(
                MatchView {
                    score,
                    name_indices: below(indices, len as int),
                    doc_indices: beyond(indices, len as int),
                    tab: entry,
                },
            ),
            None => None,
        }
    }
}

/// The matches of the candidates, in the order in which the candidates stand.
pub open spec fn found(
    candidates: Seq<TabEntryView>,
    has_query: bool,
    outcomes: Seq<Option<(i64, Seq<usize>)>>,
) -> Seq<MatchView>
    decreases candidates.len(),
{
    if candidates.len() == 0 {
        Seq::empty()
    } else {
        let before = found(candidates.drop_last(), has_query, outcomes);
        match entry_match(candidates.last(), has_query, outcomes[candidates.len() - 1]) {
            Some(m) => before.push(m),
            None => before,
        }
    }
}

/// Several outcomes of the matcher, taken by their views.
pub open spec fn outcome_views(outcomes: Seq<Option<(i64, Vec<usize>)>>) -> Seq<
    Option<(i64, Seq<usize>)>,
> {
    outcomes.map_values(|o: Option<(i64, Vec<usize>)>| matcher::outcome_view(o))
}

/// Whether every score has a negative: the ranking goes by it.
pub open spec fn scores_can_be_negated(outcomes: Seq<Option<(i64, Seq<usize>)>>) -> bool {
    forall|i: int|
        0 <= i < outcomes.len() ==> ((#[trigger] outcomes[i]) matches Some((score, _)) ==> score
            > i64::MIN)
}

/// `result` lists what was found among the candidates, best first, and counts the candidates.
pub open spec fn ranks(
    candidates: Seq<TabEntryView>,
    has_query: bool,
    outcomes: Seq<Option<(i64, Seq<usize>)>>,
    result: MatchStateView,
) -> bool {
    &&& order::stable_sort(found(candidates, has_query, outcomes), result.matches)
    &&& result.total == candidates.len()
}

/// Whether the query can be matched against every entry that it has to be matched against.
pub open spec fn searchable(entries: Seq<TabEntryView>, query: Option<Seq<char>>) -> bool {
    query matches Some(q) ==> forall|i: int|
        0 <= i < entries.len() && !entries[i].sticky ==> matcher::table_fits(
            (#[trigger] entries[i]).pattern().len(),
            q.len(),
        )
}

/// What holds of the answer of the matcher for an entry: none where the entry is sticky or there
/// is no query, since nothing is asked then; else an answer for the query in the name and doc, which
/// agrees with that of a matcher that has not been used.
pub open spec fn sound_outcome(
    entry: TabEntryView,
    query: Option<Seq<char>>,
    outcome: Option<(i64, Seq<usize>)>,
) -> bool {
    match query {
        Some(q) if !entry.sticky => {
            &&& matcher::answers(entry.pattern(), q, outcome)
            &&& matcher::agrees(
                entry.pattern(),
                q,
                outcome,
                matcher::skim_outcome(entry.pattern(), q),
            )
        },
        _ => outcome is None,
    }
}

/// What holds of the answers of the matcher, each for its candidate.
pub open spec fn sound_outcomes(
    candidates: Seq<TabEntryView>,
    query: Option<Seq<char>>,
    outcomes: Seq<Option<(i64, Seq<usize>)>>,
) -> bool {
    &&& outcomes.len() == candidates.len()
    &&& forall|i: int|
        0 <= i < candidates.len() ==> sound_outcome(candidates[i], query, #[trigger] outcomes[i])
}

impl TabEntry {
    /// Whether a query of this many characters can be matched against the entry, or need not be.
    pub(crate) fn fits_table(&self, query_len: usize) -> (r: bool)
        ensures
            r == (self@.sticky || matcher::table_fits(self@.pattern().len(), query_len as nat)),
    {
        if self.sticky {
            return true;
        }
        let name_len: usize = self.name.as_str().unicode_len();
        let doc_len: usize = match &self.doc {
            Some(doc) => doc.as_str().unicode_len(),
            None => 0,
        };
        matcher::fits_table(name_len as u128 + doc_len as u128, query_len as u128)
    }
}

impl FuzzyFinderService {
    /// The match of one entry, given what the matcher made of the query.
    pub fn match_entry(
        entry: &Arc<TabEntry>,
        has_query: bool,
        outcome: Option<(i64, Vec<usize>)>,
    ) -> (r: Option<FuzzyMatch>)
        ensures
            match r {
                Some(m) => entry_match(entry@, has_query, matcher::outcome_view(outcome))
                    == Some(m@),
                None => entry_match(entry@, has_query, matcher::outcome_view(outcome)) is None,
            },
    {
        let name_len: usize = text::len_of(entry.name.as_str());
        if entry.sticky {
            let mut name_indices: Vec<usize> = Vec::new();
            let mut i: usize = 0;
            while i < name_len
                invariant
                    i <= name_len,
                    name_indices@ =~= up_to(i as nat),
                decreases name_len - i,
            {
                name_indices.push(i);
                i = i + 1;
            }
            Some(
                FuzzyMatch {
                    score: UNRANKED,
                    name_indices,
                    doc_indices: Vec::new(),
                    tab: entry.clone(),
                },
            )
        } else if !has_query {
            Some(
                FuzzyMatch {
                    score: UNRANKED,
                    name_indices: Vec::new(),
                    doc_indices: Vec::new(),
                    tab: entry.clone(),
                },
            )
        } else {
            match outcome {
                Some((score, indices)) => {
                    let (name_indices, doc_indices) = Self::split_indices(&indices, name_len);
                    Some(FuzzyMatch { score, name_indices, doc_indices, tab: entry.clone() })
                },
                None => None,
            }
        }
    }

    /// Parts the indices into those in the first `len` places and those past them, the latter
    /// counted from there.
    fn split_indices(indices: &Vec<usize>, len: usize) -> (r: (Vec<usize>, Vec<usize>))
        ensures
            r.0@ == below(indices@, len as int),
            r.1@ == beyond(indices@, len as int),
    {
        let mut low: Vec<usize> = Vec::new();
        let mut high: Vec<usize> = Vec::new();
        let mut i: usize = 0;
        proof {
            assert(below(indices@.take(0), len as int) =~= Seq::empty());
            assert(beyond(indices@.take(0), len as int) =~= Seq::empty());
        }
        while i < indices.len()
            invariant
                i <= indices@.len(),
                low@ == below(indices@.take(i as int), len as int),
                high@ == beyond(indices@.take(i as int), len as int),
            decreases indices@.len() - i,
        {
            let e: usize = indices[i];
            proof {
                lemma_split_push(indices@.take(i as int), e, len as int);
                assert(indices@.take(i + 1) =~= indices@.take(i as int).push(e));
            }
            if e < len {
                low.push(e);
            } else {
                high.push(e - len);
            }
            i = i + 1;
        }
        proof {
            assert(indices@.take(i as int) =~= indices@);
        }
        (low, high)
    }

    /// Lists what was found among the candidates, best first, given what the matcher made of the
    /// query in each of them.
    pub fn rank_matches(
        candidates: &Vec<Arc<TabEntry>>,
        has_query: bool,
        outcomes: Vec<Option<(i64, Vec<usize>)>>,
    ) -> (r: FuzzyMatchState)
        requires
            outcomes@.len() == candidates@.len(),
            scores_can_be_negated(outcome_views(outcomes@)),
        ensures
            ranks(state::views(candidates@), has_query, outcome_views(outcomes@), r@),
    {
        let ghost entries = state::views(candidates@);
        let ghost results = outcome_views(outcomes@);
        let mut matches: Vec<FuzzyMatch> = Vec::new();
        let mut i: usize = 0;
        let total: usize = candidates.len();
        proof {
            assert(state::views(matches@) =~= found(entries.take(0), has_query, results));
        }
        for outcome in it: outcomes
            invariant
                it.seq() == outcomes@,
                i == it.index(),
                total == candidates@.len(),
                outcomes@.len() == candidates@.len(),
                entries == state::views(candidates@),
                results == outcome_views(outcomes@),
                state::views(matches@) == found(entries.take(i as int), has_query, results),
        {
            proof {
                assert(entries.take(i + 1).drop_last() =~= entries.take(i as int));
                assert(results[i as int] == matcher::outcome_view(outcome));
            }
            let ghost before = matches@;
            match Self::match_entry(&candidates[i], has_query, outcome) {
                Some(m) => {
                    matches.push(m);
                    proof {
                        assert(state::views(matches@) =~= state::views(before).push(m@));
                    }
                },
                None => {},
            }
            i = i + 1;
        }
        proof {
            assert(entries.take(total as int) =~= entries);
        }
        FuzzyMatchState { matches: order::sort(matches), total }
    }

    /// Asks the matcher about each candidate: nothing is asked of a sticky one, or without a query.
    pub(crate) fn search(
        matcher: &Matcher,
        candidates: &Vec<Arc<TabEntry>>,
        query: &Option<String>,
    ) -> (r: Vec<Option<(i64, Vec<usize>)>>)
        requires
            searchable(state::views(candidates@), state::text_view(*query)),
        ensures
            sound_outcomes(
                state::views(candidates@),
                state::text_view(*query),
                outcome_views(r@),
            ),
    {
        let ghost entries = state::views(candidates@);
        let ghost q = state::text_view(*query);
        let mut outcomes: Vec<Option<(i64, Vec<usize>)>> = Vec::new();
        let mut i: usize = 0;
        while i < candidates.len()
            invariant
                i <= candidates@.len(),
                entries == state::views(candidates@),
                q == state::text_view(*query),
                searchable(entries, q),
                outcomes@.len() == i,
                forall|j: int|
                    0 <= j < i ==> sound_outcome(
                        entries[j],
                        q,
                        matcher::outcome_view(#[trigger] outcomes@[j]),
                    ),
            decreases candidates@.len() - i,
        {
            let entry = &candidates[i];
            let outcome = match query {
                Some(query) if !entry.sticky => {
                    let mut pattern: String = entry.name.clone();
                    if let Some(doc) = &entry.doc {
                        pattern.append(doc.as_str());
                    }
                    proof {
                        assert(pattern@ == entries[i as int].pattern());
                    }
                    matcher::fuzzy_indices(matcher, pattern.as_str(), query.as_str())
                },
                _ => None,
            };
            outcomes.push(outcome);
            i = i + 1;
        }
        outcomes
    }
}

proof fn lemma_split_push(indices: Seq<usize>, e: usize, len: int)
    requires
        0 <= len,
    ensures
        below(indices.push(e), len) == if e < len {
            below(indices, len).push(e)
        } else {
            below(indices, len)
        },
        beyond(indices.push(e), len) == if e >= len {
            beyond(indices, len).push((e - len) as usize)
        } else {
            beyond(indices, len)
        },
{
    reveal_with_fuel(Seq::filter, 2);
    assert(indices.push(e).drop_last() =~= indices);
    assert(beyond(indices.push(e), len) =~= if e >= len {
        beyond(indices, len).push((e - len) as usize)
    } else {
        beyond(indices, len)
    });
}

pub proof fn lemma_found_sound(
    candidates: Seq<TabEntryView>,
    has_query: bool,
    outcomes: Seq<Option<(i64, Seq<usize>)>>,
    k: int,
)
    requires
        0 <= k < found(candidates, has_query, outcomes).len(),
    ensures
        exists|i: int|
            0 <= i < candidates.len() && #[trigger] entry_match(
                candidates[i],
                has_query,
                outcomes[i],
            ) == Some(found(candidates, has_query, outcomes)[k]),
    decreases candidates.len(),
{
    let n = candidates.len() - 1;
    let before = found(candidates.drop_last(), has_query, outcomes);
    if k < before.len() {
        lemma_found_sound(candidates.drop_last(), has_query, outcomes, k);
        let i = choose|i: int|
            0 <= i < n && #[trigger] entry_match(
                candidates.drop_last()[i],
                has_query,
                outcomes[i],
            ) == Some(before[k]);
        assert(entry_match(candidates[i], has_query, outcomes[i]) == Some(before[k]));
    } else {
        assert(entry_match(candidates[n], has_query, outcomes[n]) is Some);
    }
}

pub proof fn lemma_found_in_order(
    candidates: Seq<TabEntryView>,
    has_query: bool,
    outcomes: Seq<Option<(i64, Seq<usize>)>>,
    j: int,
    k: int,
)
    requires
        0 <= j < k < found(candidates, has_query, outcomes).len(),
    ensures
        exists|p: int, q: int|
            {
                &&& 0 <= p < q < candidates.len()
                &&& #[trigger] candidates[p] == found(candidates, has_query, outcomes)[j].tab
                &&& #[trigger] candidates[q] == found(candidates, has_query, outcomes)[k].tab
            },
    decreases candidates.len(),
{
    let n = candidates.len() - 1;
    let front = candidates.drop_last();
    let before = found(front, has_query, outcomes);
    if k < before.len() {
        lemma_found_in_order(front, has_query, outcomes, j, k);
        let (p, q) = choose|p: int, q: int|
            {
                &&& 0 <= p < q < front.len()
                &&& #[trigger] front[p] == before[j].tab
                &&& #[trigger] front[q] == before[k].tab
            };
        assert(candidates[p] == before[j].tab && candidates[q] == before[k].tab);
    } else {
        lemma_found_sound(front, has_query, outcomes, j);
        let p = choose|p: int|
            0 <= p < n && #[trigger] entry_match(front[p], has_query, outcomes[p]) == Some(
                before[j],
            );
        assert(candidates[p] == before[j].tab);
        assert(candidates[n] == found(candidates, has_query, outcomes)[k].tab);
    }
}

pub proof fn lemma_found_complete(
    candidates: Seq<TabEntryView>,
    has_query: bool,
    outcomes: Seq<Option<(i64, Seq<usize>)>>,
    i: int,
)
    requires
        0 <= i < candidates.len(),
        entry_match(candidates[i], has_query, outcomes[i]) is Some,
    ensures
        found(candidates, has_query, outcomes).contains(
            entry_match(candidates[i], has_query, outcomes[i])->0,
        ),
    decreases candidates.len(),
{
    let n = candidates.len() - 1;
    let all = found(candidates, has_query, outcomes);
    let before = found(candidates.drop_last(), has_query, outcomes);
    let m = entry_match(candidates[i], has_query, outcomes[i])->0;
    if i < n {
        lemma_found_complete(candidates.drop_last(), has_query, outcomes, i);
        let k = choose|k: int| 0 <= k < before.len() && before[k] == m;
        assert(all[k] == m);
    } else {
        assert(all[all.len() - 1] == m);
    }
}

pub proof fn lemma_found_without_query(
    candidates: Seq<TabEntryView>,
    outcomes: Seq<Option<(i64, Seq<usize>)>>,
)
    ensures
        found(candidates, false, outcomes).len() == candidates.len(),
        forall|i: int|
            0 <= i < candidates.len() ==> {
                &&& (#[trigger] found(candidates, false, outcomes)[i]).tab == candidates[i]
                &&& found(candidates, false, outcomes)[i].score == UNRANKED
            },
    decreases candidates.len(),
{
    if candidates.len() > 0 {
        lemma_found_without_query(candidates.drop_last(), outcomes);
        let before = found(candidates.drop_last(), false, outcomes);
        let all = found(candidates, false, outcomes);
        assert(all =~= before.push(
            entry_match(candidates.last(), false, outcomes[candidates.len() - 1])->0,
        ));
        assert forall|i: int| 0 <= i < candidates.len() implies {
            &&& (#[trigger] all[i]).tab == candidates[i]
            &&& all[i].score == UNRANKED
        } by {
            if i < candidates.len() - 1 {
                assert(all[i] == before[i]);
                assert(before[i].tab == candidates.drop_last()[i]);
            }
        }
    }
}

pub proof fn lemma_found_len(
    candidates: Seq<TabEntryView>,
    has_query: bool,
    outcomes: Seq<Option<(i64, Seq<usize>)>>,
)
    ensures
        found(candidates, has_query, outcomes).len() <= candidates.len(),
    decreases candidates.len(),
{
    if candidates.len() > 0 {
        lemma_found_len(candidates.drop_last(), has_query, outcomes);
    }
}

/// Whether the places ascend, none listed twice.
pub open spec fn ascends(indices: Seq<usize>) -> bool {
    forall|i: int, j: int|
        0 <= i < j < indices.len() ==> #[trigger] indices[i] < #[trigger] indices[j]
}

proof fn lemma_split_ascends(indices: Seq<usize>, len: int)
    requires
        0 <= len,
        ascends(indices),
    ensures
        ascends(below(indices, len)),
        ascends(beyond(indices, len)),
        forall|i: int|
            0 <= i < below(indices, len).len() ==> {
                &&& #[trigger] below(indices, len)[i] < len
                &&& below(indices, len)[i] <= indices.last()
            },
        forall|i: int|
            0 <= i < beyond(indices, len).len() ==> #[trigger] beyond(indices, len)[i] + len
                <= indices.last(),
    decreases indices.len(),
{
    if indices.len() == 0 {
        assert(indices =~= Seq::empty());
        reveal(Seq::filter);
    } else {
        let front = indices.drop_last();
        let last = indices.last();
        lemma_split_ascends(front, len);
        lemma_split_push(front, last, len);
        assert(front.push(last) =~= indices);
        if front.len() > 0 {
            assert(front.last() < last);
        } else {
            reveal(Seq::filter);
        }
    }
}

/// The places that a match marks ascend, and those in the name lie in the name.
pub proof fn law_marks_ascend(
    entry: TabEntryView,
    query: Option<Seq<char>>,
    outcome: Option<(i64, Seq<usize>)>,
)
    requires
        sound_outcome(entry, query, outcome),
        text::byte_len(entry.name) <= usize::MAX,
    ensures
        entry_match(entry, query is Some, outcome) matches Some(m) ==> {
            &&& ascends(m.name_indices)
            &&& ascends(m.doc_indices)
            &&& forall|i: int|
                0 <= i < m.name_indices.len() ==> #[trigger] m.name_indices[i] < text::byte_len(
                    entry.name,
                )
        },
{
    if let Some((score, indices)) = outcome {
        lemma_split_ascends(indices, text::byte_len(entry.name) as int);
    }
}

proof fn lemma_split_len(indices: Seq<usize>, len: int)
    requires
        0 <= len,
    ensures
        below(indices, len).len() + beyond(indices, len).len() == indices.len(),
    decreases indices.len(),
{
    if indices.len() == 0 {
        assert(indices =~= Seq::empty());
        reveal(Seq::filter);
    } else {
        lemma_split_len(indices.drop_last(), len);
        lemma_split_push(indices.drop_last(), indices.last(), len);
        assert(indices.drop_last().push(indices.last()) =~= indices);
    }
}

/// A match found by a query has one place to be marked for each character of the query, in a name
/// and doc that are not too long.
pub proof fn law_one_place_for_each_query_character(
    entry: TabEntryView,
    query: Seq<char>,
    outcome: Option<(i64, Seq<usize>)>,
)
    requires
        !entry.sticky,
        entry.pattern().len() <= matcher::CERTAIN_LEN,
        sound_outcome(entry, Some(query), outcome),
    ensures
        entry_match(entry, true, outcome) matches Some(m) ==> m.name_indices.len()
            + m.doc_indices.len() == query.len(),
{
    if let Some((_, indices)) = outcome {
        lemma_split_len(indices, text::byte_len(entry.name) as int);
    }
}

proof fn lemma_filter_alike(s: Seq<usize>, f: spec_fn(usize) -> bool, g: spec_fn(usize) -> bool)
    requires
        forall|x: usize| #[trigger] f(x) == g(x),
    ensures
        s.filter(f) == s.filter(g),
    decreases s.len(),
{
    reveal(Seq::filter);
    if s.len() > 0 {
        lemma_filter_alike(s.drop_last(), f, g);
    }
}

/// An entry is a match if it is sticky, if there is no query, or if the matcher has found the query
/// in it. One that the matcher has found keeps the score that the matcher gave it, wherever in the
/// entry it was found; any other has the score below all scores.
pub proof fn law_match_keeps_the_score(
    entry: TabEntryView,
    has_query: bool,
    outcome: Option<(i64, Seq<usize>)>,
)
    ensures
        entry_match(entry, has_query, outcome) is Some <==> (entry.sticky || !has_query || outcome
            is Some),
        entry_match(entry, has_query, outcome) matches Some(m) ==> m.tab == entry,
        !entry.sticky && has_query ==> (outcome matches Some((score, _)) ==> (entry_match(
            entry,
            has_query,
            outcome,
        ) matches Some(m) && m.score == score)),
        entry.sticky || !has_query ==> (entry_match(entry, has_query, outcome) matches Some(m)
            && m.score == i64::MIN + 1),
{
}

/// The places that the matcher found are those that are marked: the ones that lie before the end
/// of the name in the name, the others in the doc, counted from its start; none is lost and none
/// is added. A sticky entry has its whole name marked, and without a query nothing is.
pub proof fn law_match_marks_the_places_found(
    entry: TabEntryView,
    has_query: bool,
    outcome: Option<(i64, Seq<usize>)>,
)
    requires
        vstd::utf8::encode_utf8(entry.name).len() <= usize::MAX,
    ensures
        !entry.sticky && has_query ==> (outcome matches Some((_, places)) ==> (entry_match(
            entry,
            has_query,
            outcome,
        ) matches Some(m) && {
            let end = vstd::utf8::encode_utf8(entry.name).len();
            let in_doc = places.filter(|p: usize| p >= end);
            &&& m.name_indices == places.filter(|p: usize| p < end)
            &&& m.doc_indices.len() == in_doc.len()
            &&& forall|i: int|
                0 <= i < in_doc.len() ==> #[trigger] m.doc_indices[i] + end == in_doc[i]
        })),
        !entry.sticky && !has_query ==> (entry_match(entry, has_query, outcome) matches Some(m)
            && m.name_indices.len() == 0 && m.doc_indices.len() == 0),
        entry.sticky ==> (entry_match(entry, has_query, outcome) matches Some(m) && {
            &&& m.name_indices.len() == vstd::utf8::encode_utf8(entry.name).len()
            &&& forall|i: int| 0 <= i < m.name_indices.len() ==> #[trigger] m.name_indices[i] == i
            &&& m.doc_indices.len() == 0
        }),
{
    if let Some((_, places)) = outcome {
        let end = vstd::utf8::encode_utf8(entry.name).len();
        let len = text::byte_len(entry.name) as int;
        lemma_filter_alike(places, |e: usize| e < len, |p: usize| p < end);
        lemma_filter_alike(places, |e: usize| e >= len, |p: usize| p >= end);
        let in_doc = places.filter(|p: usize| p >= end);
        assert forall|i: int| 0 <= i < in_doc.len() implies in_doc[i] >= end by {
            places.lemma_filter_pred(|p: usize| p >= end, i);
        }
        assert(beyond(places, len).len() == in_doc.len());
    }
}

/// The places among the candidates of what was found.
proof fn lemma_found_places(
    candidates: Seq<TabEntryView>,
    has_query: bool,
    outcomes: Seq<Option<(i64, Seq<usize>)>>,
) -> (places: Seq<int>)
    ensures
        places.len() == found(candidates, has_query, outcomes).len(),
        forall|k: int|
            0 <= k < places.len() ==> 0 <= #[trigger] places[k] < candidates.len() && entry_match(
                candidates[places[k]],
                has_query,
                outcomes[places[k]],
            ) == Some(found(candidates, has_query, outcomes)[k]),
        forall|j: int, k: int|
            0 <= j < k < places.len() ==> #[trigger] places[j] < #[trigger] places[k],
        forall|p: int|
            0 <= p < candidates.len() && entry_match(candidates[p], has_query, outcomes[p]) is Some
                ==> places.contains(p),
    decreases candidates.len(),
{
    if candidates.len() == 0 {
        Seq::empty()
    } else {
        let n = candidates.len() - 1;
        let front = candidates.drop_last();
        let before = lemma_found_places(front, has_query, outcomes);
        let all = found(candidates, has_query, outcomes);
        let places = if entry_match(candidates[n], has_query, outcomes[n]) is Some {
            before.push(n)
        } else {
            before
        };
        assert forall|k: int| 0 <= k < places.len() implies 0 <= #[trigger] places[k]
            < candidates.len() && entry_match(
            candidates[places[k]],
            has_query,
            outcomes[places[k]],
        ) == Some(all[k]) by {
            if k < before.len() {
                assert(places[k] == before[k]);
                assert(front[before[k]] == candidates[before[k]]);
            }
        }
        assert forall|j: int, k: int| 0 <= j < k < places.len() implies #[trigger] places[j]
            < #[trigger] places[k] by {
            assert(places[j] == before[j]);
            if k < before.len() {
                assert(places[k] == before[k]);
            }
        }
        assert forall|p: int|
            0 <= p < candidates.len() && entry_match(candidates[p], has_query, outcomes[p]) is Some
            implies places.contains(p) by {
            if p < n {
                assert(front[p] == candidates[p]);
                assert(before.contains(p));
                let k = choose|k: int| 0 <= k < before.len() && before[k] == p;
                assert(places[k] == p);
            } else {
                assert(places[before.len() as int] == p);
            }
        }
        places
    }
}

/// What is ranked is every candidate that is a match, each once and in the form that the matcher's
/// answer for that candidate gives it: from the highest score to the lowest, those with one score
/// in the order of the candidates. All candidates are counted.
pub proof fn law_ranking_lists_each_match_once(
    candidates: Seq<TabEntryView>,
    has_query: bool,
    outcomes: Seq<Option<(i64, Seq<usize>)>>,
    result: MatchStateView,
)
    requires
        ranks(candidates, has_query, outcomes, result),
    ensures
        result.total == candidates.len(),
        exists|places: Seq<int>|
            {
                &&& places.len() == result.matches.len()
                &&& #[trigger] places.no_duplicates()
                &&& forall|k: int|
                    0 <= k < places.len() ==> {
                        &&& 0 <= #[trigger] places[k] < candidates.len()
                        &&& entry_match(
                            candidates[places[k]],
                            has_query,
                            outcomes[places[k]],
                        ) == Some(result.matches[k])
                    }
                &&& forall|p: int|
                    0 <= p < candidates.len() && (candidates[p].sticky || !has_query
                        || outcomes[p] is Some) ==> #[trigger] places.contains(p)
                &&& forall|j: int, k: int|
                    0 <= j < k < places.len() ==> {
                        ||| result.matches[j].score > result.matches[k].score
                        ||| result.matches[j].score == result.matches[k].score
                            && #[trigger] places[j] < #[trigger] places[k]
                    }
            },
{
    let all = found(candidates, has_query, outcomes);
    let at = lemma_found_places(candidates, has_query, outcomes);
    order::law_sorting_moves_each_value_once(all, result.matches);
    let sorted = choose|sorted: Seq<int>|
        {
            &&& sorted.len() == all.len()
            &&& result.matches.len() == all.len()
            &&& #[trigger] sorted.no_duplicates()
            &&& forall|i: int|
                0 <= i < sorted.len() ==> 0 <= #[trigger] sorted[i] < all.len() && result.matches[i]
                    == all[sorted[i]]
            &&& forall|p: int| 0 <= p < all.len() ==> sorted.contains(p)
            &&& forall|i: int, j: int|
                0 <= i < j < sorted.len() ==> all[#[trigger] sorted[i]].not_after(
                    all[#[trigger] sorted[j]],
                )
            &&& forall|i: int, j: int|
                0 <= i < j < sorted.len() && all[sorted[j]].not_after(all[sorted[i]])
                    ==> #[trigger] sorted[i] < #[trigger] sorted[j]
        };
    let places = sorted.map_values(|i: int| at[i]);
    assert forall|j: int, k: int| 0 <= j < places.len() && 0 <= k < places.len() && j
        != k implies places[j] != places[k] by {
        assert(sorted[j] != sorted[k]);
        assert(places[j] == at[sorted[j]] && places[k] == at[sorted[k]]);
        if sorted[j] < sorted[k] {
            assert(at[sorted[j]] < at[sorted[k]]);
        } else {
            assert(at[sorted[k]] < at[sorted[j]]);
        }
    }
    assert forall|k: int| 0 <= k < places.len() implies {
        &&& 0 <= #[trigger] places[k] < candidates.len()
        &&& entry_match(candidates[places[k]], has_query, outcomes[places[k]]) == Some(
            result.matches[k],
        )
    } by {
        assert(places[k] == at[sorted[k]]);
    }
    assert forall|p: int|
        0 <= p < candidates.len() && (candidates[p].sticky || !has_query || outcomes[p] is Some)
        implies #[trigger] places.contains(p) by {
        assert(at.contains(p));
        let i = choose|i: int| 0 <= i < at.len() && at[i] == p;
        assert(sorted.contains(i));
        let k = choose|k: int| 0 <= k < sorted.len() && sorted[k] == i;
        assert(places[k] == p);
    }
    assert forall|j: int, k: int| 0 <= j < k < places.len() implies {
        ||| result.matches[j].score > result.matches[k].score
        ||| result.matches[j].score == result.matches[k].score && #[trigger] places[j]
            < #[trigger] places[k]
    } by {
        assert(all[sorted[j]].not_after(all[sorted[k]]));
        if result.matches[j].score == result.matches[k].score {
            assert(all[sorted[k]].not_after(all[sorted[j]]));
            assert(at[sorted[j]] < at[sorted[k]]);
        }
    }
    assert(places.no_duplicates());
}

/// Of two candidates that the matcher has found, the one with the higher score is listed first,
/// each with the score that the matcher gave it.
pub proof fn law_higher_score_is_listed_first(
    candidates: Seq<TabEntryView>,
    outcomes: Seq<Option<(i64, Seq<usize>)>>,
    result: MatchStateView,
    p: int,
    q: int,
)
    requires
        ranks(candidates, true, outcomes, result),
        0 <= p < candidates.len(),
        0 <= q < candidates.len(),
        !candidates[p].sticky,
        !candidates[q].sticky,
        outcomes[p] matches Some((higher, _)) && outcomes[q] matches Some((lower, _)) && higher
            > lower,
    ensures
        exists|j: int, k: int|
            {
                &&& 0 <= j < k < result.matches.len()
                &&& (#[trigger] result.matches[j]).tab == candidates[p]
                &&& (#[trigger] result.matches[k]).tab == candidates[q]
                &&& outcomes[p] matches Some((score, _)) && result.matches[j].score == score
                &&& outcomes[q] matches Some((score, _)) && result.matches[k].score == score
            },
{
    law_ranking_lists_each_match_once(candidates, true, outcomes, result);
    let places = choose|places: Seq<int>|
        {
            &&& places.len() == result.matches.len()
            &&& #[trigger] places.no_duplicates()
            &&& forall|k: int|
                0 <= k < places.len() ==> {
                    &&& 0 <= #[trigger] places[k] < candidates.len()
                    &&& entry_match(candidates[places[k]], true, outcomes[places[k]]) == Some(
                        result.matches[k],
                    )
                }
            &&& forall|p: int|
                0 <= p < candidates.len() && (candidates[p].sticky || outcomes[p] is Some)
                    ==> #[trigger] places.contains(p)
            &&& forall|j: int, k: int|
                0 <= j < k < places.len() ==> {
                    ||| result.matches[j].score > result.matches[k].score
                    ||| result.matches[j].score == result.matches[k].score && #[trigger] places[j]
                        < #[trigger] places[k]
                }
        };
    assert(places.contains(p) && places.contains(q));
    let j = choose|j: int| 0 <= j < places.len() && places[j] == p;
    let k = choose|k: int| 0 <= k < places.len() && places[k] == q;
    law_match_keeps_the_score(candidates[p], true, outcomes[p]);
    law_match_keeps_the_score(candidates[q], true, outcomes[q]);
    assert(0 <= places[j] < candidates.len() && 0 <= places[k] < candidates.len());
    if k < j {
        assert(places[k] == q && places[j] == p);
    }
    assert(result.matches[j].tab == candidates[p] && result.matches[k].tab == candidates[q]);
}

/// The answers of the matcher are seen each in its place, with its score and its places.
pub proof fn law_outcomes_are_seen_whole(outcomes: Seq<Option<(i64, Vec<usize>)>>, i: int)
    ensures
        outcome_views(outcomes).len() == outcomes.len(),
        0 <= i < outcomes.len() ==> (outcome_views(outcomes)[i] is Some <==> outcomes[i] is Some),
        0 <= i < outcomes.len() ==> (outcomes[i] matches Some((score, places)) ==> outcome_views(
            outcomes,
        )[i] == Some((score, places@))),
{
}

} // verus!
