//! The fuzzy match of a query against a text, as the `fuzzy-matcher` crate computes it.

use fuzzy_matcher::skim::SkimMatcherV2;
use fuzzy_matcher::FuzzyMatcher;
use vstd::prelude::*;

verus! {

/// What a fuzzy match comes to: nothing, or a score and the places of the characters matched.
pub open spec fn outcome_view(outcome: Option<(i64, Vec<usize>)>) -> Option<(i64, Seq<usize>)> {
    match outcome {
        Some((score, indices)) => Some((score, indices@)),
        None => None,
    }
}

/// The type `SkimMatcherV2` of the crate. Nothing is claimed of it.
#[verifier::external_type_specification]
#[verifier::external_body]
pub struct ExSkimMatcherV2(SkimMatcherV2);

/// A skim matcher that ignores the case of ASCII letters, used for one search after another. None
/// is made but by `Matcher::new`, so every one has the same settings.
pub struct Matcher {
    skim: SkimMatcherV2,
}

impl Matcher {
    /// A matcher that has not been used.
    pub fn new() -> Matcher {
        Matcher { skim: case_ignoring() }
    }
}

/// Makes a matcher by `SkimMatcherV2::default`, set to ignore case by
/// `SkimMatcherV2::ignore_case`. Nothing is claimed of it: its settings and its caches are its
/// own, and what it does is claimed where it is used.
#[verifier::external_body]
fn case_ignoring() -> (r: SkimMatcherV2) {
    SkimMatcherV2::default().ignore_case()
}

/// The lower-case form of an ASCII letter; any other character is itself.
pub open spec fn folded(c: char) -> int {
    if 'A' <= c <= 'Z' {
        c as int + 32
    } else {
        c as int
    }
}

/// Whether the characters of `pattern` occur in `choice` in order, gaps allowed and the case of
/// ASCII letters ignored.
pub open spec fn occurs_in_order(pattern: Seq<char>, choice: Seq<char>) -> bool
    decreases choice.len(),
{
    if pattern.len() == 0 {
        true
    } else if choice.len() == 0 {
        false
    } else if folded(pattern[0]) == folded(choice[0]) {
        occurs_in_order(pattern.drop_first(), choice.drop_first())
    } else {
        occurs_in_order(pattern, choice.drop_first())
    }
}

/// The longest text of which every place that the matcher lists is claimed to be a match. In a
/// longer one a gap can cost as much as the score that marks a place as no match.
pub const CERTAIN_LEN: usize = 0x7000;

/// Whether `indices` are places of `choice` that hold the characters of `pattern`, one each, the
/// case of ASCII letters ignored.
pub open spec fn spells(indices: Seq<usize>, choice: Seq<char>, pattern: Seq<char>) -> bool {
    &&& indices.len() == pattern.len()
    &&& forall|k: int|
        0 <= k < indices.len() ==> folded(choice[#[trigger] indices[k] as int]) == folded(
            pattern[k],
        )
}

/// What holds of the answer of a matcher, whatever it was used for before: it finds the pattern
/// exactly when its characters occur in order; the score is then a 32-bit one, and the places
/// are characters of `choice`, ascend, and in a text that is not too long hold the pattern.
pub open spec fn answers(
    choice: Seq<char>,
    pattern: Seq<char>,
    outcome: Option<(i64, Seq<usize>)>,
) -> bool {
    &&& outcome is Some <==> occurs_in_order(pattern, choice)
    &&& outcome matches Some((score, indices)) ==> {
        &&& i32::MIN <= score <= i32::MAX
        &&& forall|i: int, j: int|
            0 <= i < j < indices.len() ==> #[trigger] indices[i] < #[trigger] indices[j]
        &&& forall|i: int| 0 <= i < indices.len() ==> #[trigger] indices[i] < choice.len()
        &&& choice.len() <= CERTAIN_LEN ==> spells(indices, choice, pattern)
    }
}

/// The answer of a matcher that has not been used: the score of `pattern` in `choice`, and the places
/// of the alignment that is taken.
pub uninterp spec fn skim_outcome(choice: Seq<char>, pattern: Seq<char>) -> Option<
    (i64, Seq<usize>),
>;

/// Whether earlier searches may count in the answer: a character stands next to itself both in
/// the pattern and in `choice`, and the pattern up to the second of the two characters occurs
/// before the second of the two places.
pub open spec fn unsettled(choice: Seq<char>, pattern: Seq<char>) -> bool {
    exists|i: int, j: int|
        {
            &&& 0 <= i < pattern.len() - 1
            &&& 0 <= j < choice.len() - 1
            &&& folded(#[trigger] pattern[i]) == folded(pattern[i + 1])
            &&& folded(#[trigger] choice[j]) == folded(choice[j + 1])
            &&& folded(pattern[i]) == folded(choice[j])
            &&& occurs_in_order(pattern.take(i + 2), choice.take(j + 1))
        }
}

/// Whether the answer depends on the text and the pattern alone, whatever the matcher was used for
/// before.
pub open spec fn settled(choice: Seq<char>, pattern: Seq<char>) -> bool {
    choice.len() <= CERTAIN_LEN && !unsettled(choice, pattern)
}

/// The most that an earlier search can add to the score of one character: the largest bonus there
/// is, 16, in place of the least bonus for a match that follows a match, 4.
pub const MOST_LEFT_OVER: i64 = 12;

/// How the answer of a matcher compares with that of one that has not been used: it is the same
/// where it is settled; and where it is not, the same texts are found, and what is left over from
/// earlier searches can only raise the score, by so much for each character of the pattern.
pub open spec fn agrees(
    choice: Seq<char>,
    pattern: Seq<char>,
    outcome: Option<(i64, Seq<usize>)>,
    unused: Option<(i64, Seq<usize>)>,
) -> bool {
    &&& settled(choice, pattern) ==> outcome == unused
    &&& match (outcome, unused) {
        (Some((score, _)), Some((least, _))) => least <= score <= least + MOST_LEFT_OVER
            * pattern.len(),
        (None, None) => true,
        _ => false,
    }
}

/// Whether the score table for a text and a query of these many characters can be laid out, and
/// its scores stay within their integer type. A cell takes 16 bytes, and a table that was used
/// before may be given twice the room that is needed.
pub open spec fn table_fits(choice_len: nat, pattern_len: nat) -> bool {
    &&& pattern_len <= 0x3ff_ffff
    &&& (choice_len + 1) * (pattern_len + 1) * 32 <= isize::MAX
}

/// Whether the score table can be laid out.
pub(crate) fn fits_table(choice_len: u128, pattern_len: u128) -> (r: bool)
    requires
        choice_len <= 0x2_0000_0000_0000_0000,
    ensures
        r == table_fits(choice_len as nat, pattern_len as nat),
{
    if pattern_len > 0x3ff_ffff {
        return false;
    }
    proof {
        assert((choice_len + 1) * (pattern_len + 1) <= 0x2_0000_0000_0000_0001 * 0x400_0000)
            by (nonlinear_arith)
            requires
                0 <= choice_len <= 0x2_0000_0000_0000_0000,
                0 <= pattern_len <= 0x3ff_ffff,
        ;
    }
    (choice_len + 1) * (pattern_len + 1) * 32 <= isize::MAX as u128
}

/// Matches `pattern` in `choice` by `SkimMatcherV2::fuzzy_indices`, on a matcher that was made by
/// `Matcher::new` and ignores case.
///
/// What is claimed is `answers`, and that the answer `agrees` with that of a matcher not used
/// before, which `skim_outcome` names. Of the table that the matcher keeps from search to search, a
/// search reads one thing that it has not written: the bonus for a match that follows a match of
/// the same character of the pattern at the place before. That bonus is 0 in a new table and at
/// most 16 in a used one. It counts only where the character before it in the pattern matches at
/// that place too; else the match has the score that marks no match to go on from, and up to
/// `CERTAIN_LEN` loses to the way across a gap. Where the answer is not `settled`, the score is
/// stated within bounds only, and which of several alignments is taken is not stated.
///
/// The call panics where the table is too large for an allocation or a score leaves its type;
/// `table_fits` rules that out.
#[verifier::external_body]
pub(crate) fn fuzzy_indices(matcher: &Matcher, choice: &str, pattern: &str) -> (r: Option<
    (i64, Vec<usize>),
>)
    requires
        table_fits(choice@.len(), pattern@.len()),
    ensures
        answers(choice@, pattern@, outcome_view(r)),
        agrees(choice@, pattern@, outcome_view(r), skim_outcome(choice@, pattern@)),
{
    matcher.skim.fuzzy_indices(choice, pattern)
}

/// Two characters fold alike exactly when they are one character, or the upper and the lower case
/// of one ASCII letter.
pub proof fn law_folding_ignores_ascii_case(a: char, b: char)
    ensures
        folded(a) == folded(b) <==> (a == b || ('A' <= a <= 'Z' && b as int == a as int + 32) || ('A'
            <= b <= 'Z' && a as int == b as int + 32)),
{
}

proof fn lemma_places_of_occurrence(pattern: Seq<char>, choice: Seq<char>) -> (places: Seq<int>)
    requires
        occurs_in_order(pattern, choice),
    ensures
        places.len() == pattern.len(),
        forall|k: int|
            0 <= k < places.len() ==> 0 <= #[trigger] places[k] < choice.len() && folded(
                choice[places[k]],
            ) == folded(pattern[k]),
        forall|j: int, k: int|
            0 <= j < k < places.len() ==> #[trigger] places[j] < #[trigger] places[k],
    decreases choice.len(),
{
    if pattern.len() == 0 {
        Seq::empty()
    } else if folded(pattern[0]) == folded(choice[0]) {
        let rest = lemma_places_of_occurrence(pattern.drop_first(), choice.drop_first());
        let places = seq![0int] + rest.map_values(|p: int| p + 1);
        assert forall|k: int| 0 <= k < places.len() implies 0 <= #[trigger] places[k]
            < choice.len() && folded(choice[places[k]]) == folded(pattern[k]) by {
            if k > 0 {
                assert(places[k] == rest[k - 1] + 1);
                assert(pattern.drop_first()[k - 1] == pattern[k]);
                assert(choice.drop_first()[rest[k - 1]] == choice[places[k]]);
            }
        }
        assert forall|j: int, k: int| 0 <= j < k < places.len() implies #[trigger] places[j]
            < #[trigger] places[k] by {
            assert(places[k] == rest[k - 1] + 1);
            if j > 0 {
                assert(places[j] == rest[j - 1] + 1);
            }
        }
        places
    } else {
        let rest = lemma_places_of_occurrence(pattern, choice.drop_first());
        let places = rest.map_values(|p: int| p + 1);
        assert forall|k: int| 0 <= k < places.len() implies 0 <= #[trigger] places[k]
            < choice.len() && folded(choice[places[k]]) == folded(pattern[k]) by {
            assert(places[k] == rest[k] + 1);
            assert(choice.drop_first()[rest[k]] == choice[places[k]]);
        }
        assert forall|j: int, k: int| 0 <= j < k < places.len() implies #[trigger] places[j]
            < #[trigger] places[k] by {
            assert(places[j] == rest[j] + 1 && places[k] == rest[k] + 1);
        }
        places
    }
}

proof fn lemma_occurrence_of_places(pattern: Seq<char>, choice: Seq<char>, places: Seq<int>)
    requires
        places.len() == pattern.len(),
        forall|k: int|
            0 <= k < places.len() ==> 0 <= #[trigger] places[k] < choice.len() && folded(
                choice[places[k]],
            ) == folded(pattern[k]),
        forall|j: int, k: int|
            0 <= j < k < places.len() ==> #[trigger] places[j] < #[trigger] places[k],
    ensures
        occurs_in_order(pattern, choice),
    decreases choice.len(),
{
    if pattern.len() > 0 {
        assert(0 <= places[0] < choice.len());
        if folded(pattern[0]) == folded(choice[0]) {
            let rest = places.drop_first().map_values(|p: int| p - 1);
            assert forall|k: int| 0 <= k < rest.len() implies 0 <= #[trigger] rest[k]
                < choice.drop_first().len() && folded(choice.drop_first()[rest[k]]) == folded(
                pattern.drop_first()[k],
            ) by {
                assert(rest[k] == places[k + 1] - 1);
                assert(places[0] < places[k + 1]);
            }
            assert forall|j: int, k: int| 0 <= j < k < rest.len() implies #[trigger] rest[j]
                < #[trigger] rest[k] by {
                assert(places[j + 1] < places[k + 1]);
            }
            lemma_occurrence_of_places(pattern.drop_first(), choice.drop_first(), rest);
        } else {
            let rest = places.map_values(|p: int| p - 1);
            assert forall|k: int| 0 <= k < rest.len() implies 0 <= #[trigger] rest[k]
                < choice.drop_first().len() && folded(choice.drop_first()[rest[k]]) == folded(
                pattern[k],
            ) by {
                assert(rest[k] == places[k] - 1);
                if k > 0 {
                    assert(places[0] < places[k]);
                }
            }
            assert forall|j: int, k: int| 0 <= j < k < rest.len() implies #[trigger] rest[j]
                < #[trigger] rest[k] by {
                assert(places[j] < places[k]);
            }
            lemma_occurrence_of_places(pattern, choice.drop_first(), rest);
        }
    }
}

/// A pattern occurs in a text exactly when each of its characters has a place in the text, one
/// after the other, the case of ASCII letters ignored.
pub proof fn law_occurring_is_having_places(pattern: Seq<char>, choice: Seq<char>)
    ensures
        occurs_in_order(pattern, choice) <==> exists|places: Seq<int>|
            {
                &&& #[trigger] places.len() == pattern.len()
                &&& forall|k: int|
                    0 <= k < places.len() ==> 0 <= #[trigger] places[k] < choice.len() && folded(
                        choice[places[k]],
                    ) == folded(pattern[k])
                &&& forall|j: int, k: int|
                    0 <= j < k < places.len() ==> #[trigger] places[j] < #[trigger] places[k]
            },
{
    if occurs_in_order(pattern, choice) {
        let places = lemma_places_of_occurrence(pattern, choice);
        assert(places.len() == pattern.len());
    }
    if exists|places: Seq<int>|
        {
            &&& #[trigger] places.len() == pattern.len()
            &&& forall|k: int|
                0 <= k < places.len() ==> 0 <= #[trigger] places[k] < choice.len() && folded(
                    choice[places[k]],
                ) == folded(pattern[k])
            &&& forall|j: int, k: int|
                0 <= j < k < places.len() ==> #[trigger] places[j] < #[trigger] places[k]
        } {
        let places = choose|places: Seq<int>|
            {
                &&& #[trigger] places.len() == pattern.len()
                &&& forall|k: int|
                    0 <= k < places.len() ==> 0 <= #[trigger] places[k] < choice.len() && folded(
                        choice[places[k]],
                    ) == folded(pattern[k])
                &&& forall|j: int, k: int|
                    0 <= j < k < places.len() ==> #[trigger] places[j] < #[trigger] places[k]
            };
        lemma_occurrence_of_places(pattern, choice, places);
    }
}

/// The answer for a pattern in which no character stands next to itself is settled, in a text of
/// up to 28672 characters; and so is the answer in such a text in which none does.
pub proof fn law_without_doubles_the_answer_is_settled(choice: Seq<char>, pattern: Seq<char>)
    requires
        choice.len() <= 28672,
        (forall|i: int|
            0 <= i < pattern.len() - 1 ==> folded(#[trigger] pattern[i]) != folded(pattern[i + 1]))
            || (forall|j: int|
            0 <= j < choice.len() - 1 ==> folded(#[trigger] choice[j]) != folded(choice[j + 1])),
    ensures
        settled(choice, pattern),
{
}

/// Answers that agree with one of an unused matcher agree with each other where they are settled,
/// and their scores are never further apart than 12 for each character of the pattern.
pub proof fn law_answers_stay_close(
    choice: Seq<char>,
    pattern: Seq<char>,
    a: Option<(i64, Seq<usize>)>,
    b: Option<(i64, Seq<usize>)>,
    unused: Option<(i64, Seq<usize>)>,
)
    requires
        agrees(choice, pattern, a, unused),
        agrees(choice, pattern, b, unused),
    ensures
        settled(choice, pattern) ==> a == b,
        a is Some <==> b is Some,
        a matches Some((x, _)) ==> b matches Some((y, _)) ==> x <= y + 12 * pattern.len(),
        a matches Some((x, _)) ==> unused matches Some((least, _)) ==> least <= x,
        settled(choice, pattern) ==> a == unused,
{
}

/// A text and a query of less than 4096 characters each can be searched on any machine, far longer
/// ones on one of 64 bits, and shorter ones wherever longer ones can.
pub proof fn law_ordinary_texts_fit(
    choice_len: nat,
    pattern_len: nat,
    shorter_choice: nat,
    shorter_pattern: nat,
)
    requires
        shorter_choice <= choice_len,
        shorter_pattern <= pattern_len,
    ensures
        choice_len < 0x1000 && pattern_len < 0x1000 ==> table_fits(choice_len, pattern_len),
        table_fits(choice_len, pattern_len) ==> table_fits(shorter_choice, shorter_pattern),
        table_fits(choice_len, pattern_len) ==> 32 * (choice_len + 1) * (pattern_len + 1)
            <= isize::MAX,
        usize::BITS == 64 && choice_len < 0x8_0000 && pattern_len < 0x8_0000 ==> table_fits(
            choice_len,
            pattern_len,
        ),
{
    assert((shorter_choice + 1) * (shorter_pattern + 1) <= (choice_len + 1) * (pattern_len + 1))
        by (nonlinear_arith)
        requires
            0 <= shorter_choice <= choice_len,
            0 <= shorter_pattern <= pattern_len,
    ;
    if choice_len < 0x1000 && pattern_len < 0x1000 {
        assert((choice_len + 1) * (pattern_len + 1) <= 0x1000 * 0x1000) by (nonlinear_arith)
            requires
                0 <= choice_len < 0x1000,
                0 <= pattern_len < 0x1000,
        ;
    }
    if choice_len < 0x8_0000 && pattern_len < 0x8_0000 {
        assert((choice_len + 1) * (pattern_len + 1) <= 0x8_0000 * 0x8_0000) by (nonlinear_arith)
            requires
                0 <= choice_len < 0x8_0000,
                0 <= pattern_len < 0x8_0000,
        ;
    }
    assert(32 * (choice_len + 1) * (pattern_len + 1) == (choice_len + 1) * (pattern_len + 1) * 32)
        by (nonlinear_arith);
}

/// An answer is told by its score and its places, and is different from none.
pub proof fn law_outcome_is_seen_whole(score: i64, places: Vec<usize>)
    ensures
        outcome_view(Some((score, places))) == Some((score, places@)),
        outcome_view(None) is None,
{
}

/// The places of an answer lie in the text and ascend, and in a text of up to 28672 characters there
/// is one for each character of the pattern, which stands there but for the case of ASCII letters.
pub proof fn law_places_hold_the_pattern(
    choice: Seq<char>,
    pattern: Seq<char>,
    outcome: Option<(i64, Seq<usize>)>,
)
    requires
        answers(choice, pattern, outcome),
    ensures
        outcome matches Some((score, places)) ==> {
            &&& i32::MIN <= score <= i32::MAX
            &&& forall|k: int| 0 <= k < places.len() ==> #[trigger] places[k] < choice.len()
            &&& forall|j: int, k: int|
                0 <= j < k < places.len() ==> #[trigger] places[j] < #[trigger] places[k]
            &&& choice.len() <= 28672 ==> places.len() == pattern.len()
            &&& choice.len() <= 28672 ==> forall|k: int|
                0 <= k < pattern.len() ==> folded(choice[#[trigger] places[k] as int]) == folded(
                    pattern[k],
                )
        },
{
}

/// Nothing is found exactly where the pattern does not occur.
pub proof fn law_only_what_does_not_occur_is_not_found(choice: Seq<char>, pattern: Seq<char>)
    ensures
        answers(choice, pattern, None) <==> !occurs_in_order(pattern, choice),
{
}

} // verus!
