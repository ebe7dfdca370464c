//! How a text is cut into the runs of characters that the query matched and those it did not.

use crate::service::FuzzyFinderService;
use crate::state;
use crate::state::{FuzzyMatch, MatchView, OutputMatchView, Token, TokenJoin, TokenView};
use crate::text;
use vstd::prelude::*;

verus! {

/// The byte offset at which character `k` of `text` begins.
pub open spec fn offset(text: Seq<char>, k: int) -> int {
    text::byte_len(text.take(k)) as int
}

/// Whether the indices mark the offset `at`: of the indices that do not lie before it, the first
/// is `at` itself.
pub open spec fn marks(indices: Seq<usize>, at: int) -> bool {
    exists|p: int|
        0 <= p < indices.len() && #[trigger] indices[p] == at && forall|q: int|
            0 <= q < p ==> #[trigger] indices[q] < at
}

/// Each character of `text`, with whether the indices mark the offset at which it begins.
pub open spec fn marked_text(text: Seq<char>, indices: Seq<usize>) -> Seq<(char, bool)> {
    Seq::new(text.len(), |k: int| (text[k], marks(indices, offset(text, k))))
}

/// Each character of a token, with the kind of the token.
pub open spec fn spelled_token(token: TokenView) -> Seq<(char, bool)> {
    token.text.map_values(|c: char| (c, token.matched))
}

/// Each character of the tokens, in order, with the kind of the token that holds it.
pub open spec fn spelled(tokens: Seq<TokenView>) -> Seq<(char, bool)>
    decreases tokens.len(),
{
    if tokens.len() == 0 {
        Seq::empty()
    } else {
        spelled(tokens.drop_last()) + spelled_token(tokens.last())
    }
}

/// The tokens alternate, an unmatched one first, and none but that first one is empty.
pub open spec fn alternate(tokens: Seq<TokenView>) -> bool {
    &&& tokens.len() > 0
    &&& forall|i: int|
        0 <= i < tokens.len() ==> (#[trigger] tokens[i]).matched == (i % 2 == 1)
    &&& forall|i: int| 1 <= i < tokens.len() ==> (#[trigger] tokens[i]).text.len() > 0
}

/// `tokens` is `text` cut where the marks of `indices` begin and end.
pub open spec fn cut(tokens: Seq<TokenView>, text: Seq<char>, indices: Seq<usize>) -> bool {
    &&& alternate(tokens)
    &&& spelled(tokens) == marked_text(text, indices)
}

proof fn lemma_spelled_push(tokens: Seq<TokenView>, token: TokenView)
    ensures
        spelled(tokens.push(token)) == spelled(tokens) + spelled_token(token),
{
    assert(tokens.push(token).drop_last() =~= tokens);
}

proof fn lemma_spelled_token_extend(token: TokenView, c: char)
    ensures
        spelled_token(TokenView { matched: token.matched, text: token.text + seq![c] })
            == spelled_token(token).push((c, token.matched)),
{
    assert(spelled_token(TokenView { matched: token.matched, text: token.text + seq![c] })
        =~= spelled_token(token).push((c, token.matched)));
}

impl FuzzyFinderService {
    /// Cuts `text` into tokens: the characters that begin at a marked byte offset are matched,
    /// the others are not.
    pub fn parse_text(text: &str, indices: &[usize]) -> (r: Vec<Token>)
        ensures
            cut(state::views(r@), text@, indices@),
    {
        let total = text::len_of(text);
        let mut ret: Vec<Token> = Vec::new();
        let mut token = Token::Unmatched(String::new());
        let mut next: usize = 0;
        let mut i: usize = 0;
        let ghost full = marked_text(text@, indices@);

        proof {
            assert(state::views(ret@).push(token@) =~= seq![token@]);
            lemma_spelled_push(Seq::empty(), token@);
            assert(spelled(seq![token@]) =~= full.take(0));
            assert(Seq::<TokenView>::empty().push(token@) =~= seq![token@]);
            assert(text@.take(0) =~= Seq::<char>::empty());
        }
        for ch in it: text.chars()
            invariant
                it.seq() == text@,
                total == text::byte_len(text@),
                full == marked_text(text@, indices@),
                i == offset(text@, it.index() as int),
                next <= indices@.len(),
                forall|q: int| 0 <= q < next ==> #[trigger] indices@[q] < i,
                alternate(state::views(ret@).push(token@)),
                spelled(state::views(ret@).push(token@)) == full.take(it.index() as int),
        {
            let ghost k = it.index() as int;
            let ghost before = state::views(ret@).push(token@);
            while next < indices.len() && indices[next] < i
                invariant
                    next <= indices@.len(),
                    forall|q: int| 0 <= q < next ==> #[trigger] indices@[q] < i,
                decreases indices@.len() - next,
            {
                next = next + 1;
            }
            let matched = next < indices.len() && indices[next] == i;
            proof {
                if matched {
                    assert(indices@[next as int] == i);
                }
                assert(matched == marks(indices@, i as int));
                assert(full[k] == (ch, matched));
                assert(text@.take(k + 1) =~= text@.take(k).push(ch));
                text::lemma_byte_len_push(text@.take(k), ch);
                text::lemma_byte_len_concat(text@.take(k + 1), text@.skip(k + 1));
                assert(text@.take(k + 1) + text@.skip(k + 1) =~= text@);
            }
            let new_token = if matched {
                Token::Matched(text::single(ch))
            } else {
                Token::Unmatched(text::single(ch))
            };
            let ghost old_token = token@;
            let ghost old_ret = state::views(ret@);
            token = match token.join(new_token) {
                TokenJoin::Same(merged) => merged,
                TokenJoin::Different(prev, current) => {
                    ret.push(prev);
                    current
                },
            };
            proof {
                lemma_spelled_push(old_ret, old_token);
                assert(full.take(k + 1) =~= full.take(k).push(full[k]));
                assert(before.last() == old_token);
                if old_token.matched == matched {
                    assert(state::views(ret@) =~= old_ret);
                    lemma_spelled_token_extend(old_token, ch);
                    lemma_spelled_push(old_ret, token@);
                    assert(spelled(old_ret.push(token@)) =~= full.take(k + 1));
                    assert(old_ret.push(token@) =~= before.update(before.len() - 1, token@));
                } else {
                    assert(state::views(ret@) =~= before);
                    lemma_spelled_push(before, token@);
                    assert(spelled_token(token@) =~= seq![(ch, matched)]);
                    assert(spelled(before.push(token@)) =~= full.take(k + 1));
                }
            }
            i = i + text::width_of(ch);
        }

        proof {
            assert(full.take(text@.len() as int) =~= full);
            assert(state::views(ret@.push(token)) =~= state::views(ret@).push(token@));
        }
        ret.push(token);

        ret
    }

    /// Cuts a match into the tokens that show it, its name padded with spaces to `doc_index` bytes.
    pub fn parse(mat: FuzzyMatch, doc_index: usize) -> (r: (Vec<Token>, Option<Vec<Token>>))
        ensures
            shows(
                mat@,
                doc_index as int,
                (OutputMatchView { name: state::views(r.0@), doc: state::tokens_view(r.1) }),
            ),
    {
        let name = text::padded_to(mat.tab.name.as_str(), doc_index);
        let name = Self::parse_text(name.as_str(), mat.name_indices.as_slice());

        let doc = match &mat.tab.doc {
            Some(doc) => Some(Self::parse_text(doc.as_str(), mat.doc_indices.as_slice())),
            None => None,
        };

        (name, doc)
    }
}

/// `shown` is the match `m` as it is displayed with names padded to `width` bytes: the name and
/// the doc, each cut where the match marks it.
pub open spec fn shows(m: MatchView, width: int, shown: OutputMatchView) -> bool {
    &&& cut(shown.name, text::padded(m.tab.name, width), m.name_indices)
    &&& match (m.tab.doc, shown.doc) {
        (Some(doc), Some(tokens)) => cut(tokens, doc, m.doc_indices),
        (None, None) => true,
        _ => false,
    }
}

/// The text that the tokens hold between them.
pub open spec fn joined(tokens: Seq<TokenView>) -> Seq<char> {
    spelled(tokens).map_values(|c: (char, bool)| c.0)
}

/// Cutting a text loses nothing of it and adds nothing to it.
pub proof fn law_tokens_hold_the_text(
    tokens: Seq<TokenView>,
    text: Seq<char>,
    indices: Seq<usize>,
)
    requires
        cut(tokens, text, indices),
    ensures
        joined(tokens) == text,
{
    assert(joined(tokens) =~= text);
}

/// Where the indices ascend, a character is in a matched token exactly when the offset at which
/// it begins is one of them.
pub proof fn law_matched_is_what_the_indices_list(
    tokens: Seq<TokenView>,
    text: Seq<char>,
    indices: Seq<usize>,
    k: int,
)
    requires
        cut(tokens, text, indices),
        forall|p: int, q: int| 0 <= p < q < indices.len() ==> indices[p] <= indices[q],
        0 <= k < text.len(),
    ensures
        spelled(tokens)[k].0 == text[k],
        spelled(tokens)[k].1 <==> exists|p: int|
            0 <= p < indices.len() && indices[p] == offset(text, k),
{
    law_ascending_indices_all_mark(indices, offset(text, k));
}

/// Where the indices ascend, they mark exactly the offsets that they list.
pub proof fn law_ascending_indices_all_mark(indices: Seq<usize>, at: int)
    requires
        forall|p: int, q: int| 0 <= p < q < indices.len() ==> indices[p] <= indices[q],
    ensures
        marks(indices, at) <==> exists|p: int| 0 <= p < indices.len() && indices[p] == at,
{
    if exists|p: int| 0 <= p < indices.len() && indices[p] == at {
        let found = choose|p: int| 0 <= p < indices.len() && indices[p] == at;
        lemma_first_occurrence_marks(indices, at, found);
    }
}

proof fn lemma_first_occurrence_marks(indices: Seq<usize>, at: int, found: int)
    requires
        forall|p: int, q: int| 0 <= p < q < indices.len() ==> indices[p] <= indices[q],
        0 <= found < indices.len(),
        indices[found] == at,
    ensures
        marks(indices, at),
    decreases found,
{
    if found > 0 && indices[found - 1] == at {
        lemma_first_occurrence_marks(indices, at, found - 1);
    } else {
        assert forall|q: int| 0 <= q < found implies #[trigger] indices[q] < at by {
            assert(indices[q] <= indices[found - 1]);
            assert(indices[found - 1] <= indices[found]);
        }
        assert(indices[found] == at);
    }
}

/// There is one way to cut a text at the marks: any two results are the same.
pub proof fn law_cut_is_unique(
    a: Seq<TokenView>,
    b: Seq<TokenView>,
    text: Seq<char>,
    indices: Seq<usize>,
)
    requires
        cut(a, text, indices),
        cut(b, text, indices),
    ensures
        a == b,
{
    lemma_spelling_determines(a, b);
}

/// The tokens without their last character.
spec fn chopped(tokens: Seq<TokenView>) -> Seq<TokenView> {
    let last = tokens.last();
    if tokens.len() > 1 && last.text.len() == 1 {
        tokens.drop_last()
    } else {
        tokens.drop_last().push(TokenView { matched: last.matched, text: last.text.drop_last() })
    }
}

/// The tokens with one character more.
spec fn extended(tokens: Seq<TokenView>, c: (char, bool)) -> Seq<TokenView> {
    let last = tokens.last();
    if last.matched == c.1 {
        tokens.drop_last().push(TokenView { matched: c.1, text: last.text.push(c.0) })
    } else {
        tokens.push(TokenView { matched: c.1, text: seq![c.0] })
    }
}

proof fn lemma_chopped(tokens: Seq<TokenView>)
    requires
        alternate(tokens),
        spelled(tokens).len() > 0,
    ensures
        alternate(chopped(tokens)),
        spelled(chopped(tokens)) == spelled(tokens).drop_last(),
        tokens == extended(chopped(tokens), spelled(tokens).last()),
{
    let last = tokens.last();
    if tokens.len() == 1 {
        assert(tokens.drop_last() =~= Seq::<TokenView>::empty());
        assert(spelled(tokens) =~= spelled_token(last));
    }
    assert(last.text.len() > 0);
    let shorter = TokenView { matched: last.matched, text: last.text.drop_last() };
    assert(spelled_token(last).drop_last() =~= spelled_token(shorter));
    lemma_spelled_push(tokens.drop_last(), shorter);
    assert(spelled(tokens).last() == (last.text.last(), last.matched));
    assert(last.text.drop_last().push(last.text.last()) =~= last.text);
    if tokens.len() > 1 && last.text.len() == 1 {
        assert(spelled(tokens.drop_last()) =~= spelled(tokens).drop_last());
        assert(tokens[tokens.len() - 2].matched != last.matched);
        assert(seq![last.text.last()] =~= last.text);
        assert(extended(chopped(tokens), spelled(tokens).last()) =~= tokens);
    } else {
        assert(spelled(chopped(tokens)) =~= spelled(tokens).drop_last());
        assert(chopped(tokens).drop_last() =~= tokens.drop_last());
        assert(extended(chopped(tokens), spelled(tokens).last()) =~= tokens);
    }
}

proof fn lemma_spelling_determines(a: Seq<TokenView>, b: Seq<TokenView>)
    requires
        alternate(a),
        alternate(b),
        spelled(a) == spelled(b),
    ensures
        a == b,
    decreases spelled(a).len(),
{
    if spelled(a).len() == 0 {
        lemma_empty_spelling(a);
        lemma_empty_spelling(b);
    } else {
        lemma_chopped(a);
        lemma_chopped(b);
        lemma_spelling_determines(chopped(a), chopped(b));
    }
}

proof fn lemma_empty_spelling(tokens: Seq<TokenView>)
    requires
        alternate(tokens),
        spelled(tokens).len() == 0,
    ensures
        tokens == seq![(TokenView { matched: false, text: Seq::empty() })],
{
    assert(spelled_token(tokens.last()).len() == tokens.last().text.len());
    assert(tokens.last().text.len() == 0);
    assert(tokens.last().text =~= Seq::empty());
    assert(tokens =~= seq![(TokenView { matched: false, text: Seq::empty() })]);
}

/// The texts of the tokens, put together, are the characters that the tokens spell.
proof fn lemma_flat_is_joined(tokens: Seq<TokenView>)
    ensures
        tokens.map_values(|t: TokenView| t.text).flatten() == joined(tokens),
    decreases tokens.len(),
{
    let texts = tokens.map_values(|t: TokenView| t.text);
    if tokens.len() == 0 {
        assert(texts.flatten() =~= joined(tokens));
    } else {
        let front = tokens.drop_last();
        lemma_flat_is_joined(front);
        let front_texts = front.map_values(|t: TokenView| t.text);
        assert(texts =~= front_texts.push(tokens.last().text));
        front_texts.lemma_flatten_push(tokens.last().text);
        assert(joined(tokens) =~= joined(front) + tokens.last().text);
    }
}

/// The tokens of a text, put together, are the text.
pub proof fn law_cut_keeps_the_text(tokens: Seq<TokenView>, text: Seq<char>, indices: Seq<usize>)
    requires
        cut(tokens, text, indices),
    ensures
        tokens.map_values(|t: TokenView| t.text).flatten() == text,
{
    lemma_flat_is_joined(tokens);
    law_tokens_hold_the_text(tokens, text, indices);
}

/// Unmatched and matched tokens take turns, an unmatched one first, and only that first one can be
/// empty.
pub proof fn law_tokens_take_turns(
    tokens: Seq<TokenView>,
    text: Seq<char>,
    indices: Seq<usize>,
    i: int,
)
    requires
        cut(tokens, text, indices),
    ensures
        tokens.len() > 0,
        !tokens[0].matched,
        0 <= i < tokens.len() - 1 ==> tokens[i].matched != tokens[i + 1].matched,
        0 < i < tokens.len() ==> tokens[i].text.len() > 0,
{
}

proof fn lemma_spelled_at(tokens: Seq<TokenView>, i: int, j: int)
    requires
        0 <= i < tokens.len(),
        0 <= j < tokens[i].text.len(),
    ensures
        ({
            let at = tokens.take(i).map_values(|t: TokenView| t.text).flatten().len() + j;
            &&& at < spelled(tokens).len()
            &&& spelled(tokens)[at] == (tokens[i].text[j], tokens[i].matched)
        }),
    decreases tokens.len(),
{
    let front = tokens.drop_last();
    if i < front.len() {
        lemma_spelled_at(front, i, j);
        assert(front.take(i) =~= tokens.take(i));
    } else {
        assert(tokens.take(i) =~= front);
        lemma_flat_is_joined(front);
    }
}

/// A character is in a matched token exactly when the byte at which it begins is marked: when it is
/// the first of the indices that do not lie before it. In ascending indices that is to be one of
/// them.
pub proof fn law_matched_begins_at_a_mark(
    tokens: Seq<TokenView>,
    text: Seq<char>,
    indices: Seq<usize>,
    i: int,
    j: int,
)
    requires
        cut(tokens, text, indices),
        0 <= i < tokens.len(),
        0 <= j < tokens[i].text.len(),
    ensures
        ({
            let at = tokens.take(i).map_values(|t: TokenView| t.text).flatten().len() + j;
            let begins = vstd::utf8::encode_utf8(text.take(at)).len();
            &&& at < text.len()
            &&& text[at] == tokens[i].text[j]
            &&& tokens[i].matched <==> exists|p: int|
                0 <= p < indices.len() && #[trigger] indices[p] == begins && forall|q: int|
                    0 <= q < p ==> #[trigger] indices[q] < begins
            &&& (forall|p: int, q: int| 0 <= p < q < indices.len() ==> indices[p] <= indices[q])
                ==> (tokens[i].matched <==> exists|p: int|
                0 <= p < indices.len() && #[trigger] indices[p] == begins)
        }),
{
    lemma_spelled_at(tokens, i, j);
    let at = tokens.take(i).map_values(|t: TokenView| t.text).flatten().len() + j;
    assert(marked_text(text, indices)[at] == (tokens[i].text[j], tokens[i].matched));
    if forall|p: int, q: int| 0 <= p < q < indices.len() ==> indices[p] <= indices[q] {
        law_ascending_indices_all_mark(indices, offset(text, at));
    }
}

/// A match is shown by its whole name and its whole doc, whatever the width: the name is followed by
/// spaces up to the width and by nothing beyond it, the doc by nothing, and each is cut at the
/// places that the match marks in it.
pub proof fn law_match_is_shown_whole(m: MatchView, width: int, shown: OutputMatchView)
    requires
        shows(m, width, shown),
    ensures
        ({
            let name = shown.name.map_values(|t: TokenView| t.text).flatten();
            let bytes = vstd::utf8::encode_utf8(name).len();
            &&& name.len() >= m.tab.name.len()
            &&& name.take(m.tab.name.len() as int) == m.tab.name
            &&& forall|k: int| m.tab.name.len() <= k < name.len() ==> #[trigger] name[k] == ' '
            &&& bytes >= width
            &&& bytes == width || name == m.tab.name
            &&& cut(shown.name, name, m.name_indices)
        }),
        shown.doc is Some <==> m.tab.doc is Some,
        m.tab.doc matches Some(doc) ==> (shown.doc matches Some(tokens) && tokens.map_values(
            |t: TokenView| t.text,
        ).flatten() == doc && cut(tokens, doc, m.doc_indices)),
{
    let padded = text::padded(m.tab.name, width);
    law_cut_keeps_the_text(shown.name, padded, m.name_indices);
    text::law_padding_adds_spaces(m.tab.name, width);
    if let Some(doc) = m.tab.doc {
        law_cut_keeps_the_text(shown.doc->0, doc, m.doc_indices);
    }
}

} // verus!
