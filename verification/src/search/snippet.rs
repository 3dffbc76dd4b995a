//! Snippets: the lines of a document that show why it was found.

use vstd::prelude::*;
use vstd::utf8::is_ascii_chars;

use crate::search::pattern::matched_texts;
use crate::text::{contains_text, is_infix, join, join_range, law_infix_has_text_around, lemma_lines_of_ascii,
    lines, lines_lower_as_ascii, lines_of, lowercase, lowers_as_ascii, texts, white_space, white_space_words, words};

verus! {

/// How many lines before the first match a snippet shows.
pub const CONTEXT_BEFORE: usize = 2;

/// `\n`
pub open spec fn newline() -> Seq<char> {
    seq!['\n']
}

/// The line at `i` is the first of `list` of which `hit` holds.
pub open spec fn is_first_at(list: Seq<Seq<char>>, hit: spec_fn(Seq<char>) -> bool, i: int) -> bool {
    &&& 0 <= i < list.len()
    &&& hit(list[i])
    &&& forall|j: int| 0 <= j < i ==> !hit(#[trigger] list[j])
}

/// The index of the first line of `list` of which `hit` holds.
pub open spec fn first_line(list: Seq<Seq<char>>, hit: spec_fn(Seq<char>) -> bool) -> Option<int> {
    if exists|i: int| is_first_at(list, hit, i) {
        Some(choose|i: int| is_first_at(list, hit, i))
    } else {
        None
    }
}

/// There is at most one first line.
pub proof fn lemma_first_line_at(list: Seq<Seq<char>>, hit: spec_fn(Seq<char>) -> bool, i: int)
    requires
        is_first_at(list, hit, i),
    ensures
        first_line(list, hit) == Some(i),
{
    let k = choose|k: int| is_first_at(list, hit, k);
    assert(is_first_at(list, hit, k));
    assert(k == i) by {
        if k < i {
            assert(!hit(list[k]));
        } else if i < k {
            assert(!hit(list[i]));
        }
    }
}

/// Where no line is a hit there is no first one.
pub proof fn lemma_first_line_none(list: Seq<Seq<char>>, hit: spec_fn(Seq<char>) -> bool)
    requires
        forall|j: int| 0 <= j < list.len() ==> !hit(#[trigger] list[j]),
    ensures
        first_line(list, hit) is None,
{
}

/// The line after the last one of a snippet of at most `max_lines` lines around the line `first`
/// of `count` lines.
pub open spec fn snippet_end(count: int, first: int, max_lines: int) -> int {
    let after = if max_lines > CONTEXT_BEFORE + 1 { max_lines - CONTEXT_BEFORE - 1 } else { 0 };
    if first + after + 1 < count { first + after + 1 } else { count }
}

/// The first line of a snippet around the line `first`.
pub open spec fn snippet_start(first: int) -> int {
    if first > CONTEXT_BEFORE { first - CONTEXT_BEFORE } else { 0 }
}

/// The snippet of `list`: its text, the index of its first line and the number of its lines.
/// It lies around the line `first`; where there is no such line it is taken from the top.
pub open spec fn snippet(list: Seq<Seq<char>>, first: Option<int>, max_lines: int) -> (Seq<char>, int, int) {
    match first {
        Some(f) => {
            let start = snippet_start(f);
            let end = snippet_end(list.len() as int, f, max_lines);
            (join(list.subrange(start, end), newline()), start, end - start)
        },
        None => {
            let top = join(list.take(if max_lines < list.len() { max_lines } else { list.len() as int }), newline());
            (top, 0, lines(top).len() as int)
        },
    }
}

/// The snippet of the lines `list` around the line `first`, or from the top: its text, the index
/// of its first line and the number of its lines.
pub fn snippet_of(list: &Vec<String>, first: Option<usize>, max_lines: usize) -> (shown: (String, usize, usize))
    requires
        first matches Some(f) ==> f < list@.len(),
    ensures
        (shown.0@, shown.1 as int, shown.2 as int) == snippet(
            texts(list@),
            match first {
                Some(f) => Some(f as int),
                None => None,
            },
            max_lines as int,
        ),
{
    proof {
        reveal_strlit("\n");
        assert("\n"@ =~= newline());
    }
    match first {
        Some(f) => {
            let after = max_lines.saturating_sub(CONTEXT_BEFORE + 1);
            let start = f.saturating_sub(CONTEXT_BEFORE);
            let end = if after < list.len() - f { f + after + 1 } else { list.len() };
            (join_range(list, start, end, "\n"), start, end - start)
        },
        None => {
            let top = if max_lines < list.len() { max_lines } else { list.len() };
            assert(texts(list@).subrange(0, top as int) =~= texts(list@).take(top as int));
            let text = join_range(list, 0, top, "\n");
            let count = lines_of(text.as_str()).len();
            (text, 0, count)
        },
    }
}

/// One of `terms` stands in `lowered`.
pub open spec fn mentions(terms: Seq<Seq<char>>, lowered: Seq<char>) -> bool {
    exists|k: int| 0 <= k < terms.len() && is_infix(#[trigger] terms[k], lowered)
}

/// Holds of the texts in which one of `terms` stands.
pub open spec fn mentions_one_of(terms: Seq<Seq<char>>) -> spec_fn(Seq<char>) -> bool {
    |lowered: Seq<char>| mentions(terms, lowered)
}

/// Holds of the lines in which, in lower case, one of `terms` stands.
pub open spec fn lowered_mentions(terms: Seq<Seq<char>>) -> spec_fn(Seq<char>) -> bool {
    |line: Seq<char>| mentions(terms, lowercase(line))
}

/// Whether one of `terms` stands in `lowered`.
pub fn mentions_any(lowered: &str, terms: &Vec<String>) -> (found: bool)
    ensures
        found == mentions(texts(terms@), lowered@),
{
    let mut k: usize = 0;
    while k < terms.len()
        invariant
            k <= terms@.len(),
            forall|j: int| 0 <= j < k ==> !is_infix(#[trigger] texts(terms@)[j], lowered@),
        decreases terms@.len() - k,
    {
        if contains_text(lowered, terms[k].as_str()) {
            assert(is_infix(texts(terms@)[k as int], lowered@));
            return true;
        }
        k += 1;
    }
    false
}

/// The index of the first of the lines `lowered` in which one of `terms` stands.
pub fn first_mention(lowered: &Vec<String>, terms: &Vec<String>) -> (first: Option<usize>)
    ensures
        match first {
            Some(i) => first_line(texts(lowered@), mentions_one_of(texts(terms@))) == Some(i as int),
            None => first_line(texts(lowered@), mentions_one_of(texts(terms@))) is None,
        },
        first matches Some(i) ==> i < lowered@.len(),
{
    let ghost list = texts(lowered@);
    let ghost hit = mentions_one_of(texts(terms@));
    let mut i: usize = 0;
    while i < lowered.len()
        invariant
            i <= lowered@.len(),
            list == texts(lowered@),
            hit == mentions_one_of(texts(terms@)),
            forall|j: int| 0 <= j < i ==> !hit(#[trigger] list[j]),
        decreases lowered@.len() - i,
    {
        if mentions_any(lowered[i].as_str(), terms) {
            proof {
                assert(hit(list[i as int]));
                lemma_first_line_at(list, hit, i as int);
            }
            return Some(i);
        }
        i += 1;
    }
    proof {
        lemma_first_line_none(list, hit);
    }
    None
}

/// The terms of a query that a relevant line mentions: the words of the query in lower case.
pub open spec fn query_words(query: Seq<char>) -> Seq<Seq<char>> {
    words(lowercase(query), white_space())
}

/// The snippet of `content` around the first line that mentions a word of `query`.
pub open spec fn relevant_snippet(content: Seq<char>, query: Seq<char>, max_lines: int) -> (Seq<char>, int, int) {
    snippet(lines(content), first_line(lines(content), lowered_mentions(query_words(query))), max_lines)
}

/// The snippet of `content` is made of lines of `content`, and one of them mentions a word of
/// `query`.
pub open spec fn shows_the_query(content: Seq<char>, query: Seq<char>, max_lines: int) -> bool {
    let (text, start, count) = relevant_snippet(content, query, max_lines);
    &&& 0 <= start
    &&& start + count <= lines(content).len()
    &&& text == join(lines(content).subrange(start, start + count), newline())
    &&& exists|k: int|
        start <= k < start + count && mentions(query_words(query), lowercase(#[trigger] lines(content)[k]))
}

/// Creates a snippet that shows lines relevant to the query: its text, the index of its first
/// line in `content` and the number of its lines.
pub fn create_relevant_snippet(content: &str, query: &str, max_lines: usize) -> (shown: (String, usize, usize))
    ensures
        (shown.0@, shown.1 as int, shown.2 as int) == relevant_snippet(content@, query@, max_lines as int),
        is_ascii_chars(content@) ==> lines_lower_as_ascii(content@),
        is_ascii_chars(query@) ==> lowers_as_ascii(query@),
{
    let list = lines_of(content);
    proof {
        if is_ascii_chars(content@) {
            lemma_lines_of_ascii(content@);
            assert forall|j: int| 0 <= j < list@.len() implies is_ascii_chars((#[trigger] list@[j])@) by {
                assert(texts(list@)[j] == list@[j]@);
            }
        }
    }
    let query_lower = query.to_lowercase();
    let terms = white_space_words(query_lower.as_str());
    let mut lowered: Vec<String> = Vec::new();
    let mut i: usize = 0;
    while i < list.len()
        invariant
            i <= list@.len(),
            lowered@.len() == i,
            forall|j: int| 0 <= j < i ==> (#[trigger] lowered@[j])@ == lowercase(list@[j]@),
            is_ascii_chars(content@) ==> forall|j: int|
                0 <= j < list@.len() ==> is_ascii_chars((#[trigger] list@[j])@),
            is_ascii_chars(content@) ==> forall|j: int| 0 <= j < i ==> lowers_as_ascii((#[trigger] list@[j])@),
        decreases list@.len() - i,
    {
        lowered.push(list[i].as_str().to_lowercase());
        i += 1;
    }
    let first = first_mention(&lowered, &terms);
    proof {
        let plain = texts(list@);
        assert(is_ascii_chars(content@) ==> lines_lower_as_ascii(content@)) by {
            assert forall|j: int| is_ascii_chars(content@) && 0 <= j < plain.len() implies lowers_as_ascii(
                #[trigger] plain[j],
            ) by {
                assert(plain[j] == list@[j]@);
            }
        }
        let low = texts(lowered@);
        let hit = lowered_mentions(texts(terms@));
        let low_hit = mentions_one_of(texts(terms@));
        assert forall|j: int| is_first_at(plain, hit, j) <==> is_first_at(low, low_hit, j) by {
            assert forall|m: int| 0 <= m < plain.len() implies hit(#[trigger] plain[m]) == low_hit(low[m]) by {
                assert(low[m] == lowercase(plain[m]));
            }
            if is_first_at(plain, hit, j) {
                assert forall|m: int| 0 <= m < j implies !low_hit(#[trigger] low[m]) by {
                    assert(!hit(plain[m]));
                }
            }
            if is_first_at(low, low_hit, j) {
                assert forall|m: int| 0 <= m < j implies !hit(#[trigger] plain[m]) by {
                    assert(!low_hit(low[m]));
                }
            }
        }
        match first {
            Some(k) => {
                assert(is_first_at(low, low_hit, k as int));
                lemma_first_line_at(plain, hit, k as int);
            },
            None => {
                assert(forall|j: int| !is_first_at(plain, hit, j));
            },
        }
    }
    snippet_of(&list, first, max_lines)
}

/// Holds of the lines that are among `found`.
pub open spec fn matched_by(found: Set<Seq<char>>) -> spec_fn(Seq<char>) -> bool {
    |line: Seq<char>| found.contains(line)
}

/// The snippet of `content` around the first line that is among `found`.
pub open spec fn matching_snippet(content: Seq<char>, found: Set<Seq<char>>, max_lines: int) -> (Seq<char>, int, int) {
    snippet(lines(content), first_line(lines(content), matched_by(found)), max_lines)
}

/// Creates a snippet that shows lines relevant to a match of `regex`: its text, the index of its
/// first line in `content` and the number of its lines.
pub fn create_regex_snippet(content: &str, regex: &regex::Regex, max_lines: usize) -> (shown: (String, usize, usize))
    ensures
        (shown.0@, shown.1 as int, shown.2 as int) == matching_snippet(
            content@,
            matched_texts(*regex),
            max_lines as int,
        ),
{
    let list = lines_of(content);
    let ghost all = texts(list@);
    let ghost hit = matched_by(matched_texts(*regex));
    let mut i: usize = 0;
    while i < list.len()
        invariant
            i <= list@.len(),
            all == lines(content@),
            all == texts(list@),
            hit == matched_by(matched_texts(*regex)),
            forall|j: int| 0 <= j < i ==> !hit(#[trigger] all[j]),
        decreases list@.len() - i,
    {
        if regex.is_match(list[i].as_str()) {
            proof {
                assert(hit(all[i as int]));
                lemma_first_line_at(all, hit, i as int);
            }
            return snippet_of(&list, Some(i), max_lines);
        }
        i += 1;
    }
    proof {
        lemma_first_line_none(all, hit);
    }
    snippet_of(&list, None, max_lines)
}

// ---------------------------------------------------------------------------------------------
// Laws
// ---------------------------------------------------------------------------------------------

/// A line mentions one of `terms` exactly where the line is that term with something, or nothing,
/// before and behind it.
pub proof fn law_mention_has_text_around(terms: Seq<Seq<char>>, text: Seq<char>)
    ensures
        mentions(terms, text) <==> exists|k: int, before: Seq<char>, after: Seq<char>|
            0 <= k < terms.len() && text == #[trigger] (before + terms[k] + after),
{
    if mentions(terms, text) {
        let k = choose|k: int| 0 <= k < terms.len() && is_infix(#[trigger] terms[k], text);
        law_infix_has_text_around(terms[k], text);
        let (before, after) = choose|before: Seq<char>, after: Seq<char>|
            text == #[trigger] (before + terms[k] + after);
        assert(text == before + terms[k] + after);
    }
    assert forall|k: int, before: Seq<char>, after: Seq<char>|
        0 <= k < terms.len() && text == #[trigger] (before + terms[k] + after) implies mentions(terms, text) by {
        law_infix_has_text_around(terms[k], text);
        assert(is_infix(terms[k], text));
    }
}

/// The words of a query are what stands between white space in its lower case.
pub proof fn law_query_words_are_in_lower_case(query: Seq<char>)
    ensures
        query_words(query) == words(lowercase(query), white_space()),
{
}

/// A snippet shows two lines before the given line, that line, and as many lines behind it as are
/// allowed besides these three, as far as there are such lines. Without a given line it shows the
/// first lines.
pub proof fn law_snippet_shows_the_lines_around(list: Seq<Seq<char>>, f: int, max_lines: int)
    requires
        max_lines >= 0,
    ensures
        0 <= f < list.len() ==> ({
            let (text, start, count) = snippet(list, Some(f), max_lines);
            &&& start == (if f < 2 { 0 } else { f - 2 })
            &&& start + count == (if max_lines <= 3 {
                f + 1
            } else if f + max_lines - 2 < list.len() {
                f + max_lines - 2
            } else {
                list.len() as int
            })
            &&& text == join(list.subrange(start, start + count), seq!['\n'])
        }),
        ({
            let (text, start, count) = snippet(list, None, max_lines);
            &&& start == 0
            &&& text == join(list.take(if max_lines < list.len() { max_lines } else { list.len() as int }), seq!['\n'])
            &&& count == lines(text).len()
        }),
{
}

/// A search by words shows the lines around the first line that mentions one.
pub proof fn law_text_snippet_goes_around_the_first_mention(
    content: Seq<char>,
    query: Seq<char>,
    max_lines: int,
    f: int,
)
    ensures
        0 <= f < lines(content).len() && mentions(query_words(query), lowercase(lines(content)[f])) && (forall|j: int|
            0 <= j < f ==> !mentions(query_words(query), lowercase(#[trigger] lines(content)[j])))
            ==> relevant_snippet(content, query, max_lines) == snippet(lines(content), Some(f), max_lines),
        (forall|j: int|
            0 <= j < lines(content).len() ==> !mentions(query_words(query), lowercase(#[trigger] lines(content)[j])))
            ==> relevant_snippet(content, query, max_lines) == snippet(lines(content), None, max_lines),
{
    let list = lines(content);
    let hit = lowered_mentions(query_words(query));
    if 0 <= f < list.len() && mentions(query_words(query), lowercase(list[f])) && (forall|j: int|
        0 <= j < f ==> !mentions(query_words(query), lowercase(#[trigger] lines(content)[j]))) {
        assert forall|j: int| 0 <= j < f implies !hit(#[trigger] list[j]) by {
            assert(!mentions(query_words(query), lowercase(lines(content)[j])));
        }
        lemma_first_line_at(list, hit, f);
    }
    if forall|j: int|
        0 <= j < lines(content).len() ==> !mentions(query_words(query), lowercase(#[trigger] lines(content)[j])) {
        assert forall|j: int| 0 <= j < list.len() implies !hit(#[trigger] list[j]) by {
            assert(!mentions(query_words(query), lowercase(lines(content)[j])));
        }
        lemma_first_line_none(list, hit);
    }
}

/// A search by an expression shows the lines around the first line in which it has a match.
pub proof fn law_pattern_snippet_goes_around_the_first_match(
    content: Seq<char>,
    found: Set<Seq<char>>,
    max_lines: int,
    f: int,
)
    ensures
        0 <= f < lines(content).len() && found.contains(lines(content)[f]) && (forall|j: int|
            0 <= j < f ==> !found.contains(#[trigger] lines(content)[j]))
            ==> matching_snippet(content, found, max_lines) == snippet(lines(content), Some(f), max_lines),
        (forall|j: int| 0 <= j < lines(content).len() ==> !found.contains(#[trigger] lines(content)[j]))
            ==> matching_snippet(content, found, max_lines) == snippet(lines(content), None, max_lines),
{
    let list = lines(content);
    let hit = matched_by(found);
    if 0 <= f < list.len() && found.contains(list[f]) && (forall|j: int|
        0 <= j < f ==> !found.contains(#[trigger] lines(content)[j])) {
        assert forall|j: int| 0 <= j < f implies !hit(#[trigger] list[j]) by {
            assert(!found.contains(lines(content)[j]));
        }
        lemma_first_line_at(list, hit, f);
    }
    if forall|j: int| 0 <= j < lines(content).len() ==> !found.contains(#[trigger] lines(content)[j]) {
        assert forall|j: int| 0 <= j < list.len() implies !hit(#[trigger] list[j]) by {
            assert(!found.contains(lines(content)[j]));
        }
        lemma_first_line_none(list, hit);
    }
}

/// The first line of which a test holds is the one before which it holds of none.
pub proof fn law_first_line_comes_first(list: Seq<Seq<char>>, hit: spec_fn(Seq<char>) -> bool, f: int)
    requires
        0 <= f <= list.len(),
        forall|j: int| 0 <= j < f ==> !hit(#[trigger] list[j]),
    ensures
        f < list.len() && hit(list[f]) ==> first_line(list, hit) == Some(f),
        f == list.len() ==> first_line(list, hit) is None,
{
    if f < list.len() && hit(list[f]) {
        lemma_first_line_at(list, hit, f);
    }
    if f == list.len() {
        lemma_first_line_none(list, hit);
    }
}

/// The tests by which lines are found are those for a term in the line, for a term in its lower case,
/// and for the line among those that match.
pub proof fn law_tests_of_lines(terms: Seq<Seq<char>>, found: Set<Seq<char>>, line: Seq<char>)
    ensures
        mentions_one_of(terms)(line) <==> mentions(terms, line),
        lowered_mentions(terms)(line) <==> mentions(terms, lowercase(line)),
        matched_by(found)(line) <==> found.contains(line),
{
}

} // verus!
