//! Text as sequences of characters: where one text stands in another, how a text falls into
//! lines and words, letter case, and sizes in bytes.

use vstd::prelude::*;
use vstd::utf8::{encode_utf8, is_ascii_chars};

verus! {

/// The contents of a list of strings.
pub open spec fn texts(list: Seq<String>) -> Seq<Seq<char>> {
    Seq::new(list.len(), |i: int| list[i]@)
}

// ---------------------------------------------------------------------------------------------
// Characters in and out of strings
// ---------------------------------------------------------------------------------------------

/// `String::push` appends the given character to the end of the string.
pub assume_specification[ String::push ](s: &mut String, c: char)
    ensures
        final(s)@ == old(s)@.push(c),
;

/// The characters of `text`, one by one.
pub fn chars_of(text: &str) -> (chars: Vec<char>)
    ensures
        chars@ == text@,
{
    let mut chars: Vec<char> = Vec::new();
    for c in it: text.chars()
        invariant
            it.seq() == text@,
            chars@ == it.seq().take(it.index()),
    {
        chars.push(c);
    }
    chars
}

/// The string that holds the characters of `chars` from index `from` up to index `to`.
pub fn string_of(chars: &Vec<char>, from: usize, to: usize) -> (text: String)
    requires
        from <= to <= chars@.len(),
    ensures
        text@ == chars@.subrange(from as int, to as int),
{
    let mut text = String::new();
    let mut i: usize = from;
    while i < to
        invariant
            from <= i <= to <= chars@.len(),
            text@ == chars@.subrange(from as int, i as int),
        decreases to - i,
    {
        text.push(chars[i]);
        i += 1;
        assert(chars@.subrange(from as int, i as int) =~= chars@.subrange(from as int, i - 1).push(
            chars@[i - 1],
        ));
    }
    text
}

/// Appends the characters of `chars` from index `from` up to index `to` to `out`.
pub fn append_range(out: &mut Vec<char>, chars: &Vec<char>, from: usize, to: usize)
    requires
        from <= to <= chars@.len(),
    ensures
        final(out)@ == old(out)@ + chars@.subrange(from as int, to as int),
{
    let ghost before = out@;
    let mut i: usize = from;
    while i < to
        invariant
            from <= i <= to <= chars@.len(),
            out@ == before + chars@.subrange(from as int, i as int),
        decreases to - i,
    {
        out.push(chars[i]);
        i += 1;
        assert(chars@.subrange(from as int, i as int) =~= chars@.subrange(from as int, i - 1).push(
            chars@[i - 1],
        ));
    }
}

// ---------------------------------------------------------------------------------------------
// One text in another
// ---------------------------------------------------------------------------------------------

/// `needle` stands in `text` from index `i` on.
pub open spec fn stands_at(needle: Seq<char>, text: Seq<char>, i: int) -> bool {
    0 <= i && i + needle.len() <= text.len() && text.subrange(i, i + needle.len()) == needle
}

/// `needle` stands somewhere in `text`.
pub open spec fn is_infix(needle: Seq<char>, text: Seq<char>) -> bool {
    exists|i: int| stands_at(needle, text, i)
}

/// Whether `needle` stands in `text` from index `at` on.
pub fn matches_at(text: &Vec<char>, at: usize, needle: &Vec<char>) -> (found: bool)
    requires
        at <= text@.len(),
    ensures
        found == stands_at(needle@, text@, at as int),
{
    let n = text.len();
    if n - at < needle.len() {
        return false;
    }
    let mut i: usize = 0;
    while i < needle.len()
        invariant
            0 <= i <= needle@.len(),
            at + needle@.len() <= n,
            n == text@.len(),
            forall|j: int| 0 <= j < i ==> text@[at + j] == needle@[j],
        decreases needle@.len() - i,
    {
        if text[at + i] != needle[i] {
            assert(text@.subrange(at as int, at + needle@.len())[i as int] == text@[at + i]);
            return false;
        }
        i += 1;
    }
    assert(text@.subrange(at as int, at + needle@.len()) =~= needle@);
    true
}

/// Whether `text` begins with `prefix`.
pub fn has_prefix(text: &Vec<char>, prefix: &Vec<char>) -> (found: bool)
    ensures
        found == prefix@.is_prefix_of(text@),
{
    matches_at(text, 0, prefix)
}

/// Whether `text` ends with `suffix`.
pub fn has_suffix(text: &Vec<char>, suffix: &Vec<char>) -> (found: bool)
    ensures
        found == suffix@.is_suffix_of(text@),
{
    if text.len() < suffix.len() {
        return false;
    }
    matches_at(text, text.len() - suffix.len(), suffix)
}

/// Whether `needle` stands somewhere in `text`.
pub fn contains(text: &Vec<char>, needle: &Vec<char>) -> (found: bool)
    ensures
        found == is_infix(needle@, text@),
{
    let mut i: usize = 0;
    while i < text.len()
        invariant
            i <= text@.len(),
            forall|j: int| 0 <= j < i ==> !stands_at(needle@, text@, j),
        decreases text@.len() - i,
    {
        if matches_at(text, i, needle) {
            return true;
        }
        i += 1;
    }
    matches_at(text, i, needle)
}

/// Whether `needle` stands somewhere in `text`, for strings.
pub fn contains_text(text: &str, needle: &str) -> (found: bool)
    ensures
        found == is_infix(needle@, text@),
{
    contains(&chars_of(text), &chars_of(needle))
}

// ---------------------------------------------------------------------------------------------
// Pieces of a text
// ---------------------------------------------------------------------------------------------

/// The pieces of `text` between the characters that `sep` picks out: one piece more than there
/// are such characters.
pub open spec fn split_on(text: Seq<char>, sep: spec_fn(char) -> bool) -> Seq<Seq<char>>
    decreases text.len(),
{
    if text.len() == 0 {
        seq![Seq::empty()]
    } else {
        let pieces = split_on(text.drop_last(), sep);
        if sep(text.last()) {
            pieces.push(Seq::empty())
        } else {
            pieces.drop_last().push(pieces.last().push(text.last()))
        }
    }
}

/// A text always has a piece.
pub proof fn lemma_split_on_has_piece(text: Seq<char>, sep: spec_fn(char) -> bool)
    ensures
        split_on(text, sep).len() > 0,
    decreases text.len(),
{
    if text.len() > 0 {
        lemma_split_on_has_piece(text.drop_last(), sep);
    }
}

/// The pieces of two texts with a separating character between them are those of the first and
/// those of the second.
pub proof fn lemma_split_on_around(a: Seq<char>, c: char, b: Seq<char>, sep: spec_fn(char) -> bool)
    requires
        sep(c),
    ensures
        split_on(a.push(c) + b, sep) == split_on(a, sep) + split_on(b, sep),
    decreases b.len(),
{
    lemma_split_on_has_piece(a, sep);
    lemma_split_on_has_piece(b, sep);
    if b.len() == 0 {
        assert(a.push(c) + b =~= a.push(c));
        assert(a.push(c).drop_last() =~= a);
        assert(split_on(a, sep) + split_on(b, sep) =~= split_on(a, sep).push(Seq::empty()));
    } else {
        let whole = a.push(c) + b;
        let front = b.drop_last();
        lemma_split_on_around(a, c, front, sep);
        lemma_split_on_has_piece(front, sep);
        assert(whole.drop_last() =~= a.push(c) + front);
        assert(whole.last() == b.last());
        assert(split_on(whole, sep) =~= split_on(a, sep) + split_on(b, sep));
    }
}

/// No separating character stands in a piece.
pub proof fn lemma_piece_has_no_break(text: Seq<char>, sep: spec_fn(char) -> bool, k: int, i: int)
    requires
        0 <= k < split_on(text, sep).len(),
        0 <= i < split_on(text, sep)[k].len(),
    ensures
        !sep(split_on(text, sep)[k][i]),
    decreases text.len(),
{
    if text.len() > 0 {
        let front = text.drop_last();
        let pieces = split_on(front, sep);
        lemma_split_on_has_piece(front, sep);
        if k < pieces.len() && i < pieces[k].len() {
            lemma_piece_has_no_break(front, sep, k, i);
        }
    }
}

/// A text without a separating character adds to the last piece of what stands before it.
pub proof fn lemma_split_on_append(a: Seq<char>, b: Seq<char>, sep: spec_fn(char) -> bool)
    requires
        forall|i: int| 0 <= i < b.len() ==> !sep(#[trigger] b[i]),
    ensures
        split_on(a + b, sep) == split_on(a, sep).drop_last().push(split_on(a, sep).last() + b),
    decreases b.len(),
{
    lemma_split_on_has_piece(a, sep);
    let before = split_on(a, sep);
    if b.len() == 0 {
        assert(a + b =~= a);
        assert(before.last() + b =~= before.last());
        assert(before.drop_last().push(before.last()) =~= before);
    } else {
        let front = b.drop_last();
        assert forall|i: int| 0 <= i < front.len() implies !sep(#[trigger] front[i]) by {
            assert(front[i] == b[i]);
        }
        lemma_split_on_append(a, front, sep);
        assert((a + b).drop_last() =~= a + front);
        assert((a + b).last() == b.last());
        assert(!sep(b[b.len() - 1]));
        assert((before.last() + front).push(b.last()) =~= before.last() + b);
        assert(before.drop_last().push(before.last() + front).drop_last() =~= before.drop_last());
    }
}

/// What is added to a text leaves its last piece where it is, if longer.
pub proof fn lemma_split_on_extends(a: Seq<char>, b: Seq<char>, sep: spec_fn(char) -> bool)
    ensures
        ({
            let last = split_on(a, sep).len() - 1;
            &&& 0 <= last < split_on(a + b, sep).len()
            &&& split_on(a, sep)[last].is_prefix_of(split_on(a + b, sep)[last])
        }),
    decreases b.len(),
{
    lemma_split_on_has_piece(a, sep);
    let pieces = split_on(a, sep);
    let last = pieces.len() - 1;
    if b.len() == 0 {
        assert(a + b =~= a);
        assert(pieces[last].is_prefix_of(pieces[last]));
    } else {
        let front = b.drop_last();
        lemma_split_on_extends(a, front, sep);
        assert((a + b).drop_last() =~= a + front);
        let now = split_on(a + b, sep);
        let before = split_on(a + front, sep);
        lemma_split_on_has_piece(a + front, sep);
        assert(before[last].is_prefix_of(now[last]));
        assert(pieces[last] =~= now[last].subrange(0, pieces[last].len() as int));
    }
}

/// A text without a separating character that stands in another stands in one of its pieces.
#[verifier::spinoff_prover]
#[verifier::rlimit(40)]
pub proof fn lemma_infix_in_piece(needle: Seq<char>, text: Seq<char>, sep: spec_fn(char) -> bool) -> (k: int)
    requires
        is_infix(needle, text),
        forall|i: int| 0 <= i < needle.len() ==> !sep(#[trigger] needle[i]),
    ensures
        0 <= k < split_on(text, sep).len(),
        is_infix(needle, split_on(text, sep)[k]),
{
    let at = choose|i: int| stands_at(needle, text, i);
    let a = text.take(at);
    let b = text.skip(at + needle.len());
    lemma_split_on_has_piece(a, sep);
    lemma_split_on_append(a, needle, sep);
    lemma_split_on_extends(a + needle, b, sep);
    assert(a + needle + b =~= text) by {
        assert forall|j: int| 0 <= j < text.len() implies (a + needle + b)[j] == text[j] by {
            if at <= j < at + needle.len() {
                assert(text.subrange(at, at + needle.len())[j - at] == text[j]);
            }
        }
    }
    let k = split_on(a + needle, sep).len() - 1;
    let short = split_on(a + needle, sep)[k];
    let piece = split_on(text, sep)[k];
    let from = split_on(a, sep).last().len() as int;
    assert(short =~= split_on(a, sep).last() + needle);
    assert(piece.subrange(from, from + needle.len()) =~= needle) by {
        assert forall|j: int| 0 <= j < needle.len() implies piece[from + j] == needle[j] by {
            assert(piece.subrange(0, short.len() as int)[from + j] == short[from + j]);
        }
    }
    assert(stands_at(needle, piece, from));
    k
}

/// A piece of a text stands in it.
pub proof fn lemma_piece_is_infix(text: Seq<char>, sep: spec_fn(char) -> bool, k: int)
    requires
        0 <= k < split_on(text, sep).len(),
    ensures
        is_infix(split_on(text, sep)[k], text),
    decreases text.len(),
{
    let piece = split_on(text, sep)[k];
    if text.len() == 0 {
        assert(text.subrange(0, 0) =~= piece);
        assert(stands_at(piece, text, 0));
    } else {
        let front = text.drop_last();
        let pieces = split_on(front, sep);
        lemma_split_on_has_piece(front, sep);
        if k < pieces.len() && piece == pieces[k] {
            lemma_piece_is_infix(front, sep, k);
            let i = choose|i: int| stands_at(piece, front, i);
            assert(text.subrange(i, i + piece.len()) =~= front.subrange(i, i + piece.len()));
            assert(stands_at(piece, text, i));
        } else {
            lemma_last_piece_is_suffix(text, sep);
            assert(stands_at(piece, text, text.len() - piece.len()));
        }
    }
}

/// A text ends with its last piece.
proof fn lemma_last_piece_is_suffix(text: Seq<char>, sep: spec_fn(char) -> bool)
    ensures
        split_on(text, sep).last().is_suffix_of(text),
    decreases text.len(),
{
    if text.len() > 0 {
        let front = text.drop_last();
        lemma_split_on_has_piece(front, sep);
        lemma_last_piece_is_suffix(front, sep);
        let old_last = split_on(front, sep).last();
        let last = split_on(text, sep).last();
        let n = text.len() as int;
        if !sep(text.last()) {
            assert(last =~= text.subrange(n - last.len(), n)) by {
                assert forall|j: int| 0 <= j < last.len() - 1 implies last[j] == text[n - last.len() + j] by {
                    assert(front.subrange(n - 1 - old_last.len(), n - 1)[j] == old_last[j]);
                }
            }
        }
    }
}

/// What stands in a text that stands in another stands in that one too.
pub proof fn lemma_infix_of_infix(a: Seq<char>, b: Seq<char>, c: Seq<char>)
    requires
        is_infix(a, b),
        is_infix(b, c),
    ensures
        is_infix(a, c),
{
    let i = choose|i: int| stands_at(a, b, i);
    let j = choose|j: int| stands_at(b, c, j);
    assert(c.subrange(i + j, i + j + a.len()) =~= a) by {
        assert forall|m: int| 0 <= m < a.len() implies c[i + j + m] == a[m] by {
            assert(b.subrange(i, i + a.len())[m] == a[m]);
            assert(c.subrange(j, j + b.len())[i + m] == b[i + m]);
        }
    }
    assert(stands_at(a, c, i + j));
}

/// The pieces of `text` between the characters for which `sep` says yes.
pub(crate) fn split_where<F: Fn(char) -> bool>(
    text: &Vec<char>,
    sep: F,
    Ghost(picks): Ghost<spec_fn(char) -> bool>,
) -> (pieces: Vec<String>)
    requires
        forall|c: char| call_requires(sep, (c,)),
        forall|c: char, yes: bool| call_ensures(sep, (c,), yes) ==> yes == picks(c),
    ensures
        texts(pieces@) == split_on(text@, picks),
{
    let mut done: Vec<String> = Vec::new();
    let mut piece = String::new();
    let mut i: usize = 0;
    assert(texts(done@).push(piece@) =~= split_on(text@.take(0), picks));
    while i < text.len()
        invariant
            forall|c: char| call_requires(sep, (c,)),
            forall|c: char, yes: bool| call_ensures(sep, (c,), yes) ==> yes == picks(c),
            i <= text@.len(),
            texts(done@).push(piece@) == split_on(text@.take(i as int), picks),
        decreases text@.len() - i,
    {
        let ghost before = texts(done@).push(piece@);
        let c = text[i];
        proof {
            assert(text@.take(i + 1).drop_last() =~= text@.take(i as int));
            assert(before.drop_last() =~= texts(done@));
        }
        if sep(c) {
            done.push(piece);
            piece = String::new();
            assert(texts(done@) =~= before);
        } else {
            piece.push(c);
        }
        i += 1;
        assert(texts(done@).push(piece@) =~= split_on(text@.take(i as int), picks));
    }
    assert(text@.take(i as int) =~= text@);
    let ghost before = texts(done@).push(piece@);
    done.push(piece);
    assert(texts(done@) =~= before);
    done
}

/// Picks out the line feed.
pub open spec fn line_feed() -> spec_fn(char) -> bool {
    |c: char| c == '\n'
}

fn is_line_feed(c: char) -> (yes: bool)
    ensures
        yes == line_feed()(c),
{
    c == '\n'
}

/// `piece` without the carriage return that may end it.
pub open spec fn without_return(piece: Seq<char>) -> Seq<char> {
    if piece.len() > 0 && piece.last() == '\r' {
        piece.drop_last()
    } else {
        piece
    }
}

/// The lines of `text`. A line ends at a line feed or at a carriage return and a line feed,
/// neither of which belongs to the line; the last line may go without.
pub open spec fn lines(text: Seq<char>) -> Seq<Seq<char>> {
    let pieces = split_on(text, line_feed());
    let ended = Seq::new((pieces.len() - 1) as nat, |i: int| without_return(pieces[i]));
    if pieces.last().len() == 0 {
        ended
    } else {
        ended.push(pieces.last())
    }
}

/// The string `piece` without the carriage return that may end it.
fn strip_return(piece: &String) -> (line: String)
    ensures
        line@ == without_return(piece@),
{
    let chars = chars_of(piece.as_str());
    let n = chars.len();
    if n > 0 && chars[n - 1] == '\r' {
        assert(chars@.subrange(0, n - 1) =~= chars@.drop_last());
        string_of(&chars, 0, n - 1)
    } else {
        piece.clone()
    }
}

/// The lines of `text`.
pub fn lines_of(text: &str) -> (list: Vec<String>)
    ensures
        texts(list@) == lines(text@),
{
    let pieces = split_where(&chars_of(text), is_line_feed, Ghost(line_feed()));
    proof {
        lemma_split_on_has_piece(text@, line_feed());
    }
    let ghost all = split_on(text@, line_feed());
    assert(all.len() == pieces@.len());
    let last = pieces.len() - 1;
    let mut list: Vec<String> = Vec::new();
    let mut i: usize = 0;
    while i < last
        invariant
            i <= last,
            last == pieces@.len() - 1,
            all == texts(pieces@),
            texts(list@) == Seq::new(i as nat, |j: int| without_return(all[j])),
        decreases last - i,
    {
        let ghost before = texts(list@);
        let line = strip_return(&pieces[i]);
        assert(line@ == without_return(all[i as int]));
        list.push(line);
        i += 1;
        assert(texts(list@) =~= before.push(line@));
        assert(texts(list@) =~= Seq::new(i as nat, |j: int| without_return(all[j])));
    }
    assert(all.last() == pieces@[last as int]@);
    if !pieces[last].as_str().is_empty() {
        let ghost before = texts(list@);
        list.push(pieces[last].clone());
        assert(texts(list@) =~= before.push(all.last()));
    }
    list
}

/// `parts` one after the other with `glue` between neighbours.
pub open spec fn join(parts: Seq<Seq<char>>, glue: Seq<char>) -> Seq<char>
    decreases parts.len(),
{
    if parts.len() == 0 {
        Seq::empty()
    } else if parts.len() == 1 {
        parts[0]
    } else {
        join(parts.drop_last(), glue) + glue + parts.last()
    }
}

/// The pieces of a text between the occurrences of one character make up the text again when that
/// character is put back between them.
pub proof fn lemma_join_split(text: Seq<char>, c: char, sep: spec_fn(char) -> bool)
    requires
        forall|x: char| #[trigger] sep(x) <==> x == c,
    ensures
        join(split_on(text, sep), seq![c]) == text,
    decreases text.len(),
{
    lemma_split_on_has_piece(text, sep);
    if text.len() > 0 {
        let front = text.drop_last();
        let pieces = split_on(front, sep);
        lemma_split_on_has_piece(front, sep);
        lemma_join_split(front, c, sep);
        if sep(text.last()) {
            assert(split_on(text, sep).drop_last() =~= pieces);
            assert(join(split_on(text, sep), seq![c]) =~= text);
        } else {
            let now = split_on(text, sep);
            assert(now.drop_last() =~= pieces.drop_last());
            assert(now.last() =~= pieces.last().push(text.last()));
            if pieces.len() == 1 {
                assert(now[0] =~= text);
            } else {
                assert(join(now, seq![c]) =~= join(pieces, seq![c]).push(text.last()));
            }
            assert(front.push(text.last()) =~= text);
        }
    }
}

/// Texts without the character `c`, put together with `c` between them, fall apart at `c` into
/// the same texts.
pub proof fn lemma_split_join(parts: Seq<Seq<char>>, c: char, sep: spec_fn(char) -> bool)
    requires
        parts.len() > 0,
        forall|x: char| #[trigger] sep(x) <==> x == c,
        forall|k: int, i: int| 0 <= k < parts.len() && 0 <= i < parts[k].len() ==> #[trigger] parts[k][i] != c,
    ensures
        split_on(join(parts, seq![c]), sep) == parts,
    decreases parts.len(),
{
    let last = parts.last();
    assert forall|i: int| 0 <= i < last.len() implies !sep(#[trigger] last[i]) by {
        assert(parts[parts.len() - 1][i] != c);
    }
    if parts.len() == 1 {
        let none = Seq::<char>::empty();
        lemma_split_on_append(none, last, sep);
        assert(none + last =~= join(parts, seq![c]));
        assert(none + last =~= last);
        assert(split_on(none, sep).drop_last().push(none + last) =~= parts);
    } else {
        let front = parts.drop_last();
        assert forall|k: int, i: int| 0 <= k < front.len() && 0 <= i < front[k].len() implies #[trigger] front[k][i]
            != c by {
            assert(parts[k][i] != c);
        }
        lemma_split_join(front, c, sep);
        let head = join(front, seq![c]) + seq![c];
        assert(head.drop_last() =~= join(front, seq![c]));
        assert(head.last() == c);
        assert(sep(c));
        assert(split_on(head, sep) =~= front.push(Seq::empty()));
        lemma_split_on_append(head, last, sep);
        assert(Seq::<char>::empty() + last =~= last);
        assert(split_on(head, sep).drop_last() =~= front);
        assert(front.push(last) =~= parts);
    }
}

/// Parts put together are the first `k` of them put together and the others put together, with
/// the glue between.
pub proof fn lemma_join_cut(parts: Seq<Seq<char>>, glue: Seq<char>, k: int)
    requires
        0 < k < parts.len(),
    ensures
        join(parts, glue) == join(parts.take(k), glue) + glue + join(parts.skip(k), glue),
    decreases parts.len(),
{
    let front = parts.drop_last();
    if k == parts.len() - 1 {
        assert(parts.take(k) =~= front);
        assert(parts.skip(k)[0] == parts.last());
    } else {
        lemma_join_cut(front, glue, k);
        assert(front.take(k) =~= parts.take(k));
        assert(front.skip(k) =~= parts.skip(k).drop_last());
        assert(parts.skip(k).last() == parts.last());
        assert(join(parts, glue) =~= join(parts.take(k), glue) + glue + join(parts.skip(k), glue));
    }
}

/// The strings `parts[from..to]` one after the other with `glue` between neighbours.
pub fn join_range(parts: &Vec<String>, from: usize, to: usize, glue: &str) -> (text: String)
    requires
        from <= to <= parts@.len(),
    ensures
        text@ == join(texts(parts@).subrange(from as int, to as int), glue@),
{
    let mut text = String::new();
    let mut i: usize = from;
    assert(texts(parts@).subrange(from as int, from as int) =~= Seq::<Seq<char>>::empty());
    while i < to
        invariant
            from <= i <= to <= parts@.len(),
            text@ == join(texts(parts@).subrange(from as int, i as int), glue@),
        decreases to - i,
    {
        let ghost before = texts(parts@).subrange(from as int, i as int);
        if i > from {
            text.append(glue);
        }
        text.append(parts[i].as_str());
        i += 1;
        proof {
            let now = texts(parts@).subrange(from as int, i as int);
            assert(now.drop_last() =~= before);
            assert(now.last() == parts@[i - 1]@);
            if now.len() == 1 {
                assert(text@ =~= parts@[i - 1]@);
            }
        }
    }
    text
}

// ---------------------------------------------------------------------------------------------
// Letter case
// ---------------------------------------------------------------------------------------------

/// The lower case of `text`, as Unicode defines it.
pub uninterp spec fn lowercase(text: Seq<char>) -> Seq<char>;

/// `c` in lower case where it is one of the letters of ASCII, else `c` itself.
pub open spec fn ascii_lower(c: char) -> char {
    if 'A' <= c <= 'Z' {
        ((c as u8) + 32) as char
    } else {
        c
    }
}

/// `text` with the letters of ASCII in lower case.
pub open spec fn ascii_lowercase(text: Seq<char>) -> Seq<char> {
    Seq::new(text.len(), |i: int| ascii_lower(text[i]))
}

/// `c` in lower case where it is one of the letters of ASCII, else `c` itself.
fn lower_ascii(c: char) -> (lower: char)
    ensures
        lower == ascii_lower(c),
{
    if 'A' <= c && c <= 'Z' {
        ((c as u8) + 32) as char
    } else {
        c
    }
}

/// Whether two texts differ at most in the case of the letters of ASCII.
pub fn equal_but_for_ascii_case(a: &str, b: &str) -> (equal: bool)
    ensures
        equal == (ascii_lowercase(a@) == ascii_lowercase(b@)),
{
    let a_chars = chars_of(a);
    let b_chars = chars_of(b);
    if a_chars.len() != b_chars.len() {
        assert(ascii_lowercase(a@).len() != ascii_lowercase(b@).len());
        return false;
    }
    let mut i: usize = 0;
    while i < a_chars.len()
        invariant
            i <= a_chars@.len(),
            a_chars@ == a@,
            b_chars@ == b@,
            a_chars@.len() == b_chars@.len(),
            forall|j: int| 0 <= j < i ==> ascii_lower(a@[j]) == ascii_lower(b@[j]),
        decreases a_chars@.len() - i,
    {
        if lower_ascii(a_chars[i]) != lower_ascii(b_chars[i]) {
            assert(ascii_lowercase(a@)[i as int] != ascii_lowercase(b@)[i as int]);
            return false;
        }
        i += 1;
    }
    assert(ascii_lowercase(a@) =~= ascii_lowercase(b@));
    true
}

/// The letters of ASCII are put in lower case piece by piece: no line feed comes or goes.
proof fn lemma_ascii_lowercase_of_pieces(text: Seq<char>)
    ensures
        ({
            let pieces = split_on(text, line_feed());
            split_on(ascii_lowercase(text), line_feed()) == Seq::new(pieces.len(), |i: int| ascii_lowercase(pieces[i]))
        }),
    decreases text.len(),
{
    let pieces = split_on(text, line_feed());
    let lowered = Seq::new(pieces.len(), |i: int| ascii_lowercase(pieces[i]));
    if text.len() == 0 {
        assert(split_on(ascii_lowercase(text), line_feed()) =~= seq![Seq::<char>::empty()]);
        assert(lowered[0] =~= Seq::<char>::empty());
        assert(lowered =~= seq![Seq::<char>::empty()]);
    } else {
        let front = text.drop_last();
        lemma_ascii_lowercase_of_pieces(front);
        lemma_split_on_has_piece(front, line_feed());
        let before = split_on(front, line_feed());
        assert(ascii_lowercase(text).drop_last() =~= ascii_lowercase(front));
        let c = text.last();
        assert(ascii_lowercase(text).last() == ascii_lower(c));
        let lowered_before = split_on(ascii_lowercase(front), line_feed());
        if c == '\n' {
            assert(lowered.last() =~= Seq::<char>::empty());
            assert(lowered =~= lowered_before.push(Seq::empty()));
        } else {
            assert(lowered.last() =~= ascii_lowercase(before.last()).push(ascii_lower(c)));
            assert(lowered =~= lowered_before.drop_last().push(lowered_before.last().push(ascii_lower(c))));
        }
    }
}

/// The letters of ASCII are put in lower case line by line.
pub proof fn lemma_ascii_lowercase_of_lines(text: Seq<char>)
    ensures
        lines(ascii_lowercase(text)) == Seq::new(lines(text).len(), |i: int| ascii_lowercase(lines(text)[i])),
{
    lemma_ascii_lowercase_of_pieces(text);
    lemma_split_on_has_piece(text, line_feed());
    let pieces = split_on(text, line_feed());
    let lowered = split_on(ascii_lowercase(text), line_feed());
    assert forall|i: int| 0 <= i < pieces.len() implies without_return(lowered[i]) == ascii_lowercase(
        without_return(#[trigger] pieces[i]),
    ) by {
        let piece = pieces[i];
        if piece.len() > 0 {
            assert(ascii_lowercase(piece).last() == ascii_lower(piece.last()));
            assert(ascii_lowercase(piece).drop_last() =~= ascii_lowercase(piece.drop_last()));
        }
    }
    assert(lowered.last().len() == pieces.last().len());
    assert(lines(ascii_lowercase(text)) =~= Seq::new(lines(text).len(), |i: int| ascii_lowercase(lines(text)[i])));
}

/// In `text` only the letters of ASCII have a lower case.
pub open spec fn lowers_as_ascii(text: Seq<char>) -> bool {
    lowercase(text) == ascii_lowercase(text)
}

/// In each line of `text` only the letters of ASCII have a lower case.
pub open spec fn lines_lower_as_ascii(text: Seq<char>) -> bool {
    forall|i: int| 0 <= i < lines(text).len() ==> lowers_as_ascii(#[trigger] lines(text)[i])
}

/// What stands in a text in ASCII is in ASCII.
proof fn lemma_infix_of_ascii(needle: Seq<char>, text: Seq<char>)
    requires
        is_infix(needle, text),
        is_ascii_chars(text),
    ensures
        is_ascii_chars(needle),
{
    let at = choose|i: int| stands_at(needle, text, i);
    assert forall|i: int| 0 <= i < needle.len() implies '\0' <= #[trigger] needle[i] <= '\u{7f}' by {
        assert(needle[i] == text.subrange(at, at + needle.len())[i]);
        assert(needle[i] == text[at + i]);
    }
}

/// The lines of a text in ASCII are in ASCII.
pub proof fn lemma_lines_of_ascii(text: Seq<char>)
    requires
        is_ascii_chars(text),
    ensures
        forall|k: int| 0 <= k < lines(text).len() ==> is_ascii_chars(#[trigger] lines(text)[k]),
{
    let pieces = split_on(text, line_feed());
    assert forall|k: int| 0 <= k < lines(text).len() implies is_ascii_chars(#[trigger] lines(text)[k]) by {
        lemma_split_on_has_piece(text, line_feed());
        lemma_piece_is_infix(text, line_feed(), k);
        lemma_infix_of_ascii(pieces[k], text);
        let line = lines(text)[k];
        assert(line == pieces[k] || line == pieces[k].drop_last());
        assert forall|i: int| 0 <= i < line.len() implies '\0' <= #[trigger] line[i] <= '\u{7f}' by {
            assert(line[i] == pieces[k][i]);
        }
    }
}

/// `str::to_lowercase` returns the lower case of the text as Unicode defines it, which for a text
/// in ASCII takes the letters `A` to `Z` to `a` to `z` and nothing else.
pub assume_specification[ str::to_lowercase ](s: &str) -> (lower: String)
    ensures
        lower@ == lowercase(s@),
        is_ascii_chars(s@) ==> lower@ == ascii_lowercase(s@),
;

// ---------------------------------------------------------------------------------------------
// Words
// ---------------------------------------------------------------------------------------------

/// Whether `c` is alphanumeric: a letter or a numeric character of Unicode.
pub uninterp spec fn alphanumeric(c: char) -> bool;

/// `char::is_alphanumeric` answers by the Unicode character database, and takes of the ASCII
/// characters the letters and the digits.
pub assume_specification[ char::is_alphanumeric ](c: char) -> (yes: bool)
    ensures
        yes == alphanumeric(c),
        c <= '\x7f' ==> yes == ('a' <= c <= 'z' || 'A' <= c <= 'Z' || '0' <= c <= '9'),
;

/// Picks out what cannot be part of a search term: all but the alphanumeric characters and `_`.
pub open spec fn term_break() -> spec_fn(char) -> bool {
    |c: char| !alphanumeric(c) && c != '_'
}

fn is_term_break(c: char) -> (yes: bool)
    ensures
        yes == term_break()(c),
{
    !c.is_alphanumeric() && c != '_'
}

/// Picks out the characters with the White_Space property of Unicode.
pub open spec fn white_space() -> spec_fn(char) -> bool {
    |c: char|
        {
            ||| '\t' <= c <= '\r'
            ||| c == ' '
            ||| c == '\u{85}'
            ||| c == '\u{a0}'
            ||| c == '\u{1680}'
            ||| '\u{2000}' <= c <= '\u{200a}'
            ||| c == '\u{2028}'
            ||| c == '\u{2029}'
            ||| c == '\u{202f}'
            ||| c == '\u{205f}'
            ||| c == '\u{3000}'
        }
}

fn is_white_space(c: char) -> (yes: bool)
    ensures
        yes == white_space()(c),
{
    ('\t' <= c && c <= '\r') || c == ' ' || c == '\u{85}' || c == '\u{a0}' || c == '\u{1680}' || (
    '\u{2000}' <= c && c <= '\u{200a}') || c == '\u{2028}' || c == '\u{2029}' || c == '\u{202f}'
        || c == '\u{205f}' || c == '\u{3000}'
}

/// Holds of the texts that are not empty.
pub open spec fn not_empty() -> spec_fn(Seq<char>) -> bool {
    |piece: Seq<char>| piece.len() > 0
}

/// Holds of the texts of more than one byte in UTF-8.
pub open spec fn over_one_byte() -> spec_fn(Seq<char>) -> bool {
    |piece: Seq<char>| encode_utf8(piece).len() > 1
}

/// The words of `text`: its pieces between the characters that `sep` picks out, but for the
/// empty ones.
pub open spec fn words(text: Seq<char>, sep: spec_fn(char) -> bool) -> Seq<Seq<char>> {
    split_on(text, sep).filter(not_empty())
}

/// A text without a separator is its only word.
pub proof fn lemma_single_word(text: Seq<char>, sep: spec_fn(char) -> bool)
    requires
        text.len() > 0,
        forall|i: int| 0 <= i < text.len() ==> !sep(#[trigger] text[i]),
    ensures
        words(text, sep) == seq![text],
{
    lemma_single_piece(text, sep);
    reveal(Seq::filter);
    assert(seq![text].drop_last() =~= Seq::<Seq<char>>::empty());
    assert(seq![text].drop_last().filter(not_empty()) =~= Seq::<Seq<char>>::empty());
    assert(seq![text].filter(not_empty()) =~= seq![text]);
}

/// A text without a separator is its only piece.
proof fn lemma_single_piece(text: Seq<char>, sep: spec_fn(char) -> bool)
    requires
        forall|i: int| 0 <= i < text.len() ==> !sep(#[trigger] text[i]),
    ensures
        split_on(text, sep) == seq![text],
    decreases text.len(),
{
    if text.len() > 0 {
        lemma_single_piece(text.drop_last(), sep);
        assert(text.drop_last().push(text.last()) =~= text);
        assert(!sep(text.last()));
    } else {
        assert(text =~= Seq::empty());
    }
    assert(split_on(text, sep) =~= seq![text]);
}

/// The terms of a query by which an index is asked: runs of alphanumeric characters and `_`.
pub open spec fn search_terms(query: Seq<char>) -> Seq<Seq<char>> {
    words(query, term_break())
}

/// The search terms of more than one byte. In a regular expression a single character is likely
/// to be syntax.
pub open spec fn long_search_terms(pattern: Seq<char>) -> Seq<Seq<char>> {
    split_on(pattern, term_break()).filter(over_one_byte())
}

fn is_not_empty(piece: &String) -> (yes: bool)
    ensures
        yes == not_empty()(piece@),
{
    !piece.as_str().is_empty()
}

fn is_over_one_byte(piece: &String) -> (yes: bool)
    ensures
        yes == over_one_byte()(piece@),
{
    piece.as_str().as_bytes().len() > 1
}

/// The strings of `pieces` for which `test` says yes, in their order.
pub(crate) fn keep_where<F: Fn(&String) -> bool>(
    pieces: &Vec<String>,
    test: F,
    Ghost(holds): Ghost<spec_fn(Seq<char>) -> bool>,
) -> (kept: Vec<String>)
    requires
        forall|s: &String| call_requires(test, (s,)),
        forall|s: &String, yes: bool| call_ensures(test, (s,), yes) ==> yes == holds(s@),
    ensures
        texts(kept@) == texts(pieces@).filter(holds),
{
    let mut kept: Vec<String> = Vec::new();
    let mut i: usize = 0;
    let ghost all = texts(pieces@);
    reveal(Seq::filter);
    assert(texts(kept@) =~= all.take(0).filter(holds));
    while i < pieces.len()
        invariant
            forall|s: &String| call_requires(test, (s,)),
            forall|s: &String, yes: bool| call_ensures(test, (s,), yes) ==> yes == holds(s@),
            i <= pieces@.len(),
            all == texts(pieces@),
            texts(kept@) == all.take(i as int).filter(holds),
        decreases pieces@.len() - i,
    {
        let ghost before = texts(kept@);
        proof {
            reveal(Seq::filter);
            assert(all.take(i + 1).drop_last() =~= all.take(i as int));
            assert(all.take(i + 1).last() == pieces@[i as int]@);
        }
        if test(&pieces[i]) {
            kept.push(pieces[i].clone());
            assert(texts(kept@) =~= before.push(all[i as int]));
        }
        i += 1;
    }
    assert(all.take(i as int) =~= all);
    kept
}

/// The words of `text` between white space.
pub fn white_space_words(text: &str) -> (list: Vec<String>)
    ensures
        texts(list@) == words(text@, white_space()),
{
    let pieces = split_where(&chars_of(text), is_white_space, Ghost(white_space()));
    keep_where(&pieces, is_not_empty, Ghost(not_empty()))
}

/// The search terms of `query`.
pub fn search_terms_of(query: &str) -> (list: Vec<String>)
    ensures
        texts(list@) == search_terms(query@),
{
    let pieces = split_where(&chars_of(query), is_term_break, Ghost(term_break()));
    keep_where(&pieces, is_not_empty, Ghost(not_empty()))
}

/// The search terms of `pattern` with more than one byte.
pub fn long_search_terms_of(pattern: &str) -> (list: Vec<String>)
    ensures
        texts(list@) == long_search_terms(pattern@),
{
    let pieces = split_where(&chars_of(pattern), is_term_break, Ghost(term_break()));
    keep_where(&pieces, is_over_one_byte, Ghost(over_one_byte()))
}

// ---------------------------------------------------------------------------------------------
// Laws
// ---------------------------------------------------------------------------------------------

/// A text stands in another exactly where the other is that text with something, or nothing, before
/// and behind it.
pub proof fn law_infix_has_text_around(needle: Seq<char>, text: Seq<char>)
    ensures
        is_infix(needle, text) <==> exists|before: Seq<char>, after: Seq<char>|
            text == #[trigger] (before + needle + after),
{
    if is_infix(needle, text) {
        let i = choose|i: int| stands_at(needle, text, i);
        let before = text.take(i);
        let after = text.skip(i + needle.len());
        assert forall|k: int| 0 <= k < text.len() implies text[k] == (before + needle + after)[k] by {
            if i <= k < i + needle.len() {
                assert(text.subrange(i, i + needle.len())[k - i] == text[k]);
            }
        }
        assert(text =~= before + needle + after);
    }
    assert forall|before: Seq<char>, after: Seq<char>|
        text == #[trigger] (before + needle + after) implies is_infix(needle, text) by {
        let i = before.len() as int;
        assert(text.subrange(i, i + needle.len()) =~= needle);
        assert(stands_at(needle, text, i));
    }
}

/// A text stands in another from an index on where it has the characters that the other has there.
pub proof fn law_text_stands_where_its_characters_do(needle: Seq<char>, text: Seq<char>, i: int)
    ensures
        stands_at(needle, text, i) <==> 0 <= i && i + needle.len() <= text.len() && forall|j: int|
            0 <= j < needle.len() ==> text[i + j] == #[trigger] needle[j],
{
    if stands_at(needle, text, i) {
        assert forall|j: int| 0 <= j < needle.len() implies text[i + j] == #[trigger] needle[j] by {
            assert(text.subrange(i, i + needle.len())[j] == text[i + j]);
        }
    }
    if 0 <= i && i + needle.len() <= text.len() && forall|j: int|
        0 <= j < needle.len() ==> text[i + j] == #[trigger] needle[j] {
        assert(text.subrange(i, i + needle.len()) =~= needle);
    }
}

/// A text without a separating character is one piece, and a separating character ends a piece.
pub proof fn law_pieces_end_at_separators(
    piece: Seq<char>,
    c: char,
    rest: Seq<char>,
    sep: spec_fn(char) -> bool,
)
    requires
        forall|i: int| 0 <= i < piece.len() ==> !sep(#[trigger] piece[i]),
        sep(c),
    ensures
        split_on(piece, sep) == seq![piece],
        split_on(piece.push(c) + rest, sep) == seq![piece] + split_on(rest, sep),
{
    lemma_single_piece(piece, sep);
    lemma_split_on_around(piece, c, rest, sep);
}

/// The lines of a text, one by one from the first: what stands before a line feed is a line, without
/// a carriage return right before the line feed; what stands behind the last line feed is a line if
/// it is not empty, and keeps all its characters.
pub proof fn law_lines_end_at_line_feeds(line: Seq<char>, rest: Seq<char>)
    requires
        !line.contains('\n'),
    ensures
        lines(Seq::<char>::empty()) == Seq::<Seq<char>>::empty(),
        line.len() > 0 ==> lines(line) == seq![line],
        lines(line.push('\n') + rest) == seq![
            if line.len() > 0 && line.last() == '\r' { line.drop_last() } else { line },
        ] + lines(rest),
{
    let none = Seq::<char>::empty();
    assert forall|i: int| 0 <= i < line.len() implies !line_feed()(#[trigger] line[i]) by {
        assert(line.contains(line[i]));
    }
    law_pieces_end_at_separators(line, '\n', rest, line_feed());
    lemma_split_on_has_piece(rest, line_feed());
    assert(split_on(none, line_feed()) =~= seq![none]);
    assert(lines(none) =~= Seq::<Seq<char>>::empty());
    if line.len() > 0 {
        assert(lines(line) =~= seq![line]);
    }
    let whole = split_on(line.push('\n') + rest, line_feed());
    let tail = split_on(rest, line_feed());
    assert(whole.last() == tail.last());
    assert(without_return(line) == (if line.len() > 0 && line.last() == '\r' { line.drop_last() } else { line }));
    assert(lines(line.push('\n') + rest) =~= seq![without_return(line)] + lines(rest));
}

/// Parts are put together from the first on, with the glue between neighbours and nowhere else.
pub proof fn law_glue_stands_between_parts(part: Seq<char>, rest: Seq<Seq<char>>, glue: Seq<char>)
    ensures
        join(Seq::<Seq<char>>::empty(), glue) == Seq::<char>::empty(),
        join(seq![part], glue) == part,
        rest.len() > 0 ==> join(seq![part] + rest, glue) == part + glue + join(rest, glue),
{
    if rest.len() > 0 {
        let all = seq![part] + rest;
        lemma_join_cut(all, glue, 1);
        assert(all.take(1) =~= seq![part]);
        assert(all.skip(1) =~= rest);
    }
}

/// Lower case in ASCII takes `A` to `Z` to the letters 32 places on and leaves everything else, in
/// the same places.
pub proof fn law_ascii_lowercase_goes_by_characters(text: Seq<char>, i: int)
    ensures
        ascii_lowercase(text).len() == text.len(),
        0 <= i < text.len() && 'A' <= text[i] <= 'Z' ==> ascii_lowercase(text)[i] as int == text[i] as int + 32,
        0 <= i < text.len() && !('A' <= text[i] <= 'Z') ==> ascii_lowercase(text)[i] == text[i],
{
}

/// Two characters are the same, or the same letter of ASCII in either case.
spec fn same_but_for_ascii_case(a: char, b: char) -> bool {
    ||| a == b
    ||| 'a' <= a <= 'z' && b as int + 32 == a as int
    ||| 'a' <= b <= 'z' && a as int + 32 == b as int
}

/// Texts have the same lower case in ASCII exactly where they are equally long and have at each
/// place the same character, but for the case of letters of ASCII.
pub proof fn law_ascii_case_is_all_that_differs(a: Seq<char>, b: Seq<char>)
    ensures
        ascii_lowercase(a) == ascii_lowercase(b) <==> a.len() == b.len() && forall|i: int|
            0 <= i < a.len() ==> {
                ||| #[trigger] a[i] == b[i]
                ||| 'a' <= a[i] <= 'z' && b[i] as int + 32 == a[i] as int
                ||| 'a' <= b[i] <= 'z' && a[i] as int + 32 == b[i] as int
            },
{
    if ascii_lowercase(a) == ascii_lowercase(b) {
        assert(ascii_lowercase(a).len() == ascii_lowercase(b).len());
        assert forall|i: int| 0 <= i < a.len() implies same_but_for_ascii_case(#[trigger] a[i], b[i]) by {
            assert(ascii_lowercase(a)[i] == ascii_lowercase(b)[i]);
            law_ascii_lowercase_goes_by_characters(a, i);
            law_ascii_lowercase_goes_by_characters(b, i);
        }
    }
    if a.len() == b.len() && forall|i: int|
        0 <= i < a.len() ==> same_but_for_ascii_case(#[trigger] a[i], b[i]) {
        assert forall|i: int| 0 <= i < a.len() implies ascii_lowercase(a)[i] == ascii_lowercase(b)[i] by {
            assert(same_but_for_ascii_case(a[i], b[i]));
            law_ascii_lowercase_goes_by_characters(a, i);
            law_ascii_lowercase_goes_by_characters(b, i);
        }
        assert(ascii_lowercase(a) =~= ascii_lowercase(b));
    }
}

proof fn lemma_filter_of_one<A>(item: A, rest: Seq<A>, holds: spec_fn(A) -> bool)
    ensures
        seq![item].filter(holds) == (if holds(item) { seq![item] } else { Seq::<A>::empty() }),
        (seq![item] + rest).filter(holds) == (if holds(item) { seq![item] } else { Seq::<A>::empty() })
            + rest.filter(holds),
{
    Seq::filter_distributes_over_add(seq![item], rest, holds);
    reveal_with_fuel(Seq::filter, 2);
    assert(seq![item].drop_last() =~= Seq::<A>::empty());
    assert(seq![item].filter(holds) =~= (if holds(item) { seq![item] } else { Seq::<A>::empty() }));
}

/// The words of a text, one by one from the first: what stands before a separating character is a
/// word if it is not empty.
pub proof fn law_words_end_at_separators(word: Seq<char>, c: char, rest: Seq<char>, sep: spec_fn(char) -> bool)
    requires
        forall|i: int| 0 <= i < word.len() ==> !sep(#[trigger] word[i]),
        sep(c),
    ensures
        words(word, sep) == (if word.len() > 0 { seq![word] } else { Seq::<Seq<char>>::empty() }),
        words(word.push(c) + rest, sep) == (if word.len() > 0 { seq![word] } else { Seq::<Seq<char>>::empty() })
            + words(rest, sep),
{
    law_pieces_end_at_separators(word, c, rest, sep);
    lemma_filter_of_one(word, split_on(rest, sep), not_empty());
}

/// The search terms of a query, one by one from the first: they are the longest runs of alphanumeric
/// characters and `_`. Of an expression, those of one byte are left out.
pub proof fn law_search_terms_are_the_longest_runs(term: Seq<char>, c: char, rest: Seq<char>)
    requires
        forall|i: int| 0 <= i < term.len() ==> alphanumeric(#[trigger] term[i]) || term[i] == '_',
        !alphanumeric(c),
        c != '_',
    ensures
        search_terms(term) == (if term.len() > 0 { seq![term] } else { Seq::<Seq<char>>::empty() }),
        search_terms(term.push(c) + rest) == search_terms(term) + search_terms(rest),
        long_search_terms(term) == (if encode_utf8(term).len() >= 2 {
            seq![term]
        } else {
            Seq::<Seq<char>>::empty()
        }),
        long_search_terms(term.push(c) + rest) == long_search_terms(term) + long_search_terms(rest),
{
    assert forall|i: int| 0 <= i < term.len() implies !term_break()(#[trigger] term[i]) by {}
    law_words_end_at_separators(term, c, rest, term_break());
    law_pieces_end_at_separators(term, c, rest, term_break());
    lemma_filter_of_one(term, split_on(rest, term_break()), over_one_byte());
}

/// The words of a query are what stands between white space: tabs, line ends, spaces and the other
/// characters with that property.
pub proof fn law_white_space_is_that_of_unicode(c: char)
    ensures
        white_space()(c) <==> seq![
            '\u{9}', '\u{a}', '\u{b}', '\u{c}', '\u{d}', ' ', '\u{85}', '\u{a0}', '\u{1680}', '\u{2000}', '\u{2001}',
            '\u{2002}', '\u{2003}', '\u{2004}', '\u{2005}', '\u{2006}', '\u{2007}', '\u{2008}', '\u{2009}', '\u{200a}',
            '\u{2028}', '\u{2029}', '\u{202f}', '\u{205f}', '\u{3000}',
        ].contains(c),
{
    let all = seq![
        '\u{9}', '\u{a}', '\u{b}', '\u{c}', '\u{d}', ' ', '\u{85}', '\u{a0}', '\u{1680}', '\u{2000}', '\u{2001}',
        '\u{2002}', '\u{2003}', '\u{2004}', '\u{2005}', '\u{2006}', '\u{2007}', '\u{2008}', '\u{2009}', '\u{200a}',
        '\u{2028}', '\u{2029}', '\u{202f}', '\u{205f}', '\u{3000}',
    ];
    if white_space()(c) {
        assert(all[0] == '\u{9}' && all[1] == '\u{a}' && all[2] == '\u{b}' && all[3] == '\u{c}' && all[4] == '\u{d}');
        assert(all[5] == ' ' && all[6] == '\u{85}' && all[7] == '\u{a0}' && all[8] == '\u{1680}');
        assert(all[9] == '\u{2000}' && all[10] == '\u{2001}' && all[11] == '\u{2002}' && all[12] == '\u{2003}');
        assert(all[13] == '\u{2004}' && all[14] == '\u{2005}' && all[15] == '\u{2006}' && all[16] == '\u{2007}');
        assert(all[17] == '\u{2008}' && all[18] == '\u{2009}' && all[19] == '\u{200a}' && all[20] == '\u{2028}');
        assert(all[21] == '\u{2029}' && all[22] == '\u{202f}' && all[23] == '\u{205f}' && all[24] == '\u{3000}');
    }
}

/// The contents of a list of strings are those of each of them.
pub proof fn law_texts_are_the_contents(list: Seq<String>)
    ensures
        texts(list).len() == list.len(),
        forall|i: int| 0 <= i < list.len() ==> texts(list)[i] == (#[trigger] list[i])@,
{
}

} // verus!
