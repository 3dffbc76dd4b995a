//! What of a text goes into a semantic index, and in what portions.

use vstd::prelude::*;
use vstd::utf8::{encode_scalar, encode_utf8};

use crate::text::{chars_of, string_of};

verus! {

/// Shorter contents, in bytes, do not go into a semantic index.
pub const MIN_EMBED_BYTES: usize = 50;

/// Longer contents, in bytes, do not go into a semantic index.
pub const MAX_EMBED_BYTES: usize = 50_000;

/// How many bytes of a content go into a semantic index at most.
pub const EMBED_TRUNCATE: usize = 4096;

/// How many texts are embedded together.
pub const BATCH_SIZE: usize = 64;

/// A text under the name of its document.
#[derive(Debug)]
pub struct NamedText {
    pub doc_id: String,
    pub text: String,
}

/// A text under the name of its document, as a value.
pub struct NamedTextView {
    pub doc_id: Seq<char>,
    pub text: Seq<char>,
}

impl View for NamedText {
    type V = NamedTextView;

    open spec fn view(&self) -> NamedTextView {
        NamedTextView { doc_id: self.doc_id@, text: self.text@ }
    }
}

/// Named texts as values.
pub open spec fn named_views(list: Seq<NamedText>) -> Seq<NamedTextView> {
    Seq::new(list.len(), |i: int| list[i]@)
}

/// Batches of named texts as values.
pub open spec fn batch_views(batches: Seq<Vec<NamedText>>) -> Seq<Seq<NamedTextView>> {
    Seq::new(batches.len(), |i: int| named_views(batches[i]@))
}

/// How many bytes `c` takes in UTF-8.
pub open spec fn width(c: char) -> nat {
    encode_scalar(c as u32).len()
}

/// How many of the first characters of `text` take no more than `budget` bytes.
pub open spec fn fitting(text: Seq<char>, budget: int) -> nat
    decreases text.len(),
{
    if text.len() == 0 || width(text[0]) > budget {
        0
    } else {
        1 + fitting(text.drop_first(), budget - width(text[0]))
    }
}

/// What of `content` goes into a semantic index: as many of its first characters as the limit in
/// bytes allows.
pub open spec fn truncated(content: Seq<char>) -> Seq<char> {
    content.take(fitting(content, EMBED_TRUNCATE as int) as int)
}

/// `content` is neither too short nor too long for a semantic index.
pub open spec fn embeddable(content: Seq<char>) -> bool {
    MIN_EMBED_BYTES <= encode_utf8(content).len() <= MAX_EMBED_BYTES
}

/// What of `content` goes into a semantic index, if it does.
pub open spec fn embedded_text(content: Seq<char>) -> Option<Seq<char>> {
    if embeddable(content) {
        Some(truncated(content))
    } else {
        None
    }
}

/// How many bytes `c` takes in UTF-8.
fn width_of(c: char) -> (bytes: usize)
    ensures
        bytes == width(c),
        1 <= bytes <= 4,
{
    let code = c as u32;
    if code <= 0x7f {
        1
    } else if code <= 0x7ff {
        2
    } else if code <= 0xffff {
        3
    } else {
        4
    }
}

/// The first characters of `content` that take no more bytes than go into a semantic index.
pub fn truncate(content: &str) -> (text: String)
    ensures
        text@ == truncated(content@),
        text@.is_prefix_of(content@),
        encode_utf8(text@).len() <= 4096,
        text@.len() < content@.len() ==> encode_utf8(content@.take(text@.len() as int + 1)).len() > 4096,
{
    proof {
        law_truncated_is_the_longest_beginning(content@);
    }
    let chars = chars_of(content);
    let mut i: usize = 0;
    let mut left: usize = EMBED_TRUNCATE;
    let mut full = false;
    assert(chars@.skip(0) =~= chars@);
    while i < chars.len() && !full
        invariant
            i <= chars@.len(),
            fitting(chars@, EMBED_TRUNCATE as int) == i + fitting(chars@.skip(i as int), left as int),
            full ==> i < chars@.len() && width(chars@[i as int]) > left,
        decreases chars@.len() - i + (if full { 0int } else { 1int }),
    {
        let bytes = width_of(chars[i]);
        assert(chars@.skip(i as int)[0] == chars@[i as int]);
        assert(chars@.skip(i as int).drop_first() =~= chars@.skip(i + 1));
        if bytes > left {
            full = true;
        } else {
            left -= bytes;
            i += 1;
        }
    }
    proof {
        if full {
            assert(chars@.skip(i as int)[0] == chars@[i as int]);
        }
        assert(fitting(chars@, EMBED_TRUNCATE as int) == i);
        assert(chars@.subrange(0, i as int) =~= truncated(content@));
    }
    string_of(&chars, 0, i)
}

/// What of `content` goes into a semantic index, if it does.
pub fn embedding_text(content: &str) -> (text: Option<String>)
    ensures
        match text {
            Some(t) => embedded_text(content@) == Some(t@),
            None => embedded_text(content@) is None,
        },
        text is Some <==> 50 <= encode_utf8(content@).len() <= 50_000,
        text matches Some(t) ==> {
            &&& t@.is_prefix_of(content@)
            &&& encode_utf8(t@).len() <= 4096
            &&& t@.len() < content@.len() ==> encode_utf8(content@.take(t@.len() as int + 1)).len() > 4096
        },
{
    let len = content.as_bytes().len();
    if len >= MIN_EMBED_BYTES && len <= MAX_EMBED_BYTES {
        Some(truncate(content))
    } else {
        None
    }
}

/// Of documents with their contents, those that go into a semantic index, each with what of its
/// content does.
pub open spec fn suitable(docs: Seq<NamedTextView>) -> Seq<NamedTextView>
    decreases docs.len(),
{
    if docs.len() == 0 {
        Seq::empty()
    } else {
        let earlier = suitable(docs.drop_last());
        match embedded_text(docs.last().text) {
            Some(text) => earlier.push(NamedTextView { doc_id: docs.last().doc_id, text }),
            None => earlier,
        }
    }
}

/// Of documents with their contents, those that go into a semantic index, each with what of its
/// content does.
pub fn suitable_texts(docs: &Vec<NamedText>) -> (list: Vec<NamedText>)
    ensures
        named_views(list@) == suitable(named_views(docs@)),
        list@.len() <= docs@.len(),
{
    let ghost all = named_views(docs@);
    let mut list: Vec<NamedText> = Vec::new();
    let mut i: usize = 0;
    assert(named_views(list@) =~= suitable(all.take(0)));
    while i < docs.len()
        invariant
            i <= docs@.len(),
            all == named_views(docs@),
            named_views(list@) == suitable(all.take(i as int)),
            list@.len() <= i,
        decreases docs@.len() - i,
    {
        let ghost before = named_views(list@);
        proof {
            assert(all.take(i + 1).drop_last() =~= all.take(i as int));
            assert(all.take(i + 1).last() == docs@[i as int]@);
        }
        match embedding_text(docs[i].text.as_str()) {
            Some(text) => {
                let item = NamedText { doc_id: docs[i].doc_id.clone(), text };
                list.push(item);
                assert(named_views(list@) =~= before.push(item@));
            },
            None => {},
        }
        i += 1;
    }
    assert(all.take(i as int) =~= all);
    list
}

/// How many batches `count` texts fill.
pub open spec fn batch_count(count: nat) -> nat {
    (count + BATCH_SIZE - 1) as nat / BATCH_SIZE as nat
}

/// `items` in batches, all of them full but for the last.
pub open spec fn batched(items: Seq<NamedTextView>) -> Seq<Seq<NamedTextView>> {
    Seq::new(
        batch_count(items.len()),
        |i: int|
            items.subrange(
                i * BATCH_SIZE,
                if (i + 1) * BATCH_SIZE < items.len() {
                    (i + 1) * BATCH_SIZE
                } else {
                    items.len() as int
                },
            ),
    )
}

/// `items` in batches.
pub fn in_batches(items: Vec<NamedText>) -> (batches: Vec<Vec<NamedText>>)
    ensures
        batch_views(batches@) == batched(named_views(items@)),
{
    let ghost listed = items@;
    let ghost all = named_views(items@);
    let mut batches: Vec<Vec<NamedText>> = Vec::new();
    let mut batch: Vec<NamedText> = Vec::new();
    for item in it: items
        invariant
            it.seq() == listed,
            all == named_views(listed),
            batch@.len() < BATCH_SIZE,
            batches@.len() * BATCH_SIZE + batch@.len() == it.index(),
            named_views(batch@) == all.subrange(batches@.len() * BATCH_SIZE, it.index()),
            forall|k: int|
                0 <= k < batches@.len() ==> named_views(#[trigger] batches@[k]@) == all.subrange(
                    k * BATCH_SIZE,
                    (k + 1) * BATCH_SIZE,
                ),
    {
        let ghost before = named_views(batch@);
        let ghost done = batches@;
        batch.push(item);
        proof {
            let i = it.index();
            assert(item@ == all[i]);
            assert(named_views(batch@) =~= before.push(item@));
            assert(named_views(batch@) =~= all.subrange(done.len() * BATCH_SIZE, i + 1));
        }
        if batch.len() == BATCH_SIZE {
            batches.push(batch);
            batch = Vec::new();
            assert(named_views(batch@) =~= all.subrange(batches@.len() * BATCH_SIZE, it.index() + 1));
        }
    }
    if batch.len() > 0 {
        batches.push(batch);
    }
    assert(batch_views(batches@) =~= batched(all)) by {
        assert(batches@.len() == batch_count(all.len()));
        assert forall|k: int| 0 <= k < batches@.len() implies batch_views(batches@)[k] == batched(all)[k] by {
            assert(batch_views(batches@)[k] == named_views(batches@[k]@));
        }
    }
    batches
}

// ---------------------------------------------------------------------------------------------
// Laws
// ---------------------------------------------------------------------------------------------

proof fn lemma_utf8_first(text: Seq<char>, k: int)
    requires
        0 < k <= text.len(),
    ensures
        encode_utf8(text.take(k)).len() == width(text[0]) + encode_utf8(text.drop_first().take(k - 1)).len(),
{
    assert(text.take(k).drop_first() =~= text.drop_first().take(k - 1));
}

proof fn lemma_fitting(text: Seq<char>, budget: int)
    requires
        budget >= 0,
    ensures
        ({
            let k = fitting(text, budget) as int;
            &&& 0 <= k <= text.len()
            &&& encode_utf8(text.take(k)).len() <= budget
            &&& k < text.len() ==> encode_utf8(text.take(k + 1)).len() > budget
        }),
    decreases text.len(),
{
    assert(text.take(0) =~= Seq::<char>::empty());
    if text.len() > 0 {
        if width(text[0]) > budget {
            lemma_utf8_first(text, 1);
            assert(encode_utf8(text.drop_first().take(0)).len() >= 0);
        } else {
            let rest = text.drop_first();
            let left = budget - width(text[0]);
            lemma_fitting(rest, left);
            let k = fitting(rest, left) as int;
            lemma_utf8_first(text, k + 1);
            if k < rest.len() {
                lemma_utf8_first(text, k + 2);
            }
        }
    }
}

proof fn lemma_utf8_grows(text: Seq<char>, k: int)
    requires
        0 <= k <= text.len(),
    ensures
        encode_utf8(text.take(k)).len() <= encode_utf8(text).len(),
    decreases k,
{
    if k > 0 {
        lemma_utf8_first(text, k);
        assert(text.take(text.len() as int) =~= text);
        lemma_utf8_first(text, text.len() as int);
        assert(text.drop_first().take(text.len() - 1) =~= text.drop_first());
        lemma_utf8_grows(text.drop_first(), k - 1);
    }
}

/// What of a content goes into a semantic index is its beginning, within the limit in bytes: the
/// whole content where that is within the limit, and else as much as fits without splitting a
/// character.
pub proof fn law_truncated_is_the_longest_beginning(content: Seq<char>)
    ensures
        truncated(content).is_prefix_of(content),
        encode_utf8(truncated(content)).len() <= EMBED_TRUNCATE,
        encode_utf8(content).len() <= EMBED_TRUNCATE ==> truncated(content) == content,
        truncated(content).len() < content.len() ==> encode_utf8(
            content.take(truncated(content).len() as int + 1),
        ).len() > EMBED_TRUNCATE,
{
    lemma_fitting(content, EMBED_TRUNCATE as int);
    let k = fitting(content, EMBED_TRUNCATE as int) as int;
    if k < content.len() {
        lemma_utf8_grows(content, k + 1);
    } else {
        assert(content.take(k) =~= content);
    }
}

/// No text is lost or moved by batching: the text at `j` is in its batch at its place.
pub proof fn law_batches_hold_every_text(items: Seq<NamedTextView>, j: int)
    requires
        0 <= j < items.len(),
    ensures
        ({
            let batch = j / (BATCH_SIZE as int);
            let place = j % (BATCH_SIZE as int);
            &&& batch < batched(items).len()
            &&& place < batched(items)[batch].len()
            &&& batched(items)[batch][place] == items[j]
        }),
{
}

/// A batch is never empty nor over its size, and only the last may be short.
pub proof fn law_batch_sizes(items: Seq<NamedTextView>, i: int)
    requires
        0 <= i < batched(items).len(),
    ensures
        1 <= batched(items)[i].len() <= BATCH_SIZE,
        i < batched(items).len() - 1 ==> batched(items)[i].len() == BATCH_SIZE,
{
}

/// Every text that goes into a semantic index comes from a content that is neither too short nor
/// too long.
pub proof fn law_suitable_texts_are_embeddable(docs: Seq<NamedTextView>, k: int)
    requires
        0 <= k < suitable(docs).len(),
    ensures
        exists|i: int|
            0 <= i < docs.len() && embeddable((#[trigger] docs[i]).text) && suitable(docs)[k].doc_id == docs[i].doc_id
                && suitable(docs)[k].text == truncated(docs[i].text),
    decreases docs.len(),
{
    if docs.len() > 0 {
        let front = docs.drop_last();
        if k < suitable(front).len() {
            law_suitable_texts_are_embeddable(front, k);
            let i = choose|i: int|
                0 <= i < front.len() && embeddable((#[trigger] front[i]).text) && suitable(front)[k].doc_id
                    == front[i].doc_id && suitable(front)[k].text == truncated(front[i].text);
            assert(docs[i] == front[i]);
        } else {
            assert(embeddable(docs[docs.len() - 1].text));
        }
    }
}

/// Every content that is neither too short nor too long goes into a semantic index.
pub proof fn law_embeddable_contents_are_suitable(docs: Seq<NamedTextView>, i: int)
    requires
        0 <= i < docs.len(),
        embeddable(docs[i].text),
    ensures
        suitable(docs).contains(NamedTextView { doc_id: docs[i].doc_id, text: truncated(docs[i].text) }),
    decreases docs.len(),
{
    let item = NamedTextView { doc_id: docs[i].doc_id, text: truncated(docs[i].text) };
    let front = docs.drop_last();
    if i < docs.len() - 1 {
        law_embeddable_contents_are_suitable(front, i);
        let k = choose|k: int| 0 <= k < suitable(front).len() && suitable(front)[k] == item;
        assert(suitable(docs)[k] == item);
    } else {
        assert(suitable(docs)[suitable(docs).len() - 1] == item);
    }
}

/// A content goes into a semantic index exactly where it takes from 50 to 50000 bytes, whatever its
/// characters are. What goes in is its longest beginning of up to 4096 bytes.
pub proof fn law_size_decides_what_is_embedded(content: Seq<char>)
    ensures
        embedded_text(content) is Some <==> 50 <= encode_utf8(content).len() <= 50_000,
        embeddable(content) <==> 50 <= encode_utf8(content).len() <= 50_000,
        embedded_text(content) matches Some(text) ==> {
            &&& text.is_prefix_of(content)
            &&& encode_utf8(text).len() <= 4096
            &&& encode_utf8(content).len() <= 4096 ==> text == content
            &&& text.len() < content.len() ==> encode_utf8(content.take(text.len() as int + 1)).len() > 4096
        },
{
    law_truncated_is_the_longest_beginning(content);
}

/// Documents go into a semantic index one by one, under their names and in their order: each whose
/// content takes from 50 to 50000 bytes, and no other.
pub proof fn law_documents_are_chosen_one_by_one(docs: Seq<NamedTextView>, next: NamedTextView)
    ensures
        suitable(Seq::<NamedTextView>::empty()) == Seq::<NamedTextView>::empty(),
        !(50 <= encode_utf8(next.text).len() <= 50_000) ==> suitable(docs.push(next)) == suitable(docs),
        50 <= encode_utf8(next.text).len() <= 50_000 ==> {
            &&& suitable(docs.push(next)).len() == suitable(docs).len() + 1
            &&& suitable(docs.push(next)).drop_last() == suitable(docs)
            &&& suitable(docs.push(next)).last().doc_id == next.doc_id
            &&& suitable(docs.push(next)).last().text.is_prefix_of(next.text)
            &&& encode_utf8(suitable(docs.push(next)).last().text).len() <= 4096
            &&& suitable(docs.push(next)).last().text.len() < next.text.len() ==> encode_utf8(
                next.text.take(suitable(docs.push(next)).last().text.len() as int + 1),
            ).len() > 4096
        },
{
    law_truncated_is_the_longest_beginning(next.text);
    assert(docs.push(next).drop_last() =~= docs);
    if 50 <= encode_utf8(next.text).len() <= 50_000 {
        assert(suitable(docs.push(next)).drop_last() =~= suitable(docs));
    }
}

/// Texts are batched in portions of 64: there are as many batches as the texts fill, each holds 64
/// texts but for the last, and the text at `j` stands in its batch at its place.
pub proof fn law_batches_of_sixty_four(items: Seq<NamedTextView>, i: int, j: int)
    ensures
        64 * batched(items).len() >= items.len(),
        64 * batched(items).len() < items.len() + 64,
        0 <= i < batched(items).len() ==> batched(items)[i].len() == (if items.len() - 64 * i < 64 {
            items.len() - 64 * i
        } else {
            64
        }),
        0 <= j < items.len() ==> batched(items)[j / 64][j % 64] == items[j],
{
    if 0 <= j < items.len() {
        law_batches_hold_every_text(items, j);
    }
}

/// Named texts as values are the names and the texts, in their order and in their batches.
pub proof fn law_named_texts_hold_names_and_texts(list: Seq<NamedText>, batches: Seq<Vec<NamedText>>)
    ensures
        named_views(list).len() == list.len(),
        forall|i: int|
            0 <= i < list.len() ==> named_views(list)[i].doc_id == (#[trigger] list[i]).doc_id@ && named_views(
                list,
            )[i].text == list[i].text@,
        batch_views(batches).len() == batches.len(),
        forall|i: int| 0 <= i < batches.len() ==> batch_views(batches)[i] == named_views((#[trigger] batches[i])@),
{
}

} // verus!
