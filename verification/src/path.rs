//! Paths with `/` between their components. On a system where something else separates them, what
//! a path means is for the system to say.

use vstd::prelude::*;

use crate::text::{chars_of, join, join_range, keep_where, law_pieces_end_at_separators, lemma_join_cut,
    lemma_join_split, lemma_piece_has_no_break, lemma_split_join, lemma_split_on_around, lemma_split_on_has_piece,
    split_on, split_where, texts};

verus! {

/// Picks out the separator.
pub open spec fn separator() -> spec_fn(char) -> bool {
    |c: char| c == '/'
}

fn is_separator(c: char) -> (yes: bool)
    ensures
        yes == separator()(c),
{
    c == '/'
}

/// Picks out the dot.
pub open spec fn dot() -> spec_fn(char) -> bool {
    |c: char| c == '.'
}

fn is_dot(c: char) -> (yes: bool)
    ensures
        yes == dot()(c),
{
    c == '.'
}

/// Holds of what names a component: a piece between separators that is neither empty nor `.`.
pub open spec fn is_name() -> spec_fn(Seq<char>) -> bool {
    |piece: Seq<char>| piece.len() > 0 && piece != seq!['.']
}

fn names_component(piece: &String) -> (yes: bool)
    ensures
        yes == is_name()(piece@),
{
    let chars = chars_of(piece.as_str());
    let yes = chars.len() > 0 && !(chars.len() == 1 && chars[0] == '.');
    proof {
        if chars@.len() == 1 && chars@[0] == '.' {
            assert(piece@ =~= seq!['.']);
        }
    }
    yes
}

/// The names in `path`, in their order.
pub open spec fn names(path: Seq<char>) -> Seq<Seq<char>> {
    split_on(path, separator()).filter(is_name())
}

/// The last name in `path`, unless that leads to a parent.
pub open spec fn file_name(path: Seq<char>) -> Option<Seq<char>> {
    if names(path).len() == 0 || names(path).last() == seq!['.', '.'] {
        None
    } else {
        Some(names(path).last())
    }
}

/// What stands behind the last dot of `name`, unless the name has none or has only the one that
/// it begins with.
pub open spec fn extension_of_name(name: Seq<char>) -> Option<Seq<char>> {
    let pieces = split_on(name, dot());
    if pieces.len() == 1 || pieces.len() == 2 && pieces[0].len() == 0 {
        None
    } else {
        Some(pieces.last())
    }
}

/// The extension of the file that `path` leads to.
pub open spec fn extension(path: Seq<char>) -> Option<Seq<char>> {
    match file_name(path) {
        Some(name) => extension_of_name(name),
        None => None,
    }
}

/// The extension of the file that `path` leads to, where `/` and nothing else separates components.
pub fn path_extension(path: &str) -> (ext: Option<String>)
    ensures
        match ext {
            Some(e) => extension(path@) == Some(e@),
            None => extension(path@) is None,
        },
{
    let pieces = split_where(&chars_of(path), is_separator, Ghost(separator()));
    let found = keep_where(&pieces, names_component, Ghost(is_name()));
    assert(texts(found@) == names(path@));
    if found.len() == 0 {
        return None;
    }
    let name = chars_of(found[found.len() - 1].as_str());
    assert(name@ == names(path@).last());
    if name.len() == 2 && name[0] == '.' && name[1] == '.' {
        assert(name@ =~= seq!['.', '.']);
        return None;
    }
    let parts = split_where(&name, is_dot, Ghost(dot()));
    proof {
        lemma_split_on_has_piece(name@, dot());
        assert(texts(parts@) == split_on(name@, dot()));
        assert(texts(parts@)[0] == parts@[0]@);
        assert(texts(parts@).last() == parts@[parts@.len() - 1]@);
    }
    if parts.len() == 1 || (parts.len() == 2 && parts[0].as_str().is_empty()) {
        None
    } else {
        Some(parts[parts.len() - 1].clone())
    }
}

/// Where a path starts.
#[derive(Debug, Clone, Copy, PartialEq, Eq, Structural)]
pub enum Start {
    /// At the root of the file system.
    Root,
    /// At the current directory, which it names by `.`.
    Here,
    /// At its first name.
    Name,
}

/// Where `path` starts.
pub open spec fn start(path: Seq<char>) -> Start {
    if path.len() > 0 && path[0] == '/' {
        Start::Root
    } else if split_on(path, separator())[0] == seq!['.'] {
        Start::Here
    } else {
        Start::Name
    }
}

/// Where a path with the given characters and pieces starts.
fn start_of(chars: &Vec<char>, pieces: &Vec<String>) -> (at: Start)
    requires
        texts(pieces@) == split_on(chars@, separator()),
    ensures
        at == start(chars@),
{
    proof {
        lemma_split_on_has_piece(chars@, separator());
        assert(texts(pieces@)[0] == pieces@[0]@);
    }
    if chars.len() > 0 && chars[0] == '/' {
        return Start::Root;
    }
    let first = chars_of(pieces[0].as_str());
    if first.len() == 1 && first[0] == '.' {
        assert(first@ =~= seq!['.']);
        Start::Here
    } else {
        Start::Name
    }
}

/// `pieces` without their first `count` names and without what is no name before the next one.
pub open spec fn below(pieces: Seq<Seq<char>>, count: nat) -> Seq<Seq<char>>
    decreases pieces.len(),
{
    if pieces.len() == 0 {
        pieces
    } else if !is_name()(pieces[0]) {
        below(pieces.drop_first(), count)
    } else if count > 0 {
        below(pieces.drop_first(), (count - 1) as nat)
    } else {
        pieces
    }
}

/// `pieces` without what is no name at their end.
pub open spec fn up_to_last_name(pieces: Seq<Seq<char>>) -> Seq<Seq<char>>
    decreases pieces.len(),
{
    if pieces.len() == 0 || is_name()(pieces.last()) {
        pieces
    } else {
        up_to_last_name(pieces.drop_last())
    }
}

/// `path` leads to `root` or to something below it, by its start and its names.
pub open spec fn is_below(root: Seq<char>, path: Seq<char>) -> bool {
    start(root) == start(path) && names(root).is_prefix_of(names(path))
}

/// `path` as it is written below `root`, from the first name below `root` to the last; a path
/// that is not below `root` stays as it is.
pub open spec fn relative_to(root: Seq<char>, path: Seq<char>) -> Seq<char> {
    if is_below(root, path) {
        join(up_to_last_name(below(split_on(path, separator()), names(root).len())), seq!['/'])
    } else {
        path
    }
}

/// Whether the strings of `prefix` are the first ones of `list`.
fn starts_with_all(list: &Vec<String>, prefix: &Vec<String>) -> (yes: bool)
    ensures
        yes == texts(prefix@).is_prefix_of(texts(list@)),
{
    if prefix.len() > list.len() {
        return false;
    }
    let ghost a = texts(prefix@);
    let ghost b = texts(list@);
    let mut i: usize = 0;
    while i < prefix.len()
        invariant
            i <= prefix@.len() <= list@.len(),
            a == texts(prefix@),
            b == texts(list@),
            forall|j: int| 0 <= j < i ==> a[j] == b[j],
        decreases prefix@.len() - i,
    {
        if prefix[i] != list[i] {
            assert(a[i as int] != b[i as int]);
            assert(b.subrange(0, a.len() as int)[i as int] == b[i as int]);
            return false;
        }
        i += 1;
    }
    true
}

/// `path` as it is written below `root`, or `path` itself where it is not below `root`, where `/`
/// and nothing else separates components.
pub fn relative_path(root: &str, path: &str) -> (relative: String)
    requires
        root@.len() > 0,
    ensures
        relative@ == relative_to(root@, path@),
{
    let root_chars = chars_of(root);
    let root_pieces = split_where(&root_chars, is_separator, Ghost(separator()));
    let root_names = keep_where(&root_pieces, names_component, Ghost(is_name()));
    let chars = chars_of(path);
    let pieces = split_where(&chars, is_separator, Ghost(separator()));
    let path_names = keep_where(&pieces, names_component, Ghost(is_name()));
    if start_of(&root_chars, &root_pieces) != start_of(&chars, &pieces) || !starts_with_all(&path_names, &root_names) {
        return path.to_owned();
    }
    let ghost all = texts(pieces@);
    let mut count: usize = root_names.len();
    let mut from: usize = 0;
    assert(all.skip(0) =~= all);
    let mut at_name = false;
    while from < pieces.len() && !at_name
        invariant
            from <= pieces@.len(),
            all == texts(pieces@),
            below(all, root_names@.len()) == below(all.skip(from as int), count as nat),
            at_name ==> from < pieces@.len() && count == 0 && is_name()(all[from as int]),
        decreases pieces@.len() - from + (if at_name { 0int } else { 1int }),
    {
        assert(all.skip(from as int).drop_first() =~= all.skip(from + 1));
        assert(all.skip(from as int)[0] == pieces@[from as int]@);
        let named = names_component(&pieces[from]);
        if named && count == 0 {
            at_name = true;
        } else {
            if named {
                count -= 1;
            }
            from += 1;
        }
    }
    assert(below(all, root_names@.len()) == all.skip(from as int));
    let mut to: usize = pieces.len();
    let ghost rest = all.skip(from as int);
    assert(rest =~= all.subrange(from as int, to as int));
    while from < to && !names_component(&pieces[to - 1])
        invariant
            from <= to <= pieces@.len(),
            all == texts(pieces@),
            up_to_last_name(rest) == up_to_last_name(all.subrange(from as int, to as int)),
        decreases to,
    {
        assert(all.subrange(from as int, to as int).last() == pieces@[to - 1]@);
        to -= 1;
        assert(all.subrange(from as int, to + 1).drop_last() =~= all.subrange(from as int, to as int));
    }
    proof {
        if from < to {
            assert(all.subrange(from as int, to as int).last() == pieces@[to - 1]@);
        }
        reveal_strlit("/");
        assert("/"@ =~= seq!['/']);
    }
    join_range(&pieces, from, to, "/")
}

// ---------------------------------------------------------------------------------------------
// Laws
// ---------------------------------------------------------------------------------------------

proof fn lemma_below_skips_names(a: Seq<Seq<char>>, b: Seq<Seq<char>>)
    ensures
        below(a + b, a.filter(is_name()).len()) == below(b, 0),
    decreases a.len(),
{
    if a.len() == 0 {
        assert(a + b =~= b);
        reveal(Seq::filter);
    } else {
        let rest = a.drop_first();
        let head = seq![a[0]];
        assert(head + rest =~= a);
        assert((a + b).drop_first() =~= rest + b);
        Seq::filter_distributes_over_add(head, rest, is_name());
        reveal_with_fuel(Seq::filter, 2);
        assert(head.drop_last() =~= Seq::<Seq<char>>::empty());
        assert(head.filter(is_name()).len() == (if is_name()(a[0]) { 1nat } else { 0nat }));
        lemma_below_skips_names(rest, b);
    }
}

/// A path that is written below `root`, from a name to a name, is found again from the path that
/// leads there through `root`.
pub proof fn law_relative_path_is_what_was_joined(root: Seq<char>, relative: Seq<char>)
    requires
        root.len() > 0,
        is_name()(split_on(relative, separator())[0]),
        is_name()(split_on(relative, separator()).last()),
    ensures
        is_below(root, root.push('/') + relative),
        relative_to(root, root.push('/') + relative) == relative,
{
    let whole = root.push('/') + relative;
    let a = split_on(root, separator());
    let b = split_on(relative, separator());
    lemma_split_on_has_piece(root, separator());
    lemma_split_on_has_piece(relative, separator());
    lemma_split_on_around(root, '/', relative, separator());
    Seq::filter_distributes_over_add(a, b, is_name());
    assert(whole[0] == root[0]);
    assert((a + b)[0] == a[0]);
    assert((names(root) + names(relative)).subrange(0, names(root).len() as int) =~= names(root));
    lemma_below_skips_names(a, b);
    assert(forall|x: char| #[trigger] separator()(x) <==> x == '/');
    lemma_join_split(relative, '/', separator());
}

/// A path that is not below `root` stays as it is.
pub proof fn law_other_paths_stay(root: Seq<char>, path: Seq<char>)
    requires
        !is_below(root, path),
    ensures
        relative_to(root, path) == path,
{
}

/// The extension of a path is the same in any directory.
pub proof fn law_extension_is_that_of_the_file(directory: Seq<char>, name: Seq<char>)
    requires
        names(name).len() > 0,
    ensures
        extension(directory.push('/') + name) == extension(name),
{
    let a = split_on(directory, separator());
    let b = split_on(name, separator());
    lemma_split_on_around(directory, '/', name, separator());
    Seq::filter_distributes_over_add(a, b, is_name());
    assert((names(directory) + names(name)).last() == names(name).last());
}

/// A text without `/` is one piece.
proof fn lemma_component_is_one_piece(name: Seq<char>)
    requires
        !name.contains('/'),
    ensures
        split_on(name, separator()) == seq![name],
{
    assert forall|i: int| 0 <= i < name.len() implies !separator()(#[trigger] name[i]) by {
        assert(name.contains(name[i]));
    }
    law_pieces_end_at_separators(name, '/', Seq::empty(), separator());
}

/// A component is the last name of a path that ends with it.
proof fn lemma_last_name(directory: Seq<char>, name: Seq<char>)
    requires
        name.len() > 0,
        !name.contains('/'),
        name != seq!['.'],
    ensures
        names(name) == seq![name],
        names(directory + seq!['/'] + name).len() > 0,
        names(directory + seq!['/'] + name).last() == name,
{
    lemma_component_is_one_piece(name);
    reveal_with_fuel(Seq::filter, 2);
    assert(seq![name].drop_last() =~= Seq::<Seq<char>>::empty());
    assert(seq![name].filter(is_name()) =~= seq![name]);
    lemma_split_on_around(directory, '/', name, separator());
    assert(directory + seq!['/'] + name =~= directory.push('/') + name);
    Seq::filter_distributes_over_add(split_on(directory, separator()), seq![name], is_name());
}

/// The extension of a file is what stands behind the last dot of its name, if something stands
/// before that dot, in any directory and without one.
pub proof fn law_extension_stands_behind_the_last_dot(directory: Seq<char>, stem: Seq<char>, ext: Seq<char>)
    requires
        stem.len() > 0,
        !stem.contains('/'),
        !ext.contains('/'),
        !ext.contains('.'),
        stem != seq!['.'] || ext.len() > 0,
    ensures
        extension(stem + seq!['.'] + ext) == Some(ext),
        extension(directory + seq!['/'] + (stem + seq!['.'] + ext)) == Some(ext),
{
    let name = stem + seq!['.'] + ext;
    assert(!name.contains('/')) by {
        if name.contains('/') {
            let i = choose|i: int| 0 <= i < name.len() && name[i] == '/';
            if i < stem.len() {
                assert(stem[i] == '/');
            } else {
                assert(ext[i - stem.len() - 1] == '/');
            }
        }
    }
    assert(name.len() >= 2);
    lemma_last_name(directory, name);
    assert(name != seq!['.', '.']) by {
        if name == seq!['.', '.'] {
            assert(stem =~= seq!['.'] && ext.len() == 0) by {
                assert(name.len() == 2);
                assert(name[0] == '.' && name[0] == stem[0]);
            }
        }
    }
    assert(name =~= stem.push('.') + ext);
    lemma_split_on_around(stem, '.', ext, dot());
    assert forall|i: int| 0 <= i < ext.len() implies !dot()(#[trigger] ext[i]) by {
        assert(ext.contains(ext[i]));
    }
    law_pieces_end_at_separators(ext, '.', Seq::empty(), dot());
    lemma_split_on_has_piece(stem, dot());
    let before = split_on(stem, dot());
    if before.len() == 1 {
        assert(forall|x: char| #[trigger] dot()(x) <==> x == '.');
        lemma_join_split(stem, '.', dot());
        assert(before[0] == stem);
    }
}

/// A file has no extension where its name has no dot, or none but the one that it begins with; and
/// the way to a parent directory has none.
pub proof fn law_names_without_extension(directory: Seq<char>, rest: Seq<char>)
    requires
        rest.len() > 0,
        !rest.contains('/'),
        !rest.contains('.'),
    ensures
        extension(rest) is None,
        extension(directory + seq!['/'] + rest) is None,
        extension(seq!['.'] + rest) is None,
        extension(directory + seq!['/'] + (seq!['.'] + rest)) is None,
        extension(seq!['.', '.']) is None,
        extension(directory + seq!['/'] + seq!['.', '.']) is None,
{
    assert forall|i: int| 0 <= i < rest.len() implies !dot()(#[trigger] rest[i]) by {
        assert(rest.contains(rest[i]));
    }
    law_pieces_end_at_separators(rest, '.', Seq::empty(), dot());
    assert(rest != seq!['.']) by {
        if rest == seq!['.'] {
            assert(rest[0] == '.');
        }
    }
    assert(rest != seq!['.', '.']) by {
        if rest == seq!['.', '.'] {
            assert(rest[0] == '.');
        }
    }
    lemma_last_name(directory, rest);
    let hidden = seq!['.'] + rest;
    assert(!hidden.contains('/')) by {
        if hidden.contains('/') {
            let i = choose|i: int| 0 <= i < hidden.len() && hidden[i] == '/';
            assert(rest[i - 1] == '/');
        }
    }
    assert(hidden != seq!['.', '.']) by {
        if hidden == seq!['.', '.'] {
            assert(hidden[1] == rest[0]);
            assert(rest.contains('.'));
        }
    }
    assert(hidden.len() >= 2);
    lemma_last_name(directory, hidden);
    let none = Seq::<char>::empty();
    assert(hidden =~= none.push('.') + rest);
    law_pieces_end_at_separators(none, '.', rest, dot());
    let parent = seq!['.', '.'];
    assert(!parent.contains('/'));
    lemma_last_name(directory, parent);
}

/// What leads on to the same place changes no extension, and a path that leads to no file has none.
pub proof fn law_extension_is_that_of_the_last_name(path: Seq<char>)
    ensures
        extension(path + seq!['/']) == extension(path),
        extension(path + seq!['/', '.']) == extension(path),
        extension(Seq::<char>::empty()) is None,
        extension(seq!['.']) is None,
{
    let none = Seq::<char>::empty();
    let here = seq!['.'];
    lemma_component_is_one_piece(none);
    lemma_component_is_one_piece(here);
    reveal_with_fuel(Seq::filter, 2);
    assert(seq![none].drop_last() =~= Seq::<Seq<char>>::empty());
    assert(seq![here].drop_last() =~= Seq::<Seq<char>>::empty());
    assert(seq![none].filter(is_name()) =~= Seq::<Seq<char>>::empty());
    assert(seq![here].filter(is_name()) =~= Seq::<Seq<char>>::empty());
    let pieces = split_on(path, separator());
    lemma_split_on_around(path, '/', none, separator());
    lemma_split_on_around(path, '/', here, separator());
    assert(path + seq!['/'] =~= path.push('/') + none);
    assert(path + seq!['/', '.'] =~= path.push('/') + here);
    Seq::filter_distributes_over_add(pieces, seq![none], is_name());
    Seq::filter_distributes_over_add(pieces, seq![here], is_name());
    assert(names(path + seq!['/']) =~= names(path));
    assert(names(path + seq!['/', '.']) =~= names(path));
}

/// `parts` are components: none is empty, is `.` or holds a `/`.
spec fn are_components(parts: Seq<Seq<char>>) -> bool {
    forall|k: int|
        0 <= k < parts.len() ==> (#[trigger] parts[k]).len() > 0 && parts[k] != seq!['.'] && !parts[k].contains('/')
}

proof fn lemma_components_are_names(parts: Seq<Seq<char>>)
    requires
        are_components(parts),
    ensures
        parts.filter(is_name()) == parts,
    decreases parts.len(),
{
    reveal(Seq::filter);
    if parts.len() > 0 {
        let front = parts.drop_last();
        assert(are_components(front)) by {
            assert forall|k: int| 0 <= k < front.len() implies (#[trigger] front[k]).len() > 0 && front[k] != seq!['.']
                && !front[k].contains('/') by {
                assert(front[k] == parts[k]);
            }
        }
        lemma_components_are_names(front);
        assert(is_name()(parts[parts.len() - 1]));
        assert(front.push(parts.last()) =~= parts);
    } else {
        assert(parts.filter(is_name()) =~= parts);
    }
}

/// The absolute path with the components `parts`.
spec fn absolute(parts: Seq<Seq<char>>) -> Seq<char> {
    seq!['/'] + join(parts, seq!['/'])
}

proof fn lemma_pieces_of_absolute(parts: Seq<Seq<char>>)
    requires
        are_components(parts),
    ensures
        names(absolute(parts)) == parts,
        parts.len() > 0 ==> split_on(absolute(parts), separator()) == seq![Seq::<char>::empty()] + parts,
        parts.len() > 0 ==> split_on(join(parts, seq!['/']), separator()) == parts,
        parts.len() == 0 ==> split_on(absolute(parts), separator()) == seq![
            Seq::<char>::empty(),
            Seq::<char>::empty(),
        ],
{
    let none = Seq::<char>::empty();
    let text = join(parts, seq!['/']);
    assert(absolute(parts) =~= none.push('/') + text);
    law_pieces_end_at_separators(none, '/', text, separator());
    lemma_components_are_names(parts);
    reveal_with_fuel(Seq::filter, 3);
    assert(seq![none].drop_last() =~= Seq::<Seq<char>>::empty());
    assert(seq![none].filter(is_name()) =~= Seq::<Seq<char>>::empty());
    if parts.len() > 0 {
        assert forall|k: int, i: int| 0 <= k < parts.len() && 0 <= i < parts[k].len() implies #[trigger] parts[k][i]
            != '/' by {
            assert(!parts[k].contains('/'));
            assert(parts[k].contains(parts[k][i]));
        }
        assert(forall|x: char| #[trigger] separator()(x) <==> x == '/');
        lemma_split_join(parts, '/', separator());
        Seq::filter_distributes_over_add(seq![none], parts, is_name());
        assert(names(absolute(parts)) =~= parts);
    } else {
        assert(text =~= none);
        assert(split_on(absolute(parts), separator()) =~= seq![none, none]);
        assert(seq![none, none] =~= seq![none] + seq![none]);
        Seq::filter_distributes_over_add(seq![none], seq![none], is_name());
        assert(names(absolute(parts)) =~= parts);
    }
}

proof fn lemma_empty_piece_is_no_name(rest: Seq<Seq<char>>)
    ensures
        (seq![Seq::<char>::empty()] + rest).filter(is_name()) == rest.filter(is_name()),
{
    let none = Seq::<char>::empty();
    Seq::filter_distributes_over_add(seq![none], rest, is_name());
    reveal_with_fuel(Seq::filter, 2);
    assert(seq![none].drop_last() =~= Seq::<Seq<char>>::empty());
    assert(seq![none].filter(is_name()) =~= Seq::<Seq<char>>::empty());
    assert(Seq::<Seq<char>>::empty() + rest.filter(is_name()) =~= rest.filter(is_name()));
}

proof fn lemma_what_follows_the_root(root: Seq<Seq<char>>, rest: Seq<Seq<char>>)
    requires
        are_components(root),
        are_components(rest),
    ensures
        up_to_last_name(below(seq![Seq::<char>::empty()] + root + rest, root.len())) == rest,
{
    let head = seq![Seq::<char>::empty()] + root;
    lemma_components_are_names(root);
    lemma_empty_piece_is_no_name(root);
    lemma_below_skips_names(head, rest);
    if rest.len() > 0 {
        assert(is_name()(rest[0]));
        assert(is_name()(rest[rest.len() - 1]));
    }
}

proof fn lemma_components_start_at_a_name(path: Seq<Seq<char>>)
    requires
        are_components(path),
        path.len() > 0,
    ensures
        start(join(path, seq!['/'])) != Start::Root,
{
    let none = Seq::<char>::empty();
    let text = join(path, seq!['/']);
    lemma_pieces_of_absolute(path);
    if text.len() > 0 && text[0] == '/' {
        assert(none.push('/') + text.drop_first() =~= text);
        law_pieces_end_at_separators(none, '/', text.drop_first(), separator());
        assert(split_on(text, separator())[0] == none);
        assert(path[0].len() > 0);
    }
}

proof fn lemma_absolute_starts_at_the_root(parts: Seq<Seq<char>>)
    ensures
        start(absolute(parts)) == Start::Root,
{
    assert(absolute(parts)[0] == '/');
}

proof fn lemma_nothing_is_below_nothing()
    ensures
        below(seq![Seq::<char>::empty(), Seq::<char>::empty()], 0).len() == 0,
{
    let none = Seq::<char>::empty();
    let one = seq![none];
    let two = seq![none, none];
    assert(!is_name()(none));
    assert(two.drop_first() =~= one);
    assert(one.drop_first().len() == 0);
    assert(below(one.drop_first(), 0).len() == 0);
    assert(below(one, 0) == below(one.drop_first(), 0));
}

proof fn lemma_components_behind(parts: Seq<Seq<char>>, count: int)
    requires
        are_components(parts),
        0 <= count <= parts.len(),
    ensures
        are_components(parts.skip(count)),
{
    let rest = parts.skip(count);
    assert forall|k: int| 0 <= k < rest.len() implies (#[trigger] rest[k]).len() > 0 && rest[k] != seq!['.']
        && !rest[k].contains('/') by {
        assert(rest[k] == parts[count + k]);
    }
}

proof fn lemma_split_at_the_root(first: Seq<char>, root: Seq<Seq<char>>, path: Seq<Seq<char>>)
    requires
        root.is_prefix_of(path),
    ensures
        seq![first] + root + path.skip(root.len() as int) == seq![first] + path,
{
    let n = root.len() as int;
    assert(path.subrange(0, n) == root);
    assert forall|k: int| 0 <= k < n implies root[k] == path[k] by {
        assert(path.subrange(0, n)[k] == path[k]);
    }
    assert(seq![first] + root + path.skip(n) =~= seq![first] + path);
}

proof fn lemma_pieces_below_the_root(root: Seq<Seq<char>>, path: Seq<Seq<char>>)
    requires
        are_components(root),
        are_components(path),
        root.is_prefix_of(path),
    ensures
        up_to_last_name(below(split_on(absolute(path), separator()), root.len())) == path.skip(root.len() as int),
{
    let rest = path.skip(root.len() as int);
    let pieces = split_on(absolute(path), separator());
    assert(path.len() > 0 ==> pieces == seq![Seq::<char>::empty()] + path) by {
        lemma_pieces_of_absolute(path);
    }
    assert(path.len() == 0 ==> pieces == seq![Seq::<char>::empty(), Seq::<char>::empty()]) by {
        lemma_pieces_of_absolute(path);
    }
    if path.len() > 0 {
        lemma_components_behind(path, root.len() as int);
        lemma_split_at_the_root(Seq::empty(), root, path);
        lemma_what_follows_the_root(root, rest);
    } else {
        lemma_nothing_is_below_nothing();
        assert(root.len() == 0);
        assert(below(pieces, 0).len() == 0);
        assert(up_to_last_name(below(pieces, 0)) == below(pieces, 0));
        assert(rest.len() == 0);
        assert(rest =~= below(pieces, 0));
    }
}

/// Below a root, a path is written by the components that follow those of the root; with any other
/// first components it stays as it is. A path that does not start at the root of the file system is
/// not below one that does.
pub proof fn law_relative_path_is_what_follows_the_root(root: Seq<Seq<char>>, path: Seq<Seq<char>>)
    requires
        forall|k: int|
            0 <= k < root.len() ==> (#[trigger] root[k]).len() > 0 && root[k] != seq!['.'] && !root[k].contains('/'),
        forall|k: int|
            0 <= k < path.len() ==> (#[trigger] path[k]).len() > 0 && path[k] != seq!['.'] && !path[k].contains('/'),
    ensures
        ({
            let from = seq!['/'] + join(root, seq!['/']);
            let to = seq!['/'] + join(path, seq!['/']);
            let below = join(path.skip(root.len() as int), seq!['/']);
            &&& root.is_prefix_of(path) ==> relative_to(from, to) == below
            &&& !root.is_prefix_of(path) ==> relative_to(from, to) == to
            &&& path.len() > 0 ==> relative_to(from, join(path, seq!['/'])) == join(path, seq!['/'])
        }),
{
    assert(are_components(root));
    assert(are_components(path));
    lemma_pieces_of_absolute(root);
    lemma_pieces_of_absolute(path);
    lemma_absolute_starts_at_the_root(root);
    lemma_absolute_starts_at_the_root(path);
    if root.is_prefix_of(path) {
        lemma_pieces_below_the_root(root, path);
    }
    if path.len() > 0 {
        lemma_components_start_at_a_name(path);
    }
}

/// A path that begins and ends with a component is found again from the path that leads there
/// through the root, whatever the root is.
pub proof fn law_joined_path_is_found_again(root: Seq<char>, relative: Seq<char>)
    requires
        root.len() > 0,
        relative.len() > 0,
        relative != seq!['.'],
        relative[0] != '/',
        relative.last() != '/',
        !seq!['.', '/'].is_prefix_of(relative),
        !seq!['/', '.'].is_suffix_of(relative),
    ensures
        relative_to(root, root + seq!['/'] + relative) == relative,
{
    let pieces = split_on(relative, separator());
    lemma_split_on_has_piece(relative, separator());
    assert(forall|x: char| #[trigger] separator()(x) <==> x == '/');
    lemma_join_split(relative, '/', separator());
    let n = pieces.len() as int;
    if n == 1 {
        assert(pieces[0] == relative);
    } else {
        lemma_join_cut(pieces, seq!['/'], 1);
        let first = pieces[0];
        assert(pieces.take(1)[0] == first);
        let behind = join(pieces.skip(1), seq!['/']);
        assert(relative =~= first + seq!['/'] + behind);
        if first.len() == 0 {
            assert(relative[0] == '/');
        }
        if first == seq!['.'] {
            assert(relative.subrange(0, 2) =~= seq!['.', '/']);
        }
        let last = pieces.last();
        let ahead = join(pieces.drop_last(), seq!['/']);
        assert(relative =~= ahead + seq!['/'] + last);
        if last.len() == 0 {
            assert(relative.last() == '/');
        }
        if last == seq!['.'] {
            assert(relative.subrange(relative.len() - 2, relative.len() as int) =~= seq!['/', '.']);
        }
    }
    law_relative_path_is_what_was_joined(root, relative);
    assert(root + seq!['/'] + relative =~= root.push('/') + relative);
}

/// The names in a path are its components between `/`, but for the empty ones and `.`.
pub proof fn law_names_are_the_components(component: Seq<char>, a: Seq<char>, b: Seq<char>)
    requires
        !component.contains('/'),
    ensures
        names(component) == (if component.len() == 0 || component == seq!['.'] {
            Seq::<Seq<char>>::empty()
        } else {
            seq![component]
        }),
        names(a + seq!['/'] + b) == names(a) + names(b),
{
    lemma_component_is_one_piece(component);
    reveal_with_fuel(Seq::filter, 2);
    assert(seq![component].drop_last() =~= Seq::<Seq<char>>::empty());
    if component.len() == 0 || component == seq!['.'] {
        assert(seq![component].filter(is_name()) =~= Seq::<Seq<char>>::empty());
    } else {
        assert(seq![component].filter(is_name()) =~= seq![component]);
    }
    lemma_split_on_around(a, '/', b, separator());
    assert(a + seq!['/'] + b =~= a.push('/') + b);
    Seq::filter_distributes_over_add(split_on(a, separator()), split_on(b, separator()), is_name());
}

/// A path starts at the root where it begins with `/`, at the current directory where it is `.` or
/// begins with `./`, and else at a name. It is below another exactly where it starts where the other
/// does and its first names are the names of the other.
pub proof fn law_start_goes_by_the_first_characters(root: Seq<char>, path: Seq<char>)
    ensures
        start(path) == Start::Root <==> path.len() > 0 && path[0] == '/',
        start(path) == Start::Here <==> path == seq!['.'] || seq!['.', '/'].is_prefix_of(path),
        is_below(root, path) <==> start(root) == start(path) && names(root).is_prefix_of(names(path)),
{
    let here = seq!['.'];
    let pieces = split_on(path, separator());
    lemma_split_on_has_piece(path, separator());
    assert(forall|x: char| #[trigger] separator()(x) <==> x == '/');
    if pieces[0] == here {
        lemma_join_split(path, '/', separator());
        if pieces.len() == 1 {
            assert(path == here);
        } else {
            lemma_join_cut(pieces, seq!['/'], 1);
            assert(pieces.take(1)[0] == here);
            let behind = join(pieces.skip(1), seq!['/']);
            assert(path =~= here + seq!['/'] + behind);
            assert(path.subrange(0, 2) =~= seq!['.', '/']);
            assert(path[0] == '.');
        }
    }
    if path == here {
        lemma_component_is_one_piece(here);
    }
    if seq!['.', '/'].is_prefix_of(path) {
        let rest = path.skip(2);
        assert(path[0] == path.subrange(0, 2)[0] && path[1] == path.subrange(0, 2)[1]);
        assert(path =~= here.push('/') + rest);
        assert(!here.contains('/'));
        lemma_split_on_around(here, '/', rest, separator());
        lemma_component_is_one_piece(here);
        assert(pieces[0] == here);
    }
}

proof fn lemma_names_below(pieces: Seq<Seq<char>>, count: nat)
    requires
        count <= pieces.filter(is_name()).len(),
    ensures
        below(pieces, count).filter(is_name()) == pieces.filter(is_name()).skip(count as int),
    decreases pieces.len(),
{
    if pieces.len() == 0 {
        reveal(Seq::filter);
        assert(pieces.filter(is_name()).skip(count as int) =~= pieces.filter(is_name()));
    } else {
        let rest = pieces.drop_first();
        assert(pieces =~= seq![pieces[0]] + rest);
        Seq::filter_distributes_over_add(seq![pieces[0]], rest, is_name());
        assert(seq![pieces[0]].filter(is_name()) =~= (if is_name()(pieces[0]) {
            seq![pieces[0]]
        } else {
            Seq::<Seq<char>>::empty()
        })) by {
            reveal_with_fuel(Seq::filter, 2);
            assert(seq![pieces[0]].drop_last() =~= Seq::<Seq<char>>::empty());
        }
        let all = pieces.filter(is_name());
        let others = rest.filter(is_name());
        if !is_name()(pieces[0]) {
            assert(all =~= others);
            lemma_names_below(rest, count);
        } else if count > 0 {
            assert(all =~= seq![pieces[0]] + others);
            lemma_names_below(rest, (count - 1) as nat);
            assert(all.skip(count as int) =~= others.skip(count - 1));
        } else {
            assert(all.skip(0) =~= all);
        }
    }
}

proof fn lemma_names_up_to_the_last(pieces: Seq<Seq<char>>)
    ensures
        up_to_last_name(pieces).filter(is_name()) == pieces.filter(is_name()),
        up_to_last_name(pieces).is_prefix_of(pieces),
    decreases pieces.len(),
{
    if pieces.len() > 0 && !is_name()(pieces.last()) {
        let front = pieces.drop_last();
        lemma_names_up_to_the_last(front);
        reveal(Seq::filter);
        let kept = up_to_last_name(front);
        assert(pieces.subrange(0, kept.len() as int) =~= front.subrange(0, kept.len() as int));
    } else {
        assert(pieces.subrange(0, pieces.len() as int) =~= pieces);
    }
}

proof fn lemma_below_is_a_part(pieces: Seq<Seq<char>>, count: nat)
    ensures
        below(pieces, count).is_suffix_of(pieces),
    decreases pieces.len(),
{
    let n = pieces.len() as int;
    if n > 0 && (!is_name()(pieces[0]) || count > 0) {
        let rest = pieces.drop_first();
        let less = if is_name()(pieces[0]) { (count - 1) as nat } else { count };
        lemma_below_is_a_part(rest, less);
        let kept = below(rest, less);
        assert(pieces.subrange(n - kept.len(), n) =~= rest.subrange(rest.len() - kept.len(), rest.len() as int));
    } else {
        assert(pieces.subrange(0, n) =~= pieces);
    }
}

/// However a path below a root is written, with empty components, with `.` or without, the names in
/// what is left of it are those that follow the names of the root.
pub proof fn law_names_below_the_root_are_left(root: Seq<char>, path: Seq<char>)
    requires
        is_below(root, path),
    ensures
        names(relative_to(root, path)) == names(path).skip(names(root).len() as int),
{
    let pieces = split_on(path, separator());
    let count = names(root).len();
    let behind = below(pieces, count);
    let kept = up_to_last_name(behind);
    lemma_names_below(pieces, count);
    lemma_names_up_to_the_last(behind);
    lemma_below_is_a_part(pieces, count);
    if kept.len() == 0 {
        let none = Seq::<char>::empty();
        assert(join(kept, seq!['/']) =~= none);
        lemma_component_is_one_piece(none);
        reveal_with_fuel(Seq::filter, 2);
        assert(seq![none].drop_last() =~= Seq::<Seq<char>>::empty());
        assert(seq![none].filter(is_name()) =~= Seq::<Seq<char>>::empty());
        assert(kept.filter(is_name()) =~= Seq::<Seq<char>>::empty());
    } else {
        assert forall|k: int, i: int| 0 <= k < kept.len() && 0 <= i < kept[k].len() implies #[trigger] kept[k][i]
            != '/' by {
            let at = pieces.len() - behind.len() + k;
            assert(kept[k] == behind[k]) by {
                assert(behind.subrange(0, kept.len() as int)[k] == behind[k]);
            }
            assert(behind[k] == pieces[at]) by {
                assert(pieces.subrange(pieces.len() - behind.len(), pieces.len() as int)[k] == pieces[at]);
            }
            lemma_piece_has_no_break(path, separator(), at, i);
        }
        assert(forall|x: char| #[trigger] separator()(x) <==> x == '/');
        lemma_split_join(kept, '/', separator());
    }
}

} // verus!
