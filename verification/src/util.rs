//! Glob patterns for paths to leave out.

use vstd::prelude::*;

use crate::path::separator;
use crate::text::{append_range, chars_of, contains, has_prefix, has_suffix, is_infix, join,
    law_infix_has_text_around, lemma_join_cut, lemma_join_split, lemma_split_on_append, lemma_split_on_around,
    lemma_split_on_has_piece, split_on, stands_at};

verus! {

/// `**/`
pub open spec fn any_depth() -> Seq<char> {
    seq!['*', '*', '/']
}

/// `/**`
pub open spec fn all_below() -> Seq<char> {
    seq!['/', '*', '*']
}

/// `**/*.`
pub open spec fn any_depth_extension() -> Seq<char> {
    seq!['*', '*', '/', '*', '.']
}

/// `*.`
pub open spec fn extension() -> Seq<char> {
    seq!['*', '.']
}

/// `/`
pub open spec fn slash() -> Seq<char> {
    seq!['/']
}

/// `path` holds `dir` as a whole component, next to at least one separator.
pub open spec fn holds_directory(dir: Seq<char>, path: Seq<char>) -> bool {
    ||| is_infix(slash() + dir + slash(), path)
    ||| (dir + slash()).is_prefix_of(path)
    ||| (slash() + dir).is_suffix_of(path)
}

/// `pattern` has the form `**/dir/**`.
pub open spec fn is_directory_pattern(pattern: Seq<char>) -> bool {
    any_depth().is_prefix_of(pattern) && all_below().is_suffix_of(pattern.skip(3))
}

/// Whether `path` is one that `pattern` stands for. The first of these forms that fits decides:
/// - `**/dir/**` matches a directory anywhere in the path,
/// - `**/*.ext` matches an extension,
/// - `**/something` matches at the end of the path,
/// - `something/**` matches at the start of the path,
/// - `*.ext` matches an extension,
/// - anything else matches the same path, or a component of the path, be it the first, the last or
///   one in between.
pub open spec fn glob_matches(pattern: Seq<char>, path: Seq<char>) -> bool {
    if is_directory_pattern(pattern) {
        holds_directory(pattern.subrange(3, pattern.len() - 3), path)
    } else if any_depth_extension().is_prefix_of(pattern) {
        pattern.skip(4).is_suffix_of(path)
    } else if any_depth().is_prefix_of(pattern) {
        pattern.skip(3).is_suffix_of(path)
    } else if all_below().is_suffix_of(pattern) {
        pattern.take(pattern.len() - 3).is_prefix_of(path)
    } else if extension().is_prefix_of(pattern) {
        pattern.skip(1).is_suffix_of(path)
    } else {
        ||| path == pattern
        ||| (pattern + slash()).is_prefix_of(path)
        ||| (slash() + pattern).is_suffix_of(path)
        ||| is_infix(slash() + pattern + slash(), path)
    }
}

/// The part of `chars` from index `from` up to index `to`.
fn part(chars: &Vec<char>, from: usize, to: usize) -> (out: Vec<char>)
    requires
        from <= to <= chars@.len(),
    ensures
        out@ == chars@.subrange(from as int, to as int),
{
    let mut out: Vec<char> = Vec::new();
    append_range(&mut out, chars, from, to);
    out
}

/// `chars` with a separator before it, behind it, or both.
fn with_slashes(before: bool, chars: &Vec<char>, behind: bool) -> (out: Vec<char>)
    ensures
        out@ == (if before { slash() } else { Seq::empty() }) + chars@ + (if behind {
            slash()
        } else {
            Seq::empty()
        }),
{
    let mut out: Vec<char> = Vec::new();
    if before {
        out.push('/');
    }
    append_range(&mut out, chars, 0, chars.len());
    if behind {
        out.push('/');
    }
    out
}

/// Simple glob matching for ignore patterns.
pub fn glob_match(pattern: &str, path: &str) -> (matched: bool)
    ensures
        matched == glob_matches(pattern@, path@),
{
    let pattern = chars_of(pattern);
    let path = chars_of(path);
    let n = pattern.len();
    let from_any_depth = has_prefix(&pattern, &vec!['*', '*', '/']);

    if from_any_depth {
        let rest = part(&pattern, 3, n);
        if has_suffix(&rest, &vec!['/', '*', '*']) {
            let dir = part(&pattern, 3, n - 3);
            return contains(&path, &with_slashes(true, &dir, true)) || has_prefix(
                &path,
                &with_slashes(false, &dir, true),
            ) || has_suffix(&path, &with_slashes(true, &dir, false));
        }
    }
    if has_prefix(&pattern, &vec!['*', '*', '/', '*', '.']) {
        return has_suffix(&path, &part(&pattern, 4, n));
    }
    if from_any_depth {
        return has_suffix(&path, &part(&pattern, 3, n));
    }
    if has_suffix(&pattern, &vec!['/', '*', '*']) {
        return has_prefix(&path, &part(&pattern, 0, n - 3));
    }
    if has_prefix(&pattern, &vec!['*', '.']) {
        return has_suffix(&path, &part(&pattern, 1, n));
    }
    assert(path@.subrange(0, path@.len() as int) =~= path@);
    (path.len() == n && has_prefix(&path, &pattern)) || has_prefix(
        &path,
        &with_slashes(false, &pattern, true),
    ) || has_suffix(&path, &with_slashes(true, &pattern, false)) || contains(
        &path,
        &with_slashes(true, &pattern, true),
    )
}

// ---------------------------------------------------------------------------------------------
// Laws
// ---------------------------------------------------------------------------------------------

/// `*.ext` and `**/*.ext` stand for the same paths: those that end in `.ext`.
pub proof fn law_extension_patterns_agree(ext: Seq<char>, path: Seq<char>)
    requires
        !all_below().is_suffix_of(ext),
    ensures
        glob_matches(extension() + ext, path) == (seq!['.'] + ext).is_suffix_of(path),
        glob_matches(any_depth_extension() + ext, path) == (seq!['.'] + ext).is_suffix_of(path),
{
    let shallow = extension() + ext;
    let deep = any_depth_extension() + ext;
    assert(shallow[1] == '.');
    assert(deep.skip(3) =~= shallow);
    assert(!all_below().is_suffix_of(shallow)) by {
        if all_below().is_suffix_of(shallow) {
            let n = shallow.len() as int;
            let tail = shallow.subrange(n - 3, n);
            assert(tail[0] == '/' && tail[1] == '*' && tail[2] == '*');
            assert(shallow[n - 3] == '/');
            assert(ext.len() >= 3);
            assert(ext.subrange(ext.len() - 3, ext.len() as int) =~= tail);
        }
    }
    assert(!any_depth().is_prefix_of(shallow)) by {
        if any_depth().is_prefix_of(shallow) {
            assert(shallow.subrange(0, 3)[1] == '*');
        }
    }
    assert(!any_depth_extension().is_prefix_of(shallow)) by {
        if any_depth_extension().is_prefix_of(shallow) {
            assert(shallow.subrange(0, 5)[1] == '*');
        }
    }
    assert(extension().is_prefix_of(shallow));
    assert(any_depth_extension().is_prefix_of(deep));
    assert(shallow.skip(1) =~= seq!['.'] + ext);
    assert(deep.skip(4) =~= seq!['.'] + ext);
}

proof fn lemma_split_on_alone(text: Seq<char>)
    requires
        !text.contains('/'),
    ensures
        split_on(text, separator()) == seq![text],
{
    let none = Seq::<char>::empty();
    lemma_split_on_append(none, text, separator());
    assert(none + text =~= text);
    assert(split_on(text, separator()) =~= seq![text]);
}

/// Where `dir` stands between separators it is a component.
proof fn lemma_held_directory_is_a_component(dir: Seq<char>, path: Seq<char>)
    requires
        !dir.contains('/'),
        holds_directory(dir, path),
    ensures
        split_on(path, separator()).contains(dir),
        path != dir,
{
    let n = path.len() as int;
    lemma_split_on_alone(dir);
    let pieces = split_on(path, separator());
    if is_infix(slash() + dir + slash(), path) {
        let i = choose|i: int| stands_at(slash() + dir + slash(), path, i);
        let needle = slash() + dir + slash();
        let end = i + needle.len();
        assert(path.subrange(i, end) == needle);
        let a = path.take(i);
        let b = path.skip(end as int);
        assert(path =~= a.push('/') + (dir.push('/') + b)) by {
            assert forall|k: int| 0 <= k < path.len() implies path[k] == (a.push('/') + (dir.push('/') + b))[k] by {
                if i <= k < end {
                    assert(path[k] == path.subrange(i, end)[k - i]);
                }
            }
        }
        lemma_split_on_around(a, '/', dir.push('/') + b, separator());
        lemma_split_on_around(dir, '/', b, separator());
        let at = split_on(a, separator()).len() as int;
        assert(pieces[at] == dir);
    } else if (dir + slash()).is_prefix_of(path) {
        let b = path.skip(dir.len() as int + 1);
        assert(path =~= dir.push('/') + b) by {
            assert forall|k: int| 0 <= k < path.len() implies path[k] == (dir.push('/') + b)[k] by {
                if k < dir.len() + 1 {
                    assert(path[k] == path.subrange(0, dir.len() as int + 1)[k]);
                }
            }
        }
        lemma_split_on_around(dir, '/', b, separator());
        assert(pieces[0] == dir);
    } else {
        let a = path.take(n - dir.len() - 1);
        assert(path =~= a.push('/') + dir) by {
            assert forall|k: int| 0 <= k < path.len() implies path[k] == (a.push('/') + dir)[k] by {
                if k >= n - dir.len() - 1 {
                    assert(path[k] == path.subrange(n - dir.len() - 1, n)[k - (n - dir.len() - 1)]);
                }
            }
        }
        lemma_split_on_around(a, '/', dir, separator());
        let at = split_on(a, separator()).len() as int;
        assert(pieces[at] == dir);
    }
}

/// A component that is not the whole path stands next to a separator.
proof fn lemma_component_is_a_held_directory(dir: Seq<char>, path: Seq<char>)
    requires
        split_on(path, separator()).contains(dir),
        path != dir,
    ensures
        holds_directory(dir, path),
{
    let pieces = split_on(path, separator());
    let k = pieces.index_of(dir);
    assert(pieces[k] == dir);
    assert(forall|x: char| #[trigger] separator()(x) <==> x == '/');
    lemma_join_split(path, '/', separator());
    let n = pieces.len() as int;
    if n == 1 {
        assert(join(pieces, slash()) == dir);
    } else if k == 0 {
        lemma_join_cut(pieces, slash(), 1);
        assert(pieces.take(1)[0] == dir);
        let b = join(pieces.skip(1), slash());
        assert(path =~= dir + slash() + b);
        assert(path.subrange(0, dir.len() as int + 1) =~= dir + slash());
    } else if k == n - 1 {
        let a = join(pieces.drop_last(), slash());
        assert(path =~= a + slash() + dir);
        assert(path.subrange(path.len() - dir.len() - 1, path.len() as int) =~= slash() + dir);
    } else {
        lemma_join_cut(pieces, slash(), k);
        let rest = pieces.skip(k);
        lemma_join_cut(rest, slash(), 1);
        assert(rest.take(1)[0] == dir);
        let a = join(pieces.take(k), slash());
        let b = join(rest.skip(1), slash());
        assert(path =~= a + slash() + (dir + slash() + b));
        let i = a.len() as int;
        let needle = slash() + dir + slash();
        assert(path.subrange(i, i + needle.len()) =~= needle);
        assert(stands_at(needle, path, i));
    }
}

/// `**/dir/**` stands for the paths that have the directory as a component and are more than it.
pub proof fn law_directory_pattern_means_a_component(dir: Seq<char>, path: Seq<char>)
    requires
        !dir.contains('/'),
    ensures
        glob_matches(any_depth() + dir + all_below(), path) <==> (split_on(path, separator()).contains(dir) && path
            != dir),
{
    let pattern = any_depth() + dir + all_below();
    let n = pattern.len() as int;
    assert(pattern.subrange(0, 3) =~= any_depth());
    let rest = pattern.skip(3);
    assert(rest.subrange(rest.len() - 3, rest.len() as int) =~= all_below());
    assert(pattern.subrange(3, n - 3) =~= dir);
    if holds_directory(dir, path) {
        lemma_held_directory_is_a_component(dir, path);
    }
    if split_on(path, separator()).contains(dir) && path != dir {
        lemma_component_is_a_held_directory(dir, path);
    }
}

/// `something/**` stands for the paths that start with `something`, and so for everything below it.
pub proof fn law_start_pattern_means_everything_below(start: Seq<char>, path: Seq<char>, after: Seq<char>)
    requires
        !any_depth().is_prefix_of(start + all_below()),
    ensures
        glob_matches(start + all_below(), path) <==> start.is_prefix_of(path),
        glob_matches(start + all_below(), start + slash() + after),
{
    let pattern = start + all_below();
    let n = pattern.len() as int;
    assert(pattern.subrange(n - 3, n) =~= all_below());
    assert(pattern.take(n - 3) =~= start);
    assert(!any_depth_extension().is_prefix_of(pattern)) by {
        if any_depth_extension().is_prefix_of(pattern) {
            assert(pattern.subrange(0, 3) =~= pattern.subrange(0, 5).subrange(0, 3));
            assert(any_depth_extension().subrange(0, 3) =~= any_depth());
        }
    }
    let direct = start + slash() + after;
    assert(direct.subrange(0, start.len() as int) =~= start);
}

/// `**/something` stands for `something` in any directory and for `something` itself.
pub proof fn law_end_pattern_means_any_directory(name: Seq<char>, before: Seq<char>)
    requires
        !all_below().is_suffix_of(name),
        !extension().is_prefix_of(name),
    ensures
        glob_matches(any_depth() + name, name),
        glob_matches(any_depth() + name, before + slash() + name),
{
    let pattern = any_depth() + name;
    assert(pattern.skip(3) =~= name);
    assert(pattern.subrange(0, 3) =~= any_depth());
    assert(!any_depth_extension().is_prefix_of(pattern)) by {
        if any_depth_extension().is_prefix_of(pattern) {
            assert(name.subrange(0, 2) =~= pattern.subrange(0, 5).subrange(3, 5));
            assert(any_depth_extension().subrange(3, 5) =~= extension());
        }
    }
    assert(name.subrange(0, name.len() as int) =~= name);
    let path = before + slash() + name;
    assert(path.subrange(path.len() - name.len(), path.len() as int) =~= name);
}

/// A pattern of no special form stands for itself, and for itself as a component below something.
pub proof fn law_plain_pattern_means_itself(name: Seq<char>, before: Seq<char>, after: Seq<char>)
    requires
        !any_depth().is_prefix_of(name),
        !all_below().is_suffix_of(name),
        !extension().is_prefix_of(name),
    ensures
        glob_matches(name, name),
        glob_matches(name, name + slash() + after),
        glob_matches(name, before + slash() + name),
        glob_matches(name, before + slash() + name + slash() + after),
{
    assert(!any_depth_extension().is_prefix_of(name)) by {
        if any_depth_extension().is_prefix_of(name) {
            assert(name.subrange(0, 3) =~= name.subrange(0, 5).subrange(0, 3));
            assert(any_depth_extension().subrange(0, 3) =~= any_depth());
        }
    }
    let first = name + slash() + after;
    assert(first.subrange(0, (name + slash()).len() as int) =~= name + slash());
    let end = before + slash() + name;
    assert(end.subrange(end.len() - name.len() - 1, end.len() as int) =~= slash() + name);
    let inner = before + slash() + name + slash() + after;
    let i = before.len() as int;
    assert(inner.subrange(i, i + (slash() + name + slash()).len()) =~= slash() + name + slash());
    assert(stands_at(slash() + name + slash(), inner, i));
}

/// `**/name` stands for the paths that end with `name`, and for no others.
pub proof fn law_end_pattern_means_the_end_of_the_path(name: Seq<char>, path: Seq<char>)
    requires
        !seq!['*', '.'].is_prefix_of(name),
        !seq!['/', '*', '*'].is_suffix_of(name),
    ensures
        glob_matches(seq!['*', '*', '/'] + name, path) <==> exists|before: Seq<char>|
            path == #[trigger] (before + name),
{
    let pattern = seq!['*', '*', '/'] + name;
    let n = path.len() as int;
    let m = name.len() as int;
    assert(pattern.skip(3) =~= name);
    assert(pattern.subrange(0, 3) =~= any_depth());
    assert(!any_depth_extension().is_prefix_of(pattern)) by {
        if any_depth_extension().is_prefix_of(pattern) {
            assert(pattern.subrange(0, 5)[3] == '*' && pattern.subrange(0, 5)[4] == '.');
            assert(name.subrange(0, 2) =~= seq!['*', '.']);
        }
    }
    if glob_matches(pattern, path) {
        assert(path =~= path.take(n - m) + path.subrange(n - m, n));
    }
    assert forall|before: Seq<char>| path == #[trigger] (before + name) implies glob_matches(pattern, path) by {
        assert(path.subrange(n - m, n) =~= name);
    }
}

/// `*.ext` and `**/*.ext` stand for the paths that end with `.ext`, and for no others.
pub proof fn law_extension_pattern_means_the_end_of_the_path(ext: Seq<char>, path: Seq<char>)
    requires
        !seq!['/', '*', '*'].is_suffix_of(ext),
    ensures
        glob_matches(seq!['*', '.'] + ext, path) <==> exists|before: Seq<char>|
            path == #[trigger] (before + (seq!['.'] + ext)),
        glob_matches(seq!['*', '*', '/', '*', '.'] + ext, path) <==> exists|before: Seq<char>|
            path == #[trigger] (before + (seq!['.'] + ext)),
{
    law_extension_patterns_agree(ext, path);
    let end = seq!['.'] + ext;
    let n = path.len() as int;
    let m = end.len() as int;
    if end.is_suffix_of(path) {
        assert(path =~= path.take(n - m) + end) by {
            assert(path =~= path.take(n - m) + path.subrange(n - m, n));
        }
    }
    assert forall|before: Seq<char>| path == #[trigger] (before + end) implies end.is_suffix_of(path) by {
        assert(path.subrange(n - m, n) =~= end);
    }
}

/// `start/**` stands for the paths that begin with `start`, and for no others.
pub proof fn law_start_pattern_means_the_start_of_the_path(start: Seq<char>, path: Seq<char>)
    requires
        !seq!['*', '*', '/'].is_prefix_of(start + seq!['/', '*', '*']),
    ensures
        glob_matches(start + seq!['/', '*', '*'], path) <==> exists|after: Seq<char>|
            path == #[trigger] (start + after),
{
    law_start_pattern_means_everything_below(start, path, Seq::empty());
    let n = path.len() as int;
    let m = start.len() as int;
    if start.is_prefix_of(path) {
        assert(path =~= start + path.skip(m)) by {
            assert(path =~= path.subrange(0, m) + path.skip(m));
        }
    }
    assert forall|after: Seq<char>| path == #[trigger] (start + after) implies start.is_prefix_of(path) by {
        assert(path.subrange(0, m) =~= start);
    }
}

/// `name` stands in `path` next to a separator, and with nothing but separators next to it.
spec fn is_between_separators(name: Seq<char>, path: Seq<char>) -> bool {
    ||| exists|after: Seq<char>| path == #[trigger] (name + seq!['/'] + after)
    ||| exists|before: Seq<char>| path == #[trigger] (before + seq!['/'] + name)
    ||| exists|before: Seq<char>, after: Seq<char>|
        path == #[trigger] (before + seq!['/'] + name + seq!['/'] + after)
}

/// Where `name` stands next to a separator, and where it does not.
proof fn lemma_held_directory_has_text_around(name: Seq<char>, path: Seq<char>)
    ensures
        is_between_separators(name, path) <==> holds_directory(name, path),
{
    let n = path.len() as int;
    let m = name.len() as int;
    let within = slash() + name + slash();
    if is_infix(within, path) {
        law_infix_has_text_around(within, path);
        let (before, after) = choose|before: Seq<char>, after: Seq<char>| path == #[trigger] (before + within + after);
        assert(path =~= before + seq!['/'] + name + seq!['/'] + after);
    }
    if (name + slash()).is_prefix_of(path) {
        let head = name + slash();
        assert(path =~= path.subrange(0, m + 1) + path.skip(m + 1));
        assert(path =~= name + seq!['/'] + path.skip(m + 1));
    }
    if (slash() + name).is_suffix_of(path) {
        assert(path =~= path.take(n - m - 1) + path.subrange(n - m - 1, n));
        assert(path =~= path.take(n - m - 1) + seq!['/'] + name);
    }
    assert forall|before: Seq<char>, after: Seq<char>|
        path == #[trigger] (before + seq!['/'] + name + seq!['/'] + after) implies holds_directory(name, path) by {
        assert(path =~= before + within + after);
        law_infix_has_text_around(within, path);
    }
    assert forall|after: Seq<char>| path == #[trigger] (name + seq!['/'] + after) implies holds_directory(
        name,
        path,
    ) by {
        assert(path.subrange(0, m + 1) =~= name + slash());
    }
    assert forall|before: Seq<char>| path == #[trigger] (before + seq!['/'] + name) implies holds_directory(
        name,
        path,
    ) by {
        assert(path.subrange(n - m - 1, n) =~= slash() + name);
    }
}

/// `**/dir/**` stands for the paths that have `dir` as a component and are more than it, and for no
/// others.
pub proof fn law_directory_pattern_means_a_directory_in_the_path(dir: Seq<char>, path: Seq<char>)
    ensures
        glob_matches(seq!['*', '*', '/'] + dir + seq!['/', '*', '*'], path) <==> {
            ||| exists|after: Seq<char>| path == #[trigger] (dir + seq!['/'] + after)
            ||| exists|before: Seq<char>| path == #[trigger] (before + seq!['/'] + dir)
            ||| exists|before: Seq<char>, after: Seq<char>|
                path == #[trigger] (before + seq!['/'] + dir + seq!['/'] + after)
        },
{
    let pattern = seq!['*', '*', '/'] + dir + seq!['/', '*', '*'];
    let n = pattern.len() as int;
    assert(pattern.subrange(0, 3) =~= any_depth());
    let rest = pattern.skip(3);
    assert(rest.subrange(rest.len() - 3, rest.len() as int) =~= all_below());
    assert(pattern.subrange(3, n - 3) =~= dir);
    lemma_held_directory_has_text_around(dir, path);
}

/// A pattern of no special form stands for the paths that are it or have it as a component, and for
/// no others.
pub proof fn law_plain_pattern_means_a_component(name: Seq<char>, path: Seq<char>)
    requires
        !seq!['*', '*', '/'].is_prefix_of(name),
        !seq!['/', '*', '*'].is_suffix_of(name),
        !seq!['*', '.'].is_prefix_of(name),
    ensures
        glob_matches(name, path) <==> {
            ||| path == name
            ||| exists|after: Seq<char>| path == #[trigger] (name + seq!['/'] + after)
            ||| exists|before: Seq<char>| path == #[trigger] (before + seq!['/'] + name)
            ||| exists|before: Seq<char>, after: Seq<char>|
                path == #[trigger] (before + seq!['/'] + name + seq!['/'] + after)
        },
{
    assert(!any_depth_extension().is_prefix_of(name)) by {
        if any_depth_extension().is_prefix_of(name) {
            assert(name.subrange(0, 3) =~= name.subrange(0, 5).subrange(0, 3));
            assert(any_depth_extension().subrange(0, 3) =~= any_depth());
        }
    }
    lemma_held_directory_has_text_around(name, path);
}

} // verus!
