//! Paths as text.
//!
//! A slash separates components. In a path that is written as on Windows, with a drive or
//! with two backslashes in front, a backslash does so too; elsewhere it is a character of a
//! name like any other.

use crate::text::{chars_of, cut, piece, push_chars, same_chars, spelled, split_on, text_of};
use vstd::prelude::*;

verus! {

/// A path as it is written on Windows: a drive, or two backslashes, and what follows.
pub open spec fn is_windows_path(path: Seq<char>) -> bool {
    path.len() >= 2 && ((path[1] == ':' && ('a' <= path[0] <= 'z' || 'A' <= path[0] <= 'Z')) || (
    path[0] == '\\' && path[1] == '\\'))
}

/// What separates components beside the slash: the backslash, or nothing more.
pub open spec fn other_separator(path: Seq<char>) -> char {
    if is_windows_path(path) {
        '\\'
    } else {
        '/'
    }
}

/// A slash, or the other separator.
pub open spec fn is_separator(c: char, other: char) -> bool {
    c == '/' || c == other
}

/// The separator that `folder` is written with.
pub open spec fn separator_of(folder: Seq<char>) -> char {
    if is_windows_path(folder) && !folder.contains('/') && folder.contains('\\') {
        '\\'
    } else {
        '/'
    }
}

fn other_of(path: &Vec<char>) -> (other: char)
    ensures
        other == other_separator(path@),
{
    if path.len() < 2 {
        return '/';
    }
    let first = path[0];
    let drive = path[1] == ':' && (('a' <= first && first <= 'z') || ('A' <= first && first <= 'Z'));
    if drive || (first == '\\' && path[1] == '\\') {
        '\\'
    } else {
        '/'
    }
}

/// The path of `name` inside `folder`.
pub open spec fn inside(folder: Seq<char>, name: Seq<char>) -> Seq<char> {
    if folder.len() == 0 || is_separator(folder.last(), other_separator(folder)) {
        folder + name
    } else {
        folder.push(separator_of(folder)) + name
    }
}

fn has_char(chars: &Vec<char>, wanted: char) -> (found: bool)
    ensures
        found == chars@.contains(wanted),
{
    let mut index: usize = 0;
    while index < chars.len()
        invariant
            index <= chars@.len(),
            forall|i: int| 0 <= i < index ==> chars@[i] != wanted,
        decreases chars@.len() - index,
    {
        if chars[index] == wanted {
            return true;
        }
        index += 1;
    }
    false
}

/// The path of `name` inside `folder`.
pub fn join(folder: &str, name: &str) -> (path: String)
    ensures
        path@ == inside(folder@, name@),
{
    let mut path = chars_of(folder);
    let more = chars_of(name);
    if path.len() > 0 {
        let last = path[path.len() - 1];
        let other = other_of(&path);
        if !is_sep(last, other) {
            let separator = if other == '\\' && !has_char(&path, '/') && has_char(&path, '\\') {
                '\\'
            } else {
                '/'
            };
            path.push(separator);
        }
    }
    push_chars(&mut path, &more);
    text_of(&path)
}

/// A piece between separators that names nothing: an empty one, or a dot that is
/// not what a relative path starts with.
pub open spec fn names_nothing(pieces: Seq<Seq<char>>, index: int) -> bool {
    pieces[index].len() == 0 || (index > 0 && pieces[index] == seq!['.'])
}

/// The pieces that name something, among the first `upto`.
pub open spec fn naming(pieces: Seq<Seq<char>>, upto: int) -> Seq<Seq<char>>
    decreases upto,
{
    if upto <= 0 {
        Seq::empty()
    } else if names_nothing(pieces, upto - 1) {
        naming(pieces, upto - 1)
    } else {
        naming(pieces, upto - 1).push(pieces[upto - 1])
    }
}

/// The components of a path: the root, if the path starts there, and the names
/// below it.
pub open spec fn components(path: Seq<char>) -> Seq<Seq<char>> {
    let pieces = cut(path, '/', other_separator(path));
    let names = naming(pieces, pieces.len() as int);
    if path.len() > 0 && is_separator(path[0], other_separator(path)) {
        seq![seq!['/']] + names
    } else {
        names
    }
}

pub fn components_of(path: &Vec<char>) -> (parts: Vec<Vec<char>>)
    ensures
        spelled(parts@) == components(path@),
{
    let other = other_of(path);
    let pieces = split_on(path, '/', other);
    let ghost spelt = spelled(pieces@);
    let mut parts: Vec<Vec<char>> = Vec::new();
    let ghost mut root: Seq<Seq<char>> = Seq::empty();
    if path.len() > 0 && is_sep(path[0], other) {
        let mut top: Vec<char> = Vec::new();
        top.push('/');
        assert(top@ =~= seq!['/']);
        parts.push(top);
        proof {
            root = seq![seq!['/']];
        }
        assert(spelled(parts@) =~= root);
    }
    let mut index: usize = 0;
    assert(root + naming(spelt, 0) =~= root);
    assert(spelled(parts@) =~= root);
    while index < pieces.len()
        invariant
            index <= pieces@.len(),
            spelt == spelled(pieces@),
            spelled(parts@) == root + naming(spelt, index as int),
        decreases pieces@.len() - index,
    {
        assert(spelt[index as int] == pieces@[index as int]@);
        let is_dot = pieces[index].len() == 1 && pieces[index][0] == '.';
        assert(is_dot == (pieces@[index as int]@ =~= seq!['.']));
        if !(pieces[index].len() == 0 || (index > 0 && is_dot)) {
            let name = piece(&pieces[index], 0, pieces[index].len());
            assert(name@ =~= spelt[index as int]);
            let ghost had = parts@;
            parts.push(name);
            assert(spelled(parts@) =~= spelled(had).push(name@));
            assert(root + naming(spelt, index + 1) =~= (root + naming(spelt, index as int)).push(
                name@,
            ));
        }
        index += 1;
    }
    assert(spelled(parts@) =~= components(path@));
    parts
}

/// `path` lies in `folder`, or is it: component by component.
pub open spec fn is_within(path: Seq<char>, folder: Seq<char>) -> bool {
    let inner = components(path);
    let outer = components(folder);
    outer.len() <= inner.len() && inner.take(outer.len() as int) == outer
}

pub fn within(path: &str, folder: &str) -> (inside: bool)
    ensures
        inside == is_within(path@, folder@),
{
    let inner = components_of(&chars_of(path));
    let outer = components_of(&chars_of(folder));
    let ghost a = components(path@);
    let ghost b = components(folder@);
    assert(a.len() == inner@.len() && b.len() == outer@.len());
    if outer.len() > inner.len() {
        return false;
    }
    let mut index: usize = 0;
    while index < outer.len()
        invariant
            index <= outer@.len() <= inner@.len(),
            a == spelled(inner@),
            b == spelled(outer@),
            a == components(path@),
            b == components(folder@),
            a.take(index as int) =~= b.take(index as int),
        decreases outer@.len() - index,
    {
        if !same_chars(&inner[index], &outer[index]) {
            assert(a[index as int] != b[index as int]);
            assert(a.take(b.len() as int)[index as int] != b[index as int]);
            return false;
        }
        assert(a[index as int] == b[index as int]);
        assert(a.take(index + 1) =~= a.take(index as int).push(a[index as int]));
        assert(b.take(index + 1) =~= b.take(index as int).push(b[index as int]));
        index += 1;
    }
    assert(b.take(b.len() as int) =~= b);
    true
}

/// Two paths name the same place.
pub fn same_path(a: &str, b: &str) -> (same: bool)
    ensures
        same == (components(a@) == components(b@)),
{
    let forth = within(a, b);
    let back = within(b, a);
    proof {
        let x = components(a@);
        let y = components(b@);
        if x.len() == y.len() {
            assert(x.take(x.len() as int) =~= x);
            assert(y.take(y.len() as int) =~= y);
        }
    }
    forth && back
}

/// The name of what a path leads to: its last component, unless that is the root
/// or leads upwards.
pub open spec fn name_of(path: Seq<char>) -> Option<Seq<char>> {
    let pieces = cut(path, '/', other_separator(path));
    let names = naming(pieces, pieces.len() as int);
    if names.len() == 0 || names.last() == seq!['.', '.'] || names.last() == seq!['.'] {
        None
    } else {
        Some(names.last())
    }
}

/// Where the last dot of a name is, if it has one.
pub open spec fn last_dot(name: Seq<char>) -> int
    decreases name.len(),
{
    if name.len() == 0 {
        -1
    } else if name.last() == '.' {
        name.len() - 1
    } else {
        last_dot(name.drop_last())
    }
}

/// What stands behind the last dot of a name. A name that only starts with a dot
/// has no extension.
pub open spec fn extension_of_name(name: Seq<char>) -> Option<Seq<char>> {
    if last_dot(name) <= 0 {
        None
    } else {
        Some(name.skip(last_dot(name) + 1))
    }
}

/// The extension of what a path leads to.
pub open spec fn extension(path: Seq<char>) -> Option<Seq<char>> {
    match name_of(path) {
        Some(name) => extension_of_name(name),
        None => None,
    }
}

proof fn lemma_components_and_names(path: Seq<char>)
    ensures
        ({
            let pieces = cut(path, '/', other_separator(path));
            let names = naming(pieces, pieces.len() as int);
            let all = components(path);
            &&& names.len() > 0 ==> all.len() > 0 && all.last() == names.last()
            &&& names.len() == 0 ==> all.len() == 0 || all == seq![seq!['/']]
            &&& names.len() > 0 ==> !(path.len() > 0 && is_separator(
                path[0],
                other_separator(path),
            )) || all.len() > 1
        }),
{
}

/// The name of what a path leads to.
pub fn file_name(path: &str) -> (name: Option<Vec<char>>)
    ensures
        match name {
            Some(chars) => name_of(path@) == Some(chars@),
            None => name_of(path@) is None,
        },
{
    let chars = chars_of(path);
    let mut parts = components_of(&chars);
    let ghost all = components(path@);
    proof {
        lemma_components_and_names(path@);
    }
    let rooted = chars.len() > 0 && is_sep(chars[0], other_of(&chars));
    assert(spelled(parts@).len() == parts@.len());
    if parts.len() == 0 || (rooted && parts.len() == 1) {
        return None;
    }
    let ghost had = parts@;
    let last = parts.pop();
    match last {
        Some(name) => {
            assert(spelled(had)[had.len() - 1] == name@);
            assert(name@ == all.last());
            let upwards = name.len() == 2 && name[0] == '.' && name[1] == '.';
            assert(upwards == (name@ =~= seq!['.', '.']));
            let here = name.len() == 1 && name[0] == '.';
            assert(here == (name@ =~= seq!['.']));
            if upwards || here {
                None
            } else {
                Some(name)
            }
        },
        None => None,
    }
}

/// The extension of a name.
pub fn name_extension(name: &Vec<char>) -> (found: Option<Vec<char>>)
    ensures
        match found {
            Some(chars) => extension_of_name(name@) == Some(chars@),
            None => extension_of_name(name@) is None,
        },
{
    let mut end: usize = name.len();
    assert(name@.take(name@.len() as int) =~= name@);
    while end > 0 && name[end - 1] != '.'
        invariant
            end <= name@.len(),
            last_dot(name@.take(end as int)) == last_dot(name@),
        decreases end,
    {
        assert(name@.take(end as int).drop_last() =~= name@.take(end - 1));
        end -= 1;
    }
    if end <= 1 {
        return None;
    }
    let found = piece(name, end, name.len());
    assert(found@ =~= name@.skip(end as int));
    Some(found)
}

/// The extension of what a path leads to.
pub fn path_extension(path: &str) -> (found: Option<Vec<char>>)
    ensures
        match found {
            Some(chars) => extension(path@) == Some(chars@),
            None => extension(path@) is None,
        },
{
    match file_name(path) {
        Some(name) => name_extension(&name),
        None => None,
    }
}

/// A name that stands for itself inside any folder: without a separator, not empty, and
/// no dot that leads nowhere.
pub open spec fn plain_name(name: Seq<char>) -> bool {
    &&& name.len() > 0
    &&& name != seq!['.']
    &&& forall|i: int| 0 <= i < name.len() ==> !is_separator(#[trigger] name[i], '\\')
}

proof fn lemma_cut_behind_separator(text: Seq<char>, name: Seq<char>, other: char)
    requires
        text.len() > 0,
        is_separator(text.last(), other),
        forall|i: int| 0 <= i < name.len() ==> !is_separator(#[trigger] name[i], other),
    ensures
        cut(text + name, '/', other) == cut(text.drop_last(), '/', other).push(name),
    decreases name.len(),
{
    if name.len() == 0 {
        assert(text + name =~= text);
        assert(name =~= Seq::<char>::empty());
    } else {
        let shorter = name.drop_last();
        assert forall|i: int| 0 <= i < shorter.len() implies !is_separator(
            #[trigger] shorter[i],
            other,
        ) by {
            assert(!is_separator(name[i], other));
        }
        lemma_cut_behind_separator(text, shorter, other);
        let whole = text + name;
        assert(whole.drop_last() =~= text + shorter);
        assert(whole.last() == name.last());
        assert(!is_separator(name[name.len() - 1], other));
        let before = cut(text.drop_last(), '/', other);
        assert(before.push(shorter).drop_last().push(shorter.push(name.last())) =~= before.push(
            shorter.push(name.last()),
        ));
        assert(shorter.push(name.last()) =~= name);
    }
}

proof fn lemma_naming_prefix(a: Seq<Seq<char>>, b: Seq<Seq<char>>, upto: int)
    requires
        0 <= upto <= a.len(),
        upto <= b.len(),
        forall|i: int| 0 <= i < upto ==> a[i] == b[i],
    ensures
        naming(a, upto) == naming(b, upto),
    decreases upto,
{
    if upto > 0 {
        lemma_naming_prefix(a, b, upto - 1);
        assert(a[upto - 1] == b[upto - 1]);
    }
}

/// A name behind a path and a separator is found behind the components of the path.
pub proof fn lemma_name_behind_separator(folder: Seq<char>, separator: char, name: Seq<char>)
    requires
        folder.len() > 0,
        !is_separator(folder.last(), other_separator(folder)),
        is_separator(separator, other_separator(folder)),
        plain_name(name),
    ensures
        components(folder.push(separator) + name) == components(folder).push(name),
{
    let longer = folder.push(separator);
    let path = longer + name;
    let other = other_separator(folder);
    assert(path[0] == folder[0]);
    assert(path[1] == if folder.len() > 1 {
        folder[1]
    } else {
        separator
    });
    assert(other_separator(path) == other);
    let pieces = cut(path, '/', other);
    let inner = cut(folder, '/', other);
    assert forall|i: int| 0 <= i < name.len() implies !is_separator(#[trigger] name[i], other) by {
        assert(!is_separator(name[i], '\\'));
    }
    lemma_cut_behind_separator(longer, name, other);
    assert(longer.drop_last() =~= folder);
    assert(pieces == inner.push(name));
    lemma_naming_prefix(pieces, inner, inner.len() as int);
    assert(pieces.last() == name);
    assert(!names_nothing(pieces, pieces.len() - 1));
    assert(naming(pieces, pieces.len() as int) == naming(inner, inner.len() as int).push(name));
    assert(path[0] == folder[0]);
    assert(components(path) =~= components(folder).push(name));
}

/// What is put inside a folder is found behind the components of the folder.
pub proof fn joined_path_is_one_deeper(folder: Seq<char>, name: Seq<char>)
    requires
        folder.len() > 0,
        plain_name(name),
    ensures
        components(inside(folder, name)) == components(folder).push(name),
        is_within(inside(folder, name), folder),
{
    let path = inside(folder, name);
    let other = other_separator(folder);
    let pieces = cut(path, '/', other);
    let inner = cut(folder, '/', other);
    if is_separator(folder.last(), other) {
        assert forall|i: int| 0 <= i < name.len() implies !is_separator(
            #[trigger] name[i],
            other,
        ) by {
            assert(!is_separator(name[i], '\\'));
        }
        assert(path[0] == folder[0]);
        assert(path[1] == if folder.len() > 1 {
            folder[1]
        } else {
            name[0]
        });
        assert(other_separator(path) == other);
        lemma_cut_behind_separator(folder, name, other);
        // The folder's own last piece is empty and names nothing.
        let head = cut(folder.drop_last(), '/', other);
        assert(pieces == head.push(name));
        assert(inner == head.push(Seq::empty()));
        lemma_naming_prefix(pieces, inner, head.len() as int);
        assert(names_nothing(inner, head.len() as int));
        assert(naming(inner, inner.len() as int) == naming(inner, head.len() as int));
        assert(pieces.last() == name);
        assert(!names_nothing(pieces, pieces.len() - 1));
        assert(naming(pieces, pieces.len() as int) == naming(inner, inner.len() as int).push(name));
        assert(path[0] == folder[0]);
        assert(components(path) =~= components(folder).push(name));
    } else {
        lemma_name_behind_separator(folder, separator_of(folder), name);
    }
    let all = components(path);
    assert(all.take(components(folder).len() as int) =~= components(folder));
}

/// A path without the separators and lone dots behind its last name.
pub open spec fn up_to_name(path: Seq<char>, other: char) -> Seq<char>
    decreases path.len(),
{
    if path.len() > 1 && is_separator(path.last(), other) {
        up_to_name(path.drop_last(), other)
    } else if path.len() > 1 && path.last() == '.' && is_separator(path[path.len() - 2], other) {
        up_to_name(path.drop_last(), other)
    } else {
        path
    }
}

/// Where the last name of a path begins: behind its last separator.
pub open spec fn name_start(path: Seq<char>, other: char) -> int
    decreases path.len(),
{
    if path.len() == 0 || is_separator(path.last(), other) {
        path.len() as int
    } else {
        name_start(path.drop_last(), other)
    }
}

/// The folder that a path lies in: what stands before its last name.
pub open spec fn folder_of(path: Seq<char>) -> Seq<char> {
    let other = other_separator(path);
    let text = up_to_name(path, other);
    up_to_name(text.take(name_start(text, other)), other)
}

fn is_sep(c: char, other: char) -> (separator: bool)
    ensures
        separator == is_separator(c, other),
{
    c == '/' || c == other
}

fn name_end(path: &Vec<char>, from: usize, other: char) -> (end: usize)
    requires
        from <= path@.len(),
    ensures
        end <= from,
        path@.take(end as int) == up_to_name(path@.take(from as int), other),
{
    let mut end: usize = from;
    while end > 1 && (is_sep(path[end - 1], other) || (path[end - 1] == '.' && is_sep(path[end - 2], other)))
        invariant
            end <= from <= path@.len(),
            up_to_name(path@.take(end as int), other) == up_to_name(path@.take(from as int), other),
        decreases end,
    {
        assert(path@.take(end as int).drop_last() =~= path@.take(end - 1));
        end -= 1;
    }
    end
}

/// The folder that a path lies in.
pub fn parent_of(path: &str) -> (folder: String)
    ensures
        folder@ == folder_of(path@),
{
    let chars = chars_of(path);
    assert(chars@.take(chars@.len() as int) =~= path@);
    let other = other_of(&chars);
    let end: usize = name_end(&chars, chars.len(), other);
    let ghost text = chars@.take(end as int);
    let mut start: usize = end;
    assert(chars@.take(start as int) =~= text);
    while start > 0 && !is_sep(chars[start - 1], other)
        invariant
            start <= end <= chars@.len(),
            name_start(chars@.take(start as int), other) == name_start(text, other),
        decreases start,
    {
        assert(chars@.take(start as int).drop_last() =~= chars@.take(start - 1));
        start -= 1;
    }
    assert(name_start(text, other) == start);
    assert(text.take(start as int) =~= chars@.take(start as int));
    let outer: usize = name_end(&chars, start, other);
    let folder = piece(&chars, 0, outer);
    assert(folder@ =~= chars@.take(outer as int));
    text_of(&folder)
}

/// The path with more put behind its last name.
pub open spec fn name_extended(path: Seq<char>, more: Seq<char>) -> Seq<char> {
    match name_of(path) {
        Some(_) => up_to_name(path, other_separator(path)) + more,
        None => inside(path, more),
    }
}

/// The path with more put behind its last name; a path that has none gets it as a name.
pub fn extend_name(path: &str, more: &str) -> (longer: String)
    ensures
        longer@ == name_extended(path@, more@),
{
    match file_name(path) {
        Some(_) => {
            let chars = chars_of(path);
            assert(chars@.take(chars@.len() as int) =~= path@);
            let end: usize = name_end(&chars, chars.len(), other_of(&chars));
            let mut longer = piece(&chars, 0, end);
            assert(longer@ =~= chars@.take(end as int));
            push_chars(&mut longer, &chars_of(more));
            text_of(&longer)
        },
        None => join(path, more),
    }
}

/// What stands behind the last dot of a name is its extension, as long as something stands
/// before that dot; without a dot there is none.
pub proof fn extension_stands_behind_the_last_dot(stem: Seq<char>, ending: Seq<char>)
    requires
        !ending.contains('.'),
    ensures
        stem.len() > 0 ==> extension_of_name(stem.push('.') + ending) == Some(ending),
        extension_of_name(seq!['.'] + ending) is None,
        extension_of_name(ending) is None,
{
    lemma_last_dot(stem, ending);
    assert((stem.push('.') + ending).skip(stem.len() as int + 1) =~= ending);
    lemma_last_dot(Seq::empty(), ending);
    assert(Seq::<char>::empty().push('.') + ending =~= seq!['.'] + ending);
    lemma_no_dot(ending);
}

proof fn lemma_no_dot(name: Seq<char>)
    requires
        !name.contains('.'),
    ensures
        last_dot(name) == -1,
    decreases name.len(),
{
    if name.len() > 0 {
        assert(name.contains(name[name.len() - 1]));
        assert forall|c: char| name.drop_last().contains(c) implies name.contains(c) by {
            let i = choose|i: int| 0 <= i < name.drop_last().len() && name.drop_last()[i] == c;
            assert(name[i] == c);
        }
        lemma_no_dot(name.drop_last());
    }
}

proof fn lemma_last_dot(stem: Seq<char>, ending: Seq<char>)
    requires
        !ending.contains('.'),
    ensures
        last_dot(stem.push('.') + ending) == stem.len(),
    decreases ending.len(),
{
    let name = stem.push('.') + ending;
    if ending.len() == 0 {
        assert(name.last() == '.');
    } else {
        let shorter = ending.drop_last();
        assert(ending.contains(ending[ending.len() - 1]));
        assert forall|c: char| shorter.contains(c) implies ending.contains(c) by {
            let i = choose|i: int| 0 <= i < shorter.len() && shorter[i] == c;
            assert(ending[i] == c);
        }
        lemma_last_dot(stem, shorter);
        assert(name.drop_last() =~= stem.push('.') + shorter);
    }
}

/// A folder as it is written without anything behind its last name: no separator, and no dot
/// behind one.
pub open spec fn ends_with_a_name(folder: Seq<char>) -> bool {
    let other = other_separator(folder);
    &&& folder.len() > 0
    &&& !is_separator(folder.last(), other)
    &&& !(folder.len() > 1 && folder.last() == '.' && is_separator(folder[folder.len() - 2], other))
}

/// What is put inside a folder lies in that folder and goes by that name, and the folder does
/// not lie in it.
pub proof fn joined_path_is_taken_apart(folder: Seq<char>, name: Seq<char>)
    requires
        ends_with_a_name(folder),
        plain_name(name),
    ensures
        folder_of(inside(folder, name)) == folder,
        name != seq!['.', '.'] ==> name_of(inside(folder, name)) == Some(name),
        !is_within(folder, inside(folder, name)),
        is_within(folder, folder),
{
    joined_path_is_one_deeper(folder, name);
    let other = other_separator(folder);
    let separator = separator_of(folder);
    let longer = folder.push(separator);
    let path = inside(folder, name);
    assert(path == longer + name);
    assert(path[0] == folder[0]);
    assert(path[1] == if folder.len() > 1 {
        folder[1]
    } else {
        separator
    });
    assert(other_separator(path) == other);
    assert(!is_separator(name[name.len() - 1], '\\'));
    assert(path.last() == name.last());
    if name.len() > 1 {
        assert(!is_separator(name[name.len() - 2], '\\'));
        assert(path[path.len() - 2] == name[name.len() - 2]);
    } else {
        assert(name.last() != '.') by {
            if name.last() == '.' {
                assert(name =~= seq!['.']);
            }
        }
    }
    assert(up_to_name(path, other) == path);
    lemma_name_start(longer, name, other);
    assert(path.take(longer.len() as int) =~= longer);
    assert(longer.drop_last() =~= folder);
    assert(up_to_name(longer, other) == up_to_name(folder, other));
    assert(up_to_name(folder, other) == folder);
    lemma_components_and_names(path);
    assert(components(path).last() == name);
    let pieces = cut(path, '/', other);
    let names = naming(pieces, pieces.len() as int);
    if names.len() == 0 {
        assert(components(path) == seq![seq!['/']]);
        assert(name[0] == '/');
        assert(!is_separator(name[0], '\\'));
    }
    assert(components(folder).take(components(folder).len() as int) =~= components(folder));
}

proof fn lemma_name_start(before: Seq<char>, name: Seq<char>, other: char)
    requires
        before.len() > 0,
        is_separator(before.last(), other),
        other == '/' || other == '\\',
        forall|i: int| 0 <= i < name.len() ==> !is_separator(#[trigger] name[i], '\\'),
    ensures
        name_start(before + name, other) == before.len(),
    decreases name.len(),
{
    let path = before + name;
    if name.len() == 0 {
        assert(path =~= before);
    } else {
        let shorter = name.drop_last();
        assert forall|i: int| 0 <= i < shorter.len() implies !is_separator(
            #[trigger] shorter[i],
            '\\',
        ) by {
            assert(!is_separator(name[i], '\\'));
        }
        lemma_name_start(before, shorter, other);
        assert(!is_separator(name[name.len() - 1], '\\'));
        assert(path.last() == name.last());
        assert(path.drop_last() =~= before + shorter);
    }
}

/// A name by itself is a path of that one name, and the root is a path of its own.
pub proof fn plain_name_is_one_component(name: Seq<char>)
    requires
        plain_name(name),
        !is_windows_path(name),
    ensures
        components(name) == seq![name],
        components(seq!['/']) == seq![seq!['/']],
        components(Seq::empty()).len() == 0,
        components(seq!['/'] + name) == seq![seq!['/'], name],
{
    assert(!is_separator(name[0], '\\'));
    assert(!name.contains('/')) by {
        if name.contains('/') {
            let i = choose|i: int| 0 <= i < name.len() && name[i] == '/';
            assert(!is_separator(name[i], '\\'));
        }
    }
    crate::text::marks_part_a_text(name, '/', Seq::empty(), '/', '/');
    let pieces = seq![name];
    assert(naming(pieces, 0) =~= Seq::empty());
    assert(!names_nothing(pieces, 0));
    assert(naming(pieces, 1) =~= seq![name]);
    assert(components(name) =~= seq![name]);
    let root = seq!['/'];
    let nothing = Seq::<char>::empty();
    crate::text::marks_part_a_text(nothing, '/', nothing, '/', '/');
    assert(nothing.push('/') + nothing =~= root);
    let halves = cut(root, '/', '/');
    assert(halves =~= seq![nothing, nothing]);
    assert(naming(halves, 0) =~= Seq::empty());
    assert(names_nothing(halves, 0) && names_nothing(halves, 1));
    assert(naming(halves, 1) =~= Seq::empty());
    assert(naming(halves, 2) =~= Seq::empty());
    assert(components(root) =~= seq![seq!['/']]);
    let none = cut(nothing, '/', '/');
    assert(none =~= seq![nothing]);
    assert(names_nothing(none, 0));
    assert(naming(none, 0) =~= Seq::empty());
    assert(naming(none, 1) =~= Seq::empty());
    joined_path_is_one_deeper(root, name);
    assert(inside(root, name) == root + name);
    assert(components(root + name) =~= seq![seq!['/'], name]);
}

/// What is put behind the name of a file is put behind it as it is written.
pub proof fn name_is_made_longer(folder: Seq<char>, name: Seq<char>, more: Seq<char>)
    requires
        ends_with_a_name(folder),
        plain_name(name),
        name != seq!['.', '.'],
    ensures
        name_extended(inside(folder, name), more) == inside(folder, name) + more,
{
    joined_path_is_taken_apart(folder, name);
    let path = inside(folder, name);
    let separator = separator_of(folder);
    assert(path == folder.push(separator) + name);
    assert(path[0] == folder[0]);
    assert(path[1] == if folder.len() > 1 {
        folder[1]
    } else {
        separator
    });
    let other = other_separator(folder);
    assert(other_separator(path) == other);
    assert(!is_separator(name[name.len() - 1], '\\'));
    assert(path.last() == name.last());
    if name.len() > 1 {
        assert(!is_separator(name[name.len() - 2], '\\'));
        assert(path[path.len() - 2] == name[name.len() - 2]);
    } else {
        assert(name.last() != '.') by {
            if name.last() == '.' {
                assert(name =~= seq!['.']);
            }
        }
    }
    assert(up_to_name(path, other) == path);
}

} // verus!
