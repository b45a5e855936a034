//! What paths promise: how they come apart and where a file next to another one lies.
use vstd::prelude::*;

use crate::paths::{
    absolute, cut_at, dir_part, extension_part, file_part, kept, last_at, last_part, name_end,
    name_start, names_yaml, path_beside, place_of, stem_part,
};
use crate::text::{after_prefix, begins_with, listed};

verus! {

proof fn lemma_last_at(s: Seq<char>, c: char, n: int)
    requires
        0 <= n <= s.len(),
    ensures
        match last_at(s, c, n) {
            Some(i) => 0 <= i < n && s[i] == c && forall|j: int| i < j < n ==> s[j] != c,
            None => forall|j: int| 0 <= j < n ==> s[j] != c,
        },
    decreases n,
{
    if n > 0 {
        lemma_last_at(s, c, n - 1);
    }
}

proof fn lemma_kept_whole(path: Seq<char>, n: int)
    requires
        0 < n <= path.len(),
        path[n - 1] != '/',
        path[n - 1] != '.',
    ensures
        kept(path, n) == n,
{
}

/// A relative file lies in the directory of the dataset, an absolute one where it says.
pub proof fn law_files_lie_beside_their_dataset(path: Seq<char>, file: Seq<char>)
    ensures
        file.len() > 0 && file[0] == '/' ==> path_beside(path, file) == file,
        file.len() == 0 || file[0] != '/' ==> path_beside(path, file) == dir_part(path) + file,
{
}

/// A directory and a file name with `/` between them come apart again: the file name is what
/// stands behind the last `/`.
pub proof fn law_paths_come_apart(dir: Seq<char>, name: Seq<char>)
    requires
        name.len() > 0,
        !name.contains('/'),
        name.last() != '.',
        dir.len() > 0,
        dir.last() != '/',
        dir.last() != '.',
    ensures
        dir_part(dir + seq!['/'] + name) == dir + seq!['/'],
        file_part(dir + seq!['/'] + name) == Some(name),
        place_of(dir + seq!['/'] + name) == dir + seq!['/'],
{
    let path = dir + seq!['/'] + name;
    let n = path.len() as int;
    assert(path[n - 1] == name.last());
    assert(name.last() != '/') by {
        assert(name[name.len() - 1] == name.last());
    }
    lemma_kept_whole(path, n);
    assert(name_end(path) == n);
    lemma_last_at(path, '/', n);
    let at = dir.len() as int;
    assert(path[at] == '/');
    assert forall|j: int| at < j < n implies path[j] != '/' by {
        assert(path[j] == name[j - at - 1]);
    }
    assert(last_at(path, '/', n) == Some(at));
    assert(name_start(path) == at + 1);
    assert(last_part(path) =~= name);
    assert(path[at - 1] == dir.last());
    lemma_kept_whole(path, at);
    assert(kept(path, at + 1) == at);
    assert(path.subrange(0, at + 1) =~= dir + seq!['/']);
    reveal_strlit(".");
    reveal_strlit("..");
    assert("."@[0] == '.');
    assert(".."@[1] == '.');
    if name == "."@ {
        assert(name.last() == '.');
    }
    if name == ".."@ {
        assert(name.last() == '.');
    }
}

/// A bare file name lies in no directory.
pub proof fn law_bare_names_have_no_directory(name: Seq<char>)
    requires
        name.len() > 0,
        !name.contains('/'),
        name.last() != '.',
    ensures
        dir_part(name).len() == 0,
        file_part(name) == Some(name),
        !absolute(name),
{
    let n = name.len() as int;
    assert(name.contains(name[n - 1]));
    assert(name[n - 1] == name.last());
    lemma_kept_whole(name, n);
    lemma_last_at(name, '/', n);
    assert forall|j: int| 0 <= j < n implies name[j] != '/' by {
        assert(name.contains(name[j]));
    }
    assert(last_part(name) =~= name);
    reveal_strlit(".");
    reveal_strlit("..");
    assert("."@[0] == '.');
    assert(".."@[1] == '.');
    if name == "."@ {
        assert(name.last() == '.');
    }
    if name == ".."@ {
        assert(name.last() == '.');
    }
    assert(name.contains(name[0]));
}

/// A stem and an extension with a dot between them come apart again.
pub proof fn law_names_come_apart(stem: Seq<char>, extension: Seq<char>)
    requires
        stem.len() > 0,
        extension.len() > 0,
        !stem.contains('/'),
        !extension.contains('/'),
        !extension.contains('.'),
    ensures
        stem_part(stem + seq!['.'] + extension) == Some(stem),
        extension_part(stem + seq!['.'] + extension) == Some(extension),
{
    let name = stem + seq!['.'] + extension;
    let n = name.len() as int;
    let at = stem.len() as int;
    assert(name.last() == extension.last());
    assert(extension.contains(extension[extension.len() - 1]));
    assert(!name.contains('/')) by {
        if name.contains('/') {
            let j = choose|j: int| 0 <= j < n && name[j] == '/';
            if j < at {
                assert(stem.contains(stem[j]));
            } else if j > at {
                assert(extension.contains(extension[j - at - 1]));
            }
        }
    }
    law_bare_names_have_no_directory(name);
    lemma_last_at(name, '.', n);
    assert(name[at] == '.');
    assert forall|j: int| at < j < n implies name[j] != '.' by {
        assert(extension.contains(extension[j - at - 1]));
        assert(name[j] == extension[j - at - 1]);
    }
    assert(last_at(name, '.', n) == Some(at));
    assert(cut_at(name) == Some(at));
    assert(name.subrange(0, at) =~= stem);
    assert(name.subrange(at + 1, n) =~= extension);
}

/// A name without a dot has no extension.
pub proof fn law_names_without_a_dot_have_no_extension(name: Seq<char>)
    requires
        name.len() > 0,
        !name.contains('/'),
        !name.contains('.'),
    ensures
        extension_part(name) is None,
        stem_part(name) == Some(name),
        !names_yaml(name),
{
    assert(name.contains(name[name.len() - 1]));
    law_bare_names_have_no_directory(name);
    lemma_last_at(name, '.', name.len() as int);
    if let Some(i) = last_at(name, '.', name.len() as int) {
        assert(name.contains(name[i]));
    }
}

/// Dataset files end in `yaml` or `yml`.
pub proof fn law_dataset_files_are_told_by_their_extension(stem: Seq<char>, extension: Seq<char>)
    requires
        stem.len() > 0,
        extension.len() > 0,
        !stem.contains('/'),
        !extension.contains('/'),
        !extension.contains('.'),
    ensures
        names_yaml(stem + seq!['.'] + extension) <==> extension == "yaml"@ || extension == "yml"@,
{
    law_names_come_apart(stem, extension);
}

/// What follows a prefix, with the prefix before it, is the text again, and only a text that
/// begins with the prefix has something behind it.
pub proof fn law_prefixes_come_off(s: Seq<char>, prefix: Seq<char>, rest: Seq<char>)
    ensures
        after_prefix(prefix + rest, prefix) == Some(rest),
        after_prefix(s, prefix) is Some ==> prefix + after_prefix(s, prefix)->0 == s,
        after_prefix(s, prefix) is Some <==> begins_with(s, prefix),
{
    let t = prefix + rest;
    assert(t.subrange(0, prefix.len() as int) =~= prefix);
    assert(t.subrange(prefix.len() as int, t.len() as int) =~= rest);
    if begins_with(s, prefix) {
        assert(prefix + s.subrange(prefix.len() as int, s.len() as int) =~= s);
    }
}

/// A list of texts is written with commas between them and nothing around them.
pub proof fn law_lists_are_written_with_commas(s: Seq<Seq<char>>, n: int)
    requires
        1 < n <= s.len(),
    ensures
        listed(s, 1) == s[0],
        listed(s, n) == listed(s, n - 1) + ", "@ + s[n - 1],
        listed(s, 0).len() == 0,
{
}

} // verus!
