//! Paths as text: a directory part that ends in `/`, and a file name with stem and extension. Final
//! separators do not count.
use vstd::prelude::*;

use crate::text::{decimal_text, digit_text, same_text};

verus! {

/// Position of the last `c` among the first `n` characters of `s`.
pub open spec fn last_at(s: Seq<char>, c: char, n: int) -> Option<int>
    decreases n,
{
    if n <= 0 || n > s.len() {
        None
    } else if s[n - 1] == c {
        Some(n - 1)
    } else {
        last_at(s, c, n - 1)
    }
}

/// Where the first `n` characters of a path end when final separators, and `.` behind them, are
/// left out.
pub open spec fn kept(path: Seq<char>, n: int) -> int
    decreases n,
{
    if n <= 0 || n > path.len() {
        0
    } else if path[n - 1] == '/' {
        kept(path, n - 1)
    } else if n >= 2 && path[n - 1] == '.' && path[n - 2] == '/' {
        kept(path, n - 1)
    } else {
        n
    }
}

/// Where the last component of a path ends.
pub open spec fn name_end(path: Seq<char>) -> int {
    kept(path, path.len() as int)
}

/// Where the last component of a path begins.
pub open spec fn name_start(path: Seq<char>) -> int {
    match last_at(path, '/', name_end(path)) {
        Some(i) => i + 1,
        None => 0,
    }
}

/// The last component of a path; empty for the root.
pub open spec fn last_part(path: Seq<char>) -> Seq<char> {
    path.subrange(name_start(path), name_end(path))
}

/// The directory of a path, with one final `/`; empty for a bare file name.
pub open spec fn dir_part(path: Seq<char>) -> Seq<char> {
    if name_start(path) == 0 {
        Seq::empty()
    } else {
        path.subrange(0, kept(path, name_start(path)) + 1)
    }
}

/// The file name of a path: its last component, unless that is `.` or `..`.
pub open spec fn file_part(path: Seq<char>) -> Option<Seq<char>> {
    let part = last_part(path);
    if part.len() == 0 || part == "."@ || part == ".."@ {
        None
    } else {
        Some(part)
    }
}

/// Where the extension of a file name is cut off: at its last dot, unless that is the first
/// character.
pub open spec fn cut_at(name: Seq<char>) -> Option<int> {
    match last_at(name, '.', name.len() as int) {
        Some(i) => if i > 0 {
            Some(i)
        } else {
            None
        },
        None => None,
    }
}

/// The file name of a path without its extension.
pub open spec fn stem_part(path: Seq<char>) -> Option<Seq<char>> {
    match file_part(path) {
        Some(name) => Some(
            match cut_at(name) {
                Some(i) => name.subrange(0, i),
                None => name,
            },
        ),
        None => None,
    }
}

/// The extension of the file name of a path.
pub open spec fn extension_part(path: Seq<char>) -> Option<Seq<char>> {
    match file_part(path) {
        Some(name) => match cut_at(name) {
            Some(i) => Some(name.subrange(i + 1, name.len() as int)),
            None => None,
        },
        None => None,
    }
}

/// The directory, with its final `/`, that a file takes the place of `path` in: that of `path`
/// where it has a file name, else `path` itself.
pub open spec fn place_of(path: Seq<char>) -> Seq<char> {
    if file_part(path) is Some {
        dir_part(path)
    } else if path.len() == 0 || path.last() == '/' {
        path
    } else {
        path.push('/')
    }
}

proof fn lemma_last_at(s: Seq<char>, c: char, n: int)
    requires
        0 <= n <= s.len(),
    ensures
        match last_at(s, c, n) {
            Some(i) => 0 <= i < n && s[i] == c,
            None => true,
        },
    decreases n,
{
    if n > 0 {
        lemma_last_at(s, c, n - 1);
    }
}

proof fn lemma_kept(path: Seq<char>, n: int)
    requires
        0 <= n <= path.len(),
    ensures
        0 <= kept(path, n) <= n,
        0 < n && path[n - 1] == '/' ==> kept(path, n) < n && path[kept(path, n)] == '/',
    decreases n,
{
    if n > 0 {
        lemma_kept(path, n - 1);
    }
    if n > 1 {
        lemma_kept(path, n - 2);
    }
}

fn find_last(s: &str, c: char, end: usize) -> (r: Option<usize>)
    requires
        end <= s@.len(),
    ensures
        match r {
            Some(i) => i < end && last_at(s@, c, end as int) == Some(i as int),
            None => last_at(s@, c, end as int) is None,
        },
{
    let mut n: usize = end;
    while n > 0
        invariant
            n <= end <= s@.len(),
            last_at(s@, c, end as int) == last_at(s@, c, n as int),
        decreases n,
    {
        if s.get_char(n - 1) == c {
            return Some(n - 1);
        }
        n -= 1;
    }
    None
}

fn find_end(path: &str, n: usize) -> (r: usize)
    requires
        n <= path@.len(),
    ensures
        r == kept(path@, n as int),
        r <= n,
{
    let mut end: usize = n;
    while end > 0
        invariant
            end <= n <= path@.len(),
            kept(path@, n as int) == kept(path@, end as int),
        decreases end,
    {
        let c = path.get_char(end - 1);
        if c == '/' || (c == '.' && end >= 2 && path.get_char(end - 2) == '/') {
            end -= 1;
        } else {
            return end;
        }
    }
    0
}

/// Where the last component of a path begins and ends.
fn find_name(path: &str) -> (r: (usize, usize))
    ensures
        r.0 == name_start(path@),
        r.1 == name_end(path@),
        r.0 <= r.1 <= path@.len(),
{
    let end = find_end(path, path.unicode_len());
    let start: usize = match find_last(path, '/', end) {
        Some(i) => i + 1,
        None => 0,
    };
    (start, end)
}

/// The directory of a path, with one final `/`; empty for a bare file name.
pub fn parent_dir(path: &str) -> (r: &str)
    ensures
        r@ == dir_part(path@),
{
    let (start, _) = find_name(path);
    if start == 0 {
        return path.substring_char(0, 0);
    }
    proof {
        lemma_last_at(path@, '/', name_end(path@));
        lemma_kept(path@, start as int);
    }
    let end = find_end(path, start);
    path.substring_char(0, end + 1)
}

/// The file name of a path: its last component, unless that is `.` or `..`.
pub fn file_name(path: &str) -> (r: Option<&str>)
    ensures
        match r {
            Some(n) => file_part(path@) == Some(n@),
            None => file_part(path@) is None,
        },
{
    let (start, end) = find_name(path);
    let part = path.substring_char(start, end);
    if part.unicode_len() == 0 || same_text(part, ".") || same_text(part, "..") {
        None
    } else {
        Some(part)
    }
}

/// The file name of a path without its extension.
pub fn file_stem(path: &str) -> (r: Option<&str>)
    ensures
        match r {
            Some(s) => stem_part(path@) == Some(s@),
            None => stem_part(path@) is None,
        },
{
    match file_name(path) {
        Some(name) => match find_last(name, '.', name.unicode_len()) {
            Some(i) => if i > 0 {
                Some(name.substring_char(0, i))
            } else {
                Some(name)
            },
            None => Some(name),
        },
        None => None,
    }
}

/// The extension of the file name of a path, if it has one.
pub fn file_extension(path: &str) -> (r: Option<&str>)
    ensures
        match r {
            Some(e) => extension_part(path@) == Some(e@),
            None => extension_part(path@) is None,
        },
{
    match file_name(path) {
        Some(name) => {
            let n: usize = name.unicode_len();
            match find_last(name, '.', n) {
                Some(i) => if i > 0 {
                    Some(name.substring_char(i + 1, n))
                } else {
                    None
                },
                None => None,
            }
        },
        None => None,
    }
}

/// The directory, with its final `/`, that a file takes the place of `path` in.
pub fn place_for(path: &str) -> (r: String)
    ensures
        r@ == place_of(path@),
{
    if file_name(path).is_some() {
        return parent_dir(path).to_owned();
    }
    let n: usize = path.unicode_len();
    if n == 0 || path.get_char(n - 1) == '/' {
        path.to_owned()
    } else {
        let r = path.to_owned().concat("/");
        proof {
            reveal_strlit("/");
            assert(r@ =~= path@.push('/'));
        }
        r
    }
}

/// A directory ends in a separator, and what stands in front of it has none at its end.
pub proof fn law_directories_end_once(path: Seq<char>)
    requires
        dir_part(path).len() > 1,
    ensures
        dir_part(path).last() == '/',
        dir_part(path)[dir_part(path).len() - 2] != '/',
{
    lemma_kept(path, path.len() as int);
    lemma_last_at(path, '/', name_end(path));
    lemma_kept(path, name_start(path));
    lemma_kept_once(path, name_start(path));
}

proof fn lemma_kept_once(path: Seq<char>, n: int)
    requires
        0 <= n <= path.len(),
    ensures
        kept(path, n) > 0 ==> path[kept(path, n) - 1] != '/',
    decreases n,
{
    if n > 0 {
        lemma_kept_once(path, n - 1);
    }
}

/// A path begins with `/`.
pub open spec fn absolute(path: Seq<char>) -> bool {
    path.len() > 0 && path[0] == '/'
}

/// True when a path begins with `/`.
pub fn is_absolute(path: &str) -> (r: bool)
    ensures
        r == absolute(path@),
{
    path.unicode_len() > 0 && path.get_char(0) == '/'
}

/// A path relative to the directory of another: an absolute one stands for itself.
pub open spec fn path_beside(path: Seq<char>, file: Seq<char>) -> Seq<char> {
    if absolute(file) {
        file
    } else {
        dir_part(path) + file
    }
}

/// The path of a file that a dataset names, relative to the dataset.
pub fn resolve_include(dataset_path: &str, file: &str) -> (r: String)
    ensures
        r@ == path_beside(dataset_path@, file@),
{
    if is_absolute(file) {
        return file.to_owned();
    }
    parent_dir(dataset_path).to_owned().concat(file)
}

/// The path names a dataset file.
pub open spec fn names_yaml(path: Seq<char>) -> bool {
    extension_part(path) == Some("yaml"@) || extension_part(path) == Some("yml"@)
}

/// True when the extension of the path is `yaml` or `yml`.
pub fn is_yaml(path: &str) -> (r: bool)
    ensures
        r == names_yaml(path@),
{
    match file_extension(path) {
        Some(e) => same_text(e, "yaml") || same_text(e, "yml"),
        None => false,
    }
}

/// Digits differ in their one character.
proof fn lemma_digits(a: nat, b: nat)
    requires
        a < 10,
        b < 10,
    ensures
        digit_text(a).len() == 1,
        digit_text(a) == digit_text(b) ==> a == b,
{
    reveal_strlit("0");
    reveal_strlit("1");
    reveal_strlit("2");
    reveal_strlit("3");
    reveal_strlit("4");
    reveal_strlit("5");
    reveal_strlit("6");
    reveal_strlit("7");
    reveal_strlit("8");
    reveal_strlit("9");
    if digit_text(a) == digit_text(b) {
        assert(digit_text(a)[0] == digit_text(b)[0]);
    }
}

proof fn lemma_decimal_not_empty(n: nat)
    ensures
        decimal_text(n).len() > 0,
    decreases n,
{
    if n < 10 {
        lemma_digits(n, n);
    } else {
        lemma_digits(n % 10, n % 10);
    }
}

/// Different numbers are written differently.
pub proof fn law_decimal_is_unique(a: nat, b: nat)
    requires
        decimal_text(a) == decimal_text(b),
    ensures
        a == b,
    decreases a,
{
    lemma_digits(a % 10, b % 10);
    lemma_digits(a % 10, a % 10);
    lemma_digits(b % 10, b % 10);
    let x = decimal_text(a);
    let y = decimal_text(b);
    if a >= 10 && b >= 10 {
        let p = decimal_text(a / 10);
        let q = decimal_text(b / 10);
        assert(x.subrange(0, x.len() - 1) =~= p);
        assert(y.subrange(0, y.len() - 1) =~= q);
        assert(x.subrange(x.len() - 1, x.len() as int) =~= digit_text(a % 10));
        assert(y.subrange(y.len() - 1, y.len() as int) =~= digit_text(b % 10));
        law_decimal_is_unique(a / 10, b / 10);
    } else if a >= 10 {
        lemma_decimal_not_empty(a / 10);
    } else if b >= 10 {
        lemma_decimal_not_empty(b / 10);
    }
}

} // verus!
