//! Paths as character strings, written with `/`: file names, extensions,
//! and the reserved locations of the hidden store. A path's file name is its
//! last component, as `std::path::Path::file_name` has it for such a path.

use vstd::prelude::*;
use vstd::std_specs::iter::IteratorSpec;
use vstd::string::StringExecFns;
use vstd::string::StrSliceExecFns;

verus! {

/// Name of the hidden store, a directory at the root of the working tree.
pub const HIDDEN_FOLDER: &'static str = ".latexoptimizer";

/// File name of the placeholder image inside the hidden store.
pub const PLACEHOLDER_IMAGE: &'static str = "placeholder.png";

/// Whether the last character of `p` belongs to no component: it is a
/// separator, or a `.` that stands for the directory before it.
pub open spec fn ends_in_filler(p: Seq<char>) -> bool {
    p.len() > 0 && (p.last() == '/' || (p.last() == '.' && (p.len() == 1 || p[p.len() - 2]
        == '/')))
}

/// Length of `p` without the separators and `.` components at its end.
pub open spec fn trimmed_len(p: Seq<char>) -> nat
    decreases p.len(),
{
    if ends_in_filler(p) {
        trimmed_len(p.drop_last())
    } else {
        p.len()
    }
}

/// Length of the directory part of `p`: everything up to and including the
/// last `/`, or nothing when `p` holds no `/`.
pub open spec fn dir_len(p: Seq<char>) -> nat
    decreases p.len(),
{
    if p.len() == 0 {
        0
    } else if p.last() == '/' {
        p.len()
    } else {
        dir_len(p.drop_last())
    }
}

/// The last component of `p`: once the separators and `.` components at the
/// end of `p` are dropped, what follows the last `/`. It is empty where
/// nothing is left of `p`.
pub open spec fn last_component(p: Seq<char>) -> Seq<char> {
    let trimmed = p.take(trimmed_len(p) as int);
    trimmed.skip(dir_len(trimmed) as int)
}

/// The file name of `p`: its last component. A path whose last component
/// is `..`, and a path that is empty or made of separators and `.` alone,
/// has none.
pub open spec fn file_name_of(p: Seq<char>) -> Option<Seq<char>> {
    let last = last_component(p);
    if last.len() == 0 || last =~= seq!['.', '.'] {
        None
    } else {
        Some(last)
    }
}

/// The file name of `p`, or the empty name where `p` has none.
pub open spec fn name_of(p: Seq<char>) -> Seq<char> {
    match file_name_of(p) {
        Some(name) => name,
        None => Seq::empty(),
    }
}

/// Index of the last `.` in `n`, or -1 when there is none.
pub open spec fn last_dot(n: Seq<char>) -> int
    decreases n.len(),
{
    if n.len() == 0 {
        -1
    } else if n.last() == '.' {
        n.len() - 1
    } else {
        last_dot(n.drop_last())
    }
}

/// The extension of the file name `n`: what follows its last `.`. A name
/// without a `.`, or whose only `.` is its first character, has none.
pub open spec fn name_extension(n: Seq<char>) -> Option<Seq<char>> {
    let dot = last_dot(n);
    if dot <= 0 {
        None
    } else {
        Some(n.skip(dot + 1))
    }
}

/// The extension of `p`: that of its file name, where it has one.
pub open spec fn extension_of(p: Seq<char>) -> Option<Seq<char>> {
    match file_name_of(p) {
        Some(name) => name_extension(name),
        None => None,
    }
}

/// The extensions that mark an image, lower case only.
pub open spec fn is_image_extension(e: Seq<char>) -> bool {
    ||| e =~= seq!['p', 'n', 'g']
    ||| e =~= seq!['j', 'p', 'g']
    ||| e =~= seq!['j', 'p', 'e', 'g']
    ||| e =~= seq!['g', 'i', 'f']
    ||| e =~= seq!['b', 'm', 'p']
}

/// Whether the file name `n` is that of an image: it has an extension, and
/// the extension is one of the recognised ones.
pub open spec fn is_image_name(n: Seq<char>) -> bool {
    name_extension(n) matches Some(e) && is_image_extension(e)
}

/// Whether `p` names an image: its extension is one of the recognised ones.
/// Nothing but the file name has a say in this.
pub open spec fn is_image(p: Seq<char>) -> bool {
    extension_of(p) matches Some(e) && is_image_extension(e)
}

/// Where the hidden store keeps the file called `name`.
pub open spec fn store_path_of(name: Seq<char>) -> Seq<char> {
    HIDDEN_FOLDER@ + seq!['/'] + name
}

/// Where the root of the working tree shows the file called `name`.
pub open spec fn tree_path_of(name: Seq<char>) -> Seq<char> {
    seq!['.', '/'] + name
}

/// The path of the placeholder image: the target of every link.
pub open spec fn placeholder_path_of() -> Seq<char> {
    store_path_of(PLACEHOLDER_IMAGE@)
}

/// `p` without one leading `./`.
pub open spec fn without_dot_slash(p: Seq<char>) -> Seq<char> {
    if p.len() >= 2 && p[0] == '.' && p[1] == '/' {
        p.skip(2)
    } else {
        p
    }
}

/// Whether `p` is the hidden store or lies inside it: after an optional
/// leading `./`, its first component is the store's name.
pub open spec fn in_hidden_store_of(p: Seq<char>) -> bool {
    let q = without_dot_slash(p);
    let h = HIDDEN_FOLDER@;
    &&& h.len() <= q.len()
    &&& q.take(h.len() as int) =~= h
    &&& (q.len() == h.len() || q[h.len() as int] == '/')
}

/// Whether `n` is a single path component: it holds no `/`.
pub open spec fn is_plain_name(n: Seq<char>) -> bool {
    forall|i: int| 0 <= i < n.len() ==> n[i] != '/'
}

/// Whether `n` can be the file name of a path: a component that is not
/// empty and neither `.` nor `..`.
pub open spec fn is_file_name(n: Seq<char>) -> bool {
    &&& n.len() > 0
    &&& is_plain_name(n)
    &&& !(n =~= seq!['.'])
    &&& !(n =~= seq!['.', '.'])
}

/// The directory part ends within the path, right after a `/` unless it is
/// empty, and nothing after it is a `/`.
pub proof fn directory_part_ends_at_last_slash(p: Seq<char>)
    ensures
        dir_len(p) <= p.len(),
        dir_len(p) > 0 ==> p[dir_len(p) - 1] == '/',
        forall|i: int| dir_len(p) <= i < p.len() ==> p[i] != '/',
    decreases p.len(),
{
    if p.len() > 0 && p.last() != '/' {
        let q = p.drop_last();
        directory_part_ends_at_last_slash(q);
        assert forall|i: int| dir_len(p) <= i < p.len() implies p[i] != '/' by {
            if i < q.len() {
                assert(p[i] == q[i]);
            }
        }
    }
}

/// The last dot of a name is a `.` with none after it; a name without a `.`
/// has none.
pub proof fn last_dot_is_last(n: Seq<char>)
    ensures
        -1 <= last_dot(n) < n.len(),
        last_dot(n) >= 0 ==> n[last_dot(n)] == '.',
        forall|i: int| last_dot(n) < i < n.len() ==> n[i] != '.',
    decreases n.len(),
{
    if n.len() > 0 && n.last() != '.' {
        let m = n.drop_last();
        last_dot_is_last(m);
        assert forall|i: int| last_dot(n) < i < n.len() implies n[i] != '.' by {
            if i < m.len() {
                assert(n[i] == m[i]);
            }
        }
    }
}

/// What is left of a path once its end is trimmed does not end in a
/// separator, nor in a `.` component.
pub proof fn trimmed_path_ends_in_a_name(p: Seq<char>)
    ensures
        trimmed_len(p) <= p.len(),
        !ends_in_filler(p.take(trimmed_len(p) as int)),
    decreases p.len(),
{
    if ends_in_filler(p) {
        let q = p.drop_last();
        trimmed_path_ends_in_a_name(q);
        assert(q.take(trimmed_len(q) as int) =~= p.take(trimmed_len(p) as int));
    } else {
        assert(p.take(p.len() as int) =~= p);
    }
}

/// The file name of a path, where it has one, is fit to be one; and the
/// name that stands for it holds no `/` in any case.
pub proof fn lemma_file_name_is_a_name(p: Seq<char>)
    ensures
        file_name_of(p) matches Some(name) ==> is_file_name(name),
        is_plain_name(name_of(p)),
{
    let trimmed = p.take(trimmed_len(p) as int);
    let last = last_component(p);
    trimmed_path_ends_in_a_name(p);
    directory_part_ends_at_last_slash(trimmed);
    assert(forall|i: int| 0 <= i < last.len() ==> last[i] == trimmed[dir_len(trimmed) + i]);
    if last =~= seq!['.'] {
        assert(trimmed.last() == last[0]);
    }
}

/// A path made of a directory, a `/` and a name fit to be a file name has
/// that name as its file name.
pub proof fn lemma_file_name_of_join(dir: Seq<char>, name: Seq<char>)
    requires
        is_file_name(name),
    ensures
        file_name_of(dir + seq!['/'] + name) == Some(name),
{
    let p = dir + seq!['/'] + name;
    assert(p.last() == name.last());
    if name.len() >= 2 {
        assert(p[p.len() - 2] == name[name.len() - 2]);
    }
    assert(!ends_in_filler(p));
    assert(p.take(p.len() as int) =~= p);
    lemma_dir_len_of_join(dir, name);
    assert(p.skip(dir.len() as int + 1) =~= name);
}

proof fn lemma_dir_len_of_join(dir: Seq<char>, name: Seq<char>)
    requires
        is_plain_name(name),
    ensures
        dir_len(dir + seq!['/'] + name) == dir.len() + 1,
    decreases name.len(),
{
    let p = dir + seq!['/'] + name;
    if name.len() > 0 {
        assert(p.drop_last() =~= dir + seq!['/'] + name.drop_last());
        lemma_dir_len_of_join(dir, name.drop_last());
    }
}

/// The two reserved names, character by character.
pub proof fn lemma_reserved_names()
    ensures
        HIDDEN_FOLDER@ =~= seq![
            '.',
            'l',
            'a',
            't',
            'e',
            'x',
            'o',
            'p',
            't',
            'i',
            'm',
            'i',
            'z',
            'e',
            'r',
        ],
        PLACEHOLDER_IMAGE@ =~= seq![
            'p',
            'l',
            'a',
            'c',
            'e',
            'h',
            'o',
            'l',
            'd',
            'e',
            'r',
            '.',
            'p',
            'n',
            'g',
        ],
{
    reveal_strlit(".latexoptimizer");
    reveal_strlit("placeholder.png");
}

/// The store's name is a plain name without an extension, so no image bears
/// it. The placeholder's name is a file name with the extension `png`.
pub proof fn lemma_reserved_names_as_files()
    ensures
        is_plain_name(HIDDEN_FOLDER@),
        !is_image_name(HIDDEN_FOLDER@),
        is_file_name(PLACEHOLDER_IMAGE@),
        is_image_name(PLACEHOLDER_IMAGE@),
{
    lemma_reserved_names();
    let h = HIDDEN_FOLDER@;
    let p = PLACEHOLDER_IMAGE@;
    assert(last_dot(h) == 0) by {
        lemma_last_dot_is_last(h, 0);
    }
    assert(last_dot(p) == 11) by {
        lemma_last_dot_is_last(p, 11);
    }
}

/// Where `n` holds a `.` at `d` and none after it, `d` is its last dot.
proof fn lemma_last_dot_is_last(n: Seq<char>, d: int)
    requires
        0 <= d < n.len(),
        n[d] == '.',
        forall|i: int| d < i < n.len() ==> n[i] != '.',
    ensures
        last_dot(n) == d,
    decreases n.len(),
{
    if n.len() - 1 > d {
        lemma_last_dot_is_last(n.drop_last(), d);
    }
}

/// A slot in the store or at the root of the tree has the name it was made
/// for as its file name.
pub proof fn lemma_slot_file_names(name: Seq<char>)
    requires
        is_file_name(name),
    ensures
        file_name_of(store_path_of(name)) == Some(name),
        file_name_of(tree_path_of(name)) == Some(name),
{
    lemma_file_name_of_join(HIDDEN_FOLDER@, name);
    lemma_file_name_of_join(seq!['.'], name);
    assert(tree_path_of(name) =~= seq!['.'] + seq!['/'] + name);
}

/// Different names have different slots.
pub proof fn lemma_slots_differ(a: Seq<char>, b: Seq<char>)
    requires
        a != b,
    ensures
        store_path_of(a) != store_path_of(b),
        tree_path_of(a) != tree_path_of(b),
{
    let h = HIDDEN_FOLDER@.len() as int + 1;
    assert(store_path_of(a).skip(h) =~= a);
    assert(store_path_of(b).skip(h) =~= b);
    assert(tree_path_of(a).skip(2) =~= a);
    assert(tree_path_of(b).skip(2) =~= b);
}

/// Every slot in the store lies inside the store.
pub proof fn lemma_store_path_in_store(name: Seq<char>)
    ensures
        in_hidden_store_of(store_path_of(name)),
{
    lemma_reserved_names();
    let p = store_path_of(name);
    assert(without_dot_slash(p) == p);
    assert(p.take(HIDDEN_FOLDER@.len() as int) =~= HIDDEN_FOLDER@);
}

/// A slot at the root of the tree lies outside the store, unless it is the
/// store itself.
pub proof fn lemma_tree_path_outside_store(name: Seq<char>)
    requires
        is_plain_name(name),
        name != HIDDEN_FOLDER@,
    ensures
        !in_hidden_store_of(tree_path_of(name)),
{
    let p = tree_path_of(name);
    let h = HIDDEN_FOLDER@;
    assert(without_dot_slash(p) =~= name);
    if in_hidden_store_of(p) {
        if name.len() == h.len() {
            assert(name.take(h.len() as int) =~= name);
        }
    }
}

/// The characters of `s`, one by one.
fn chars_of(s: &str) -> (v: Vec<char>)
    ensures
        v@ == s@,
{
    let mut v: Vec<char> = Vec::new();
    for c in it: s.chars()
        invariant
            it.seq() == s@,
            v@ == it.seq().take(it.index()),
    {
        v.push(c);
    }
    v
}

/// Whether the character before position `n` is a separator or a `.`
/// component.
fn filler_before(chars: &Vec<char>, n: usize) -> (b: bool)
    requires
        n <= chars.len(),
    ensures
        b == ends_in_filler(chars@.take(n as int)),
{
    n > 0 && (chars[n - 1] == '/' || (chars[n - 1] == '.' && (n == 1 || chars[n - 2] == '/')))
}

/// Exec twin of [`trimmed_len`] on a character vector.
fn trimmed_len_in(chars: &Vec<char>) -> (n: usize)
    ensures
        n == trimmed_len(chars@),
        n <= chars.len(),
{
    let mut n: usize = chars.len();
    assert(chars@.take(n as int) == chars@);
    let mut filler = filler_before(chars, n);
    while filler
        invariant
            n <= chars.len(),
            filler == ends_in_filler(chars@.take(n as int)),
            trimmed_len(chars@) == trimmed_len(chars@.take(n as int)),
        decreases n,
    {
        assert(chars@.take(n as int).drop_last() == chars@.take(n - 1));
        n = n - 1;
        filler = filler_before(chars, n);
    }
    n
}

/// Exec twin of [`dir_len`] on the first `upto` characters of a vector.
fn dir_len_in(chars: &Vec<char>, upto: usize) -> (k: usize)
    requires
        upto <= chars.len(),
    ensures
        k == dir_len(chars@.take(upto as int)),
        k <= upto,
{
    let ghost head = chars@.take(upto as int);
    let mut k: usize = 0;
    let mut i: usize = 0;
    while i < upto
        invariant
            i <= upto <= chars.len(),
            head == chars@.take(upto as int),
            k <= i,
            k == dir_len(head.take(i as int)),
        decreases upto - i,
    {
        if chars[i] == '/' {
            k = i + 1;
        }
        i = i + 1;
        assert(head.take(i as int).drop_last() == head.take(i - 1));
    }
    assert(head.take(upto as int) == head);
    k
}

/// Position of the last `.` in the characters from `from` up to `upto`,
/// counted from `from`; -1 is reported as `None`.
fn last_dot_in(chars: &Vec<char>, from: usize, upto: usize) -> (r: Option<usize>)
    requires
        from <= upto <= chars.len(),
    ensures
        match r {
            Some(d) => d == last_dot(chars@.subrange(from as int, upto as int)) && from + d
                < upto,
            None => last_dot(chars@.subrange(from as int, upto as int)) == -1,
        },
{
    let mut r: Option<usize> = None;
    let mut i: usize = from;
    let ghost name = chars@.subrange(from as int, upto as int);
    while i < upto
        invariant
            from <= i <= upto <= chars.len(),
            name == chars@.subrange(from as int, upto as int),
            match r {
                Some(d) => d == last_dot(name.take(i - from)) && from + d < i,
                None => last_dot(name.take(i - from)) == -1,
            },
        decreases upto - i,
    {
        if chars[i] == '.' {
            r = Some(i - from);
        }
        i = i + 1;
        assert(name.take(i - from).drop_last() == name.take(i - from - 1));
    }
    assert(name.take(upto - from) == name);
    r
}

/// Whether `path` names an image file, judged by its extension alone: the
/// extension must be one of `png`, `jpg`, `jpeg`, `gif`, `bmp`, in lower
/// case. The extension is that of the path's last component, so separators
/// and `.` components at the end of the path make no difference.
pub fn is_image_file(path: &str) -> (b: bool)
    ensures
        b == is_image(path@),
{
    let chars = chars_of(path);
    let end = trimmed_len_in(&chars);
    let start = dir_len_in(&chars, end);
    let ghost last = last_component(path@);
    assert(last =~= chars@.subrange(start as int, end as int));
    match last_dot_in(&chars, start, end) {
        None => false,
        Some(dot) => {
            if dot == 0 {
                false
            } else {
                let at: usize = start + dot + 1;
                let n: usize = end - at;
                let ghost ext = last.skip(dot + 1);
                assert(ext.len() == n);
                assert(forall|i: int| 0 <= i < n ==> #[trigger] ext[i] == chars@[at + i]);
                if n == 3 {
                    let a = chars[at];
                    let b = chars[at + 1];
                    let c = chars[at + 2];
                    (a == 'p' && b == 'n' && c == 'g') || (a == 'j' && b == 'p' && c == 'g') || (a
                        == 'g' && b == 'i' && c == 'f') || (a == 'b' && b == 'm' && c == 'p')
                } else if n == 4 {
                    chars[at] == 'j' && chars[at + 1] == 'p' && chars[at + 2] == 'e' && chars[at
                        + 3] == 'g'
                } else {
                    false
                }
            }
        },
    }
}

/// The file name of `path`: its last component, not counting separators and
/// `.` components at the end of the path. There is none where that
/// component is `..`, nor where the path is empty or holds nothing else
/// than separators and `.`.
pub fn file_name(path: &str) -> (name: Option<String>)
    ensures
        match name {
            Some(n) => file_name_of(path@) == Some(n@),
            None => file_name_of(path@) is None,
        },
{
    let chars = chars_of(path);
    let end = trimmed_len_in(&chars);
    let start = dir_len_in(&chars, end);
    assert(last_component(path@) =~= path@.subrange(start as int, end as int));
    if end == start || (end - start == 2 && chars[start] == '.' && chars[start + 1] == '.') {
        None
    } else {
        Some(path.substring_char(start, end).to_owned())
    }
}

/// The path inside the hidden store for the file called `name`.
pub fn store_path(name: &str) -> (p: String)
    ensures
        p@ == store_path_of(name@),
{
    proof {
        reveal_strlit("/");
    }
    String::from_str(HIDDEN_FOLDER).concat("/").concat(name)
}

/// The path at the root of the working tree for the file called `name`.
pub fn tree_path(name: &str) -> (p: String)
    ensures
        p@ == tree_path_of(name@),
{
    proof {
        reveal_strlit("./");
    }
    String::from_str("./").concat(name)
}

/// The path of the placeholder image.
pub fn placeholder_path() -> (p: String)
    ensures
        p@ == placeholder_path_of(),
{
    store_path(PLACEHOLDER_IMAGE)
}

/// Whether `path` is the hidden store or lies inside it.
pub fn in_hidden_store(path: &str) -> (b: bool)
    ensures
        b == in_hidden_store_of(path@),
{
    let chars = chars_of(path);
    let hidden = chars_of(HIDDEN_FOLDER);
    let h = hidden.len();
    let n = chars.len();
    let skip: usize = if n >= 2 && chars[0] == '.' && chars[1] == '/' {
        2
    } else {
        0
    };
    let ghost q = without_dot_slash(path@);
    assert(forall|j: int| 0 <= j < q.len() ==> q[j] == chars@[skip + j]);
    if n - skip < h {
        return false;
    }
    let mut i: usize = 0;
    while i < h
        invariant
            i <= h,
            h == hidden.len(),
            hidden@ == HIDDEN_FOLDER@,
            skip + h <= chars.len(),
            q == without_dot_slash(path@),
            q.len() == chars.len() - skip,
            forall|j: int| 0 <= j < q.len() ==> q[j] == chars@[skip + j],
            forall|j: int| 0 <= j < i ==> chars@[skip + j] == hidden@[j],
        decreases h - i,
    {
        if chars[skip + i] != hidden[i] {
            assert(q.take(h as int)[i as int] != hidden@[i as int]);
            return false;
        }
        i = i + 1;
    }
    assert(q.take(h as int) =~= hidden@);
    n - skip == h || chars[skip + h] == '/'
}

} // verus!
