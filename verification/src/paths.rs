//! Filesystem paths by their components.
//!
//! A path is the list of its components. The root is the component `/`; repeated slashes and
//! `.` name nothing, except for a `.` at the very start. On Windows a backslash is a slash too,
//! and a drive or a network share at the start is a root of its own, such as `c:/` or
//! `//server/share/`.
use vstd::prelude::*;

use crate::text::{
    chars_of, find_char, lemma_find_char, lemma_find_char_is, lower, lower_text, same_text, split,
    split_text, texts,
};

verus! {

/// A component that names something.
pub open spec fn names(part: Seq<char>) -> bool {
    part.len() > 0 && part != "."@
}

/// The components of a path.
pub open spec fn components(path: Seq<char>) -> Seq<Seq<char>> {
    let pieces = split(path, '/');
    let start = if path.len() > 0 && path[0] == '/' {
        seq!["/"@]
    } else if pieces[0] == "."@ {
        seq!["."@]
    } else {
        seq![]
    };
    start + pieces.filter(|part: Seq<char>| names(part))
}

/// A path with every backslash turned into a slash.
pub open spec fn slashed(path: Seq<char>) -> Seq<char> {
    path.map_values(
        |c: char|
            if c == '\\' {
                '/'
            } else {
                c
            },
    )
}

/// A drive, such as `C:`.
pub open spec fn is_drive(part: Seq<char>) -> bool {
    part.len() == 2 && part[1] == ':' && ('a' <= part[0] <= 'z' || 'A' <= part[0] <= 'Z')
}

/// A path starts with a network share, such as `//server/share`; `//?` and `//.` start none.
pub open spec fn on_share(path: Seq<char>) -> bool {
    path.len() > 2 && path[0] == '/' && path[1] == '/' && path[2] != '/' && path[2] != '?'
        && path[2] != '.'
}

/// The components of a path, as Windows reads it or as any other system does. The case of a
/// drive does not count.
pub open spec fn components_on(path: Seq<char>, windows: bool) -> Seq<Seq<char>> {
    if windows {
        let parts = components(slashed(path));
        if parts.len() > 0 && is_drive(parts[0]) {
            parts.update(0, lower(parts[0]) + "/"@)
        } else if parts.len() > 2 && on_share(slashed(path)) {
            seq!["//"@ + parts[1] + "/"@ + parts[2] + "/"@] + parts.skip(3)
        } else {
            parts
        }
    } else {
        components(path)
    }
}

/// A component that is a root: `/`, or that of a drive or a network share.
pub open spec fn is_root(part: Seq<char>) -> bool {
    part.len() > 0 && part.last() == '/'
}

/// The path above a path; a root and the empty path have none.
pub open spec fn parent(path: Seq<Seq<char>>) -> Option<Seq<Seq<char>>> {
    if path.len() == 0 || is_root(path.last()) {
        None
    } else {
        Some(path.drop_last())
    }
}

/// Whether `path` is `base` or lies below it.
pub open spec fn lies_in(path: Seq<Seq<char>>, base: Seq<Seq<char>>) -> bool {
    base.len() <= path.len() && path.take(base.len() as int) == base
}

/// The text of a path.
pub open spec fn path_text(path: Seq<Seq<char>>) -> Seq<char>
    decreases path.len(),
{
    if path.len() == 0 {
        seq![]
    } else if path.len() == 1 {
        path[0]
    } else if path.len() == 2 && is_root(path[0]) {
        path[0] + path[1]
    } else {
        path_text(path.drop_last()) + "/"@ + path.last()
    }
}

/// A filesystem path.
pub struct FilePath {
    parts: Vec<String>,
}

impl View for FilePath {
    type V = Seq<Seq<char>>;

    closed spec fn view(&self) -> Seq<Seq<char>> {
        texts(self.parts@)
    }
}

impl FilePath {
    /// The path that a text writes.
    pub fn new(path: &str) -> (out: FilePath)
        ensures
            out@ == components(path@),
    {
        let chars = chars_of(path);
        let pieces = split_text(path, '/');
        let ghost all = split(path@, '/');
        let mut parts: Vec<String> = Vec::new();
        proof {
            lemma_split_some(path@, '/');
            assert(all[0] == pieces@[0]@);
        }
        if chars.len() > 0 && chars[0] == '/' {
            parts.push("/".to_owned());
            assert(texts(parts@) =~= seq!["/"@]);
        } else if same_text(pieces[0].as_str(), ".") {
            parts.push(".".to_owned());
            assert(texts(parts@) =~= seq!["."@]);
        } else {
            assert(texts(parts@) =~= seq![]);
        }
        let ghost start = texts(parts@);
        let ghost named = |part: Seq<char>| names(part);
        let mut i: usize = 0;
        proof {
            reveal(Seq::filter);
            assert(all.take(0).filter(named) =~= seq![]);
            assert(start + all.take(0).filter(named) =~= start);
        }
        while i < pieces.len()
            invariant
                i <= pieces@.len(),
                all == texts(pieces@),
                named == (|part: Seq<char>| names(part)),
                texts(parts@) == start + all.take(i as int).filter(named),
            decreases pieces@.len() - i,
        {
            let ghost before = texts(parts@);
            assert(all[i as int] == pieces@[i as int]@);
            assert(all.take(i + 1).drop_last() =~= all.take(i as int));
            proof {
                reveal(Seq::filter);
            }
            if pieces[i].as_str().unicode_len() > 0 && !same_text(pieces[i].as_str(), ".") {
                parts.push(pieces[i].clone());
                assert(texts(parts@) =~= before.push(all[i as int]));
                assert(all.take(i + 1).filter(named) =~= all.take(i as int).filter(named).push(
                    all[i as int],
                ));
                assert(start + all.take(i + 1).filter(named) =~= before.push(all[i as int]));
            } else {
                assert(all.take(i + 1).filter(named) =~= all.take(i as int).filter(named));
            }
            i = i + 1;
        }
        assert(all.take(i as int) =~= all);
        FilePath { parts }
    }

    /// The path that a text writes, as Windows reads it or as any other system does.
    pub fn new_on(path: &str, windows: bool) -> (out: FilePath)
        ensures
            out@ == components_on(path@, windows),
    {
        if !windows {
            return FilePath::new(path);
        }
        let chars = chars_of(path);
        let mut text = String::new();
        let mut i: usize = 0;
        assert(text@ =~= slashed(path@).take(0));
        while i < chars.len()
            invariant
                i <= chars@.len(),
                chars@ == path@,
                text@ == slashed(path@).take(i as int),
            decreases chars@.len() - i,
        {
            let c = if chars[i] == '\\' {
                '/'
            } else {
                chars[i]
            };
            text.push(c);
            assert(text@ =~= slashed(path@).take(i + 1));
            i = i + 1;
        }
        assert(text@ =~= slashed(path@));
        let mut out = FilePath::new(text.as_str());
        if out.parts.len() > 0 {
            let first = chars_of(out.parts[0].as_str());
            assert(out@[0] == first@);
            if first.len() == 2 && first[1] == ':' && ('a' <= first[0] && first[0] <= 'z' || 'A'
                <= first[0] && first[0] <= 'Z') {
                let ghost before = out@;
                let mut root = lower_text(out.parts[0].as_str());
                root.append("/");
                out.parts[0] = root;
                assert(out@ =~= before.update(0, lower(before[0]) + "/"@));
                return out;
            }
        }
        let read = chars_of(text.as_str());
        if out.parts.len() > 2 && read.len() > 2 && read[0] == '/' && read[1] == '/' && read[2]
            != '/' && read[2] != '?' && read[2] != '.' {
            let ghost before = out@;
            assert(before[1] == out.parts@[1]@ && before[2] == out.parts@[2]@);
            let mut root = "//".to_owned();
            root.append(out.parts[1].as_str());
            root.append("/");
            root.append(out.parts[2].as_str());
            root.append("/");
            let mut parts: Vec<String> = Vec::new();
            parts.push(root);
            let mut i: usize = 3;
            assert(texts(parts@) =~= seq![root@] + before.subrange(3, 3));
            while i < out.parts.len()
                invariant
                    3 <= i <= out.parts@.len(),
                    before == texts(out.parts@),
                    texts(parts@) == seq![root@] + before.subrange(3, i as int),
                decreases out.parts@.len() - i,
            {
                let ghost now = texts(parts@);
                parts.push(out.parts[i].clone());
                assert(texts(parts@) =~= now.push(before[i as int]));
                assert(texts(parts@) =~= seq![root@] + before.subrange(3, i + 1));
                i = i + 1;
            }
            assert(before.subrange(3, i as int) =~= before.skip(3));
            return FilePath { parts };
        }
        out
    }

    /// A path of its own that is the same.
    pub fn dup(&self) -> (copy: FilePath)
        ensures
            copy@ == self@,
    {
        FilePath { parts: crate::text::copy_list(&self.parts) }
    }

    /// The number of components.
    pub fn count(&self) -> (count: usize)
        ensures
            count == self@.len(),
    {
        self.parts.len()
    }

    /// Whether two paths are the same.
    pub fn same(&self, other: &FilePath) -> (same: bool)
        ensures
            same == (self@ == other@),
    {
        if self.parts.len() != other.parts.len() {
            return false;
        }
        let yes = self.within(other);
        assert(self@.take(other@.len() as int) =~= self@);
        yes
    }

    /// Whether this is `base` or lies below it.
    pub fn within(&self, base: &FilePath) -> (yes: bool)
        ensures
            yes == lies_in(self@, base@),
    {
        if base.parts.len() > self.parts.len() {
            return false;
        }
        let ghost front = self@.take(base@.len() as int);
        let mut i: usize = 0;
        while i < base.parts.len()
            invariant
                i <= base.parts@.len() <= self.parts@.len(),
                front == self@.take(base@.len() as int),
                forall|j: int| 0 <= j < i ==> self.parts@[j]@ == base.parts@[j]@,
            decreases base.parts@.len() - i,
        {
            if !same_text(self.parts[i].as_str(), base.parts[i].as_str()) {
                assert(front[i as int] != base@[i as int]);
                return false;
            }
            i = i + 1;
        }
        assert(front =~= base@);
        true
    }

    /// The path above this one.
    pub fn parent(&self) -> (above: Option<FilePath>)
        ensures
            parent(self@) == (match above {
                Some(p) => Some(p@),
                None => None,
            }),
    {
        let n = self.parts.len();
        if n == 0 {
            return None;
        }
        assert(self@.last() == self.parts@[n - 1]@);
        if root_part(self.parts[n - 1].as_str()) {
            return None;
        }
        let mut parts = crate::text::copy_list(&self.parts);
        let ghost whole = texts(parts@);
        assert(whole.len() == parts@.len());
        parts.pop();
        assert(texts(parts@) =~= whole.drop_last());
        Some(FilePath { parts })
    }

    /// The text of the path.
    pub fn text(&self) -> (text: String)
        ensures
            text@ == path_text(self@),
    {
        let n = self.parts.len();
        let mut text = String::new();
        let mut i: usize = 0;
        let ghost all = self@;
        assert(path_text(all.take(0)) =~= seq![]);
        while i < n
            invariant
                i <= n,
                n == self.parts@.len(),
                all == texts(self.parts@),
                text@ == path_text(all.take(i as int)),
            decreases n - i,
        {
            assert(all.take(i + 1).drop_last() =~= all.take(i as int));
            assert(all.take(i + 1).last() == self.parts@[i as int]@);
            assert(i > 0 ==> all.take(i + 1)[0] == self.parts@[0]@);
            assert(i == 0 ==> all.take(1)[0] == self.parts@[0]@);
            assert(i == 1 ==> path_text(all.take(1)) == all.take(1)[0] && all.take(1)[0]
                == self.parts@[0]@);
            if i > 0 && !(i == 1 && root_part(self.parts[0].as_str())) {
                text.append("/");
            }
            text.append(self.parts[i].as_str());
            assert(i == 0 ==> text@ =~= self.parts@[0]@);
            i = i + 1;
        }
        assert(all.take(i as int) =~= all);
        text
    }
}

/// Whether a component is a root.
fn root_part(part: &str) -> (yes: bool)
    ensures
        yes == is_root(part@),
{
    let chars = chars_of(part);
    chars.len() > 0 && chars[chars.len() - 1] == '/'
}

/// Splitting gives at least one piece.
proof fn lemma_split_some(text: Seq<char>, sep: char)
    ensures
        split(text, sep).len() > 0,
{
}

/// A path lies in itself, and in whatever the path above it lies in.
pub proof fn law_parent_lies_in(path: Seq<Seq<char>>, base: Seq<Seq<char>>)
    ensures
        lies_in(path, path),
        parent(path) matches Some(above) ==> lies_in(path, above) && (lies_in(above, base)
            ==> lies_in(path, base)),
{
    assert(path.take(path.len() as int) =~= path);
    if let Some(above) = parent(path) {
        assert(path.take(above.len() as int) =~= above);
        if lies_in(above, base) {
            assert(path.take(base.len() as int) =~= above.take(base.len() as int));
        }
    }
}

// ---- The text of a path names it ------------------------------------------------

/// No piece holds the separator.
proof fn lemma_split_pieces(text: Seq<char>, sep: char)
    ensures
        forall|i: int|
            0 <= i < split(text, sep).len() ==> !(#[trigger] split(text, sep)[i]).contains(sep),
    decreases text.len(),
{
    lemma_find_char(text, sep);
    if let Some(at) = find_char(text, sep) {
        lemma_split_pieces(text.skip(at + 1), sep);
        let rest = split(text.skip(at + 1), sep);
        assert forall|i: int| 0 <= i < split(text, sep).len() implies !(#[trigger] split(
            text,
            sep,
        )[i]).contains(sep) by {
            if i > 0 {
                assert(split(text, sep)[i] == rest[i - 1]);
            }
        }
    }
}

/// The pieces of two texts with a separator between them are those of the one and those of
/// the other.
proof fn lemma_split_joined(a: Seq<char>, sep: char, b: Seq<char>)
    ensures
        split(a + seq![sep] + b, sep) == split(a, sep) + split(b, sep),
    decreases a.len(),
{
    let whole = a + seq![sep] + b;
    lemma_find_char(a, sep);
    match find_char(a, sep) {
        Some(at) => {
            assert(forall|before: int| 0 <= before < at ==> whole[before] == a[before]);
            lemma_find_char_is(whole, sep, at);
            let rest = a.skip(at + 1);
            lemma_split_joined(rest, sep, b);
            assert(whole.skip(at + 1) =~= rest + seq![sep] + b);
            assert(whole.take(at) =~= a.take(at));
            assert(split(whole, sep) =~= split(a, sep) + split(b, sep));
        },
        None => {
            assert forall|before: int| 0 <= before < a.len() implies whole[before] != sep by {
                assert(a.contains(a[before]));
            }
            lemma_find_char_is(whole, sep, a.len() as int);
            assert(whole.take(a.len() as int) =~= a);
            assert(whole.skip((a.len() + 1) as int) =~= b);
            assert(split(whole, sep) =~= split(a, sep) + split(b, sep));
        },
    }
}

/// A text without the separator is its only piece.
proof fn lemma_split_single(text: Seq<char>, sep: char)
    requires
        !text.contains(sep),
    ensures
        split(text, sep) == seq![text],
{
    lemma_find_char(text, sep);
    if let Some(at) = find_char(text, sep) {
        assert(text.contains(text[at]));
    }
}

/// A component as it stands in a path: one that names something, or the start of a path.
spec fn proper(path: Seq<Seq<char>>) -> bool {
    &&& forall|i: int|
        0 < i < path.len() ==> names(#[trigger] path[i]) && !path[i].contains('/')
    &&& path.len() > 0 ==> path[0] == "/"@ || path[0] == "."@ || (names(path[0])
        && !path[0].contains('/'))
}

/// What is kept of some pieces is one of them, and names something.
proof fn lemma_kept_piece(pieces: Seq<Seq<char>>, i: int)
    requires
        forall|j: int| 0 <= j < pieces.len() ==> !(#[trigger] pieces[j]).contains('/'),
        0 <= i < pieces.filter(|part: Seq<char>| names(part)).len(),
    ensures
        names(pieces.filter(|part: Seq<char>| names(part))[i]),
        !pieces.filter(|part: Seq<char>| names(part))[i].contains('/'),
    decreases pieces.len(),
{
    reveal(Seq::filter);
    let named = |part: Seq<char>| names(part);
    if pieces.len() > 0 {
        let front = pieces.drop_last();
        assert(pieces[pieces.len() - 1] == pieces.last());
        assert(forall|j: int| 0 <= j < front.len() ==> (#[trigger] front[j]) == pieces[j]);
        if i < front.filter(named).len() {
            lemma_kept_piece(front, i);
        }
    }
}

proof fn lemma_components_proper(text: Seq<char>)
    ensures
        proper(components(text)),
{
    let pieces = split(text, '/');
    let kept = pieces.filter(|part: Seq<char>| names(part));
    lemma_split_pieces(text, '/');
    assert forall|i: int| 0 <= i < kept.len() implies names(#[trigger] kept[i])
        && !kept[i].contains('/') by {
        lemma_kept_piece(pieces, i);
    }
    let path = components(text);
    assert forall|i: int| 0 < i < path.len() implies names(#[trigger] path[i])
        && !path[i].contains('/') by {
        assert(path[i] == kept[i - (path.len() - kept.len())]);
    }
    if path.len() > 0 && path.len() == kept.len() {
        assert(path[0] == kept[0]);
    }
}

/// A root stands at the start of a path, if anywhere.
pub open spec fn rooted(path: Seq<Seq<char>>) -> bool {
    forall|i: int| 0 < i < path.len() ==> !is_root(#[trigger] path[i])
}

/// In the path that a text names, a root stands at the start, if anywhere.
pub proof fn law_components_rooted(text: Seq<char>, windows: bool)
    ensures
        rooted(components_on(text, windows)),
{
    let read = if windows {
        slashed(text)
    } else {
        text
    };
    lemma_components_proper(read);
    let parts = components(read);
    let path = components_on(text, windows);
    assert forall|i: int| 0 < i < path.len() implies !is_root(#[trigger] path[i]) by {
        let j = i + (parts.len() - path.len());
        assert(path[i] == parts[j]);
        assert(names(parts[j]) && !parts[j].contains('/'));
    }
}

/// The components of a text are those of the text before its last separator, and what
/// follows that.
proof fn lemma_components_joined(a: Seq<char>, last: Seq<char>)
    requires
        a.len() > 0,
        names(last),
        !last.contains('/'),
    ensures
        components(a + "/"@ + last) == components(a).push(last),
{
    reveal_strlit("/");
    assert("/"@ =~= seq!['/']);
    let whole = a + "/"@ + last;
    let named = |part: Seq<char>| names(part);
    lemma_split_joined(a, '/', last);
    lemma_split_single(last, '/');
    assert(whole[0] == a[0]);
    lemma_split_some(a, '/');
    let pieces = split(a, '/');
    assert(split(whole, '/') == pieces + seq![last]);
    assert(split(whole, '/')[0] == pieces[0]);
    assert((pieces + seq![last]).drop_last() =~= pieces);
    reveal(Seq::filter);
    assert((pieces + seq![last]).filter(named) =~= pieces.filter(named).push(last));
    assert(components(whole) =~= components(a).push(last));
}

/// What is kept of one piece, and of an empty piece before it.
proof fn lemma_kept_few(part: Seq<char>)
    ensures
        seq![part].filter(|part: Seq<char>| names(part)) == (if names(part) {
            seq![part]
        } else {
            seq![]
        }),
        seq![Seq::<char>::empty(), part].filter(|part: Seq<char>| names(part)) == (if names(part) {
            seq![part]
        } else {
            seq![]
        }),
{
    reveal_with_fuel(Seq::filter, 3);
    let empty = Seq::<char>::empty();
    let two = seq![empty, part];
    assert(two.drop_last() =~= seq![empty]);
    assert(seq![part].drop_last() =~= seq![]);
    assert(seq![empty].drop_last() =~= seq![]);
}

/// The pieces of the root and of a path right below it.
proof fn lemma_split_rooted(last: Seq<char>)
    requires
        !last.contains('/'),
    ensures
        split("/"@ + last, '/') == seq![Seq::<char>::empty(), last],
        ("/"@ + last)[0] == '/',
        ("/"@ + last).len() > 0,
{
    let empty = Seq::<char>::empty();
    reveal_strlit("/");
    assert("/"@ + last =~= empty + seq!['/'] + last);
    lemma_split_joined(empty, '/', last);
    lemma_split_single(empty, '/');
    lemma_split_single(last, '/');
    assert(seq![empty] + seq![last] =~= seq![empty, last]);
}

/// The components of the root and of a path right below it.
proof fn lemma_components_rooted(last: Seq<char>)
    requires
        !last.contains('/'),
    ensures
        names(last) ==> components("/"@ + last) == seq!["/"@, last],
        !names(last) ==> components("/"@ + last) == seq!["/"@],
{
    lemma_split_rooted(last);
    lemma_kept_few(last);
    let kept = seq![Seq::<char>::empty(), last].filter(|part: Seq<char>| names(part));
    assert(components("/"@ + last) == seq!["/"@] + kept);
    if names(last) {
        assert(seq!["/"@] + seq![last] =~= seq!["/"@, last]);
    } else {
        assert(seq!["/"@] + kept =~= seq!["/"@]);
    }
}

/// The components of a text without a separator.
proof fn lemma_components_single(text: Seq<char>)
    requires
        !text.contains('/'),
    ensures
        components(text) == (if text.len() > 0 {
            seq![text]
        } else {
            seq![]
        }),
{
    reveal_strlit(".");
    lemma_split_single(text, '/');
    lemma_kept_few(text);
    if text.len() > 0 {
        assert(text.contains(text[0]));
    }
    assert(components(text) =~= (if text.len() > 0 {
        seq![text]
    } else {
        seq![]
    }));
}

proof fn lemma_path_text(path: Seq<Seq<char>>)
    requires
        proper(path),
    ensures
        components(path_text(path)) == path,
        path.len() > 0 ==> path_text(path).len() > 0,
    decreases path.len(),
{
    reveal_strlit("/");
    reveal_strlit(".");
    let empty = Seq::<char>::empty();
    if path.len() == 0 {
        lemma_components_single(empty);
        assert(path =~= seq![]);
    } else if path.len() == 1 {
        assert(path =~= seq![path[0]]);
        if path[0] == "/"@ {
            lemma_components_rooted(empty);
            assert("/"@ + empty =~= "/"@);
        } else {
            lemma_components_single(path[0]);
        }
    } else if path.len() == 2 && is_root(path[0]) {
        assert(path[0] == "/"@);
        lemma_components_rooted(path[1]);
        assert(path =~= seq!["/"@, path[1]]);
    } else {
        let front = path.drop_last();
        lemma_path_text(front);
        lemma_components_joined(path_text(front), path.last());
        assert(front.push(path.last()) =~= path);
    }
}

/// The text of a path names that path.
pub proof fn law_text_names_path(text: Seq<char>)
    ensures
        components(path_text(components(text))) == components(text),
{
    lemma_components_proper(text);
    lemma_path_text(components(text));
}

// ---- Maps by path --------------------------------------------------------------

/// What a list of entries maps each path to; the last entry for a path counts.
pub open spec fn entry_map<T>(entries: Seq<(FilePath, T)>) -> Map<Seq<Seq<char>>, T>
    decreases entries.len(),
{
    if entries.len() == 0 {
        Map::empty()
    } else {
        entry_map(entries.drop_last()).insert(entries.last().0@, entries.last().1)
    }
}

/// A map from paths to values.
pub struct PathMap<T> {
    entries: Vec<(FilePath, T)>,
}

impl<T> View for PathMap<T> {
    type V = Map<Seq<Seq<char>>, T>;

    closed spec fn view(&self) -> Map<Seq<Seq<char>>, T> {
        entry_map(self.entries@)
    }
}

impl<T> PathMap<T> {
    /// The map without entries.
    pub fn new() -> (map: Self)
        ensures
            map@ == Map::<Seq<Seq<char>>, T>::empty(),
    {
        PathMap { entries: Vec::new() }
    }

    /// Map `path` to `value`.
    pub fn insert(&mut self, path: FilePath, value: T)
        ensures
            final(self)@ == old(self)@.insert(path@, value),
    {
        let ghost before = self.entries@;
        self.entries.push((path, value));
        assert(self.entries@.drop_last() =~= before);
    }

    /// What `path` is mapped to.
    pub fn get(&self, path: &FilePath) -> (value: Option<&T>)
        ensures
            match value {
                Some(v) => self@.dom().contains(path@) && self@[path@] == *v,
                None => !self@.dom().contains(path@),
            },
    {
        let ghost all = self.entries@;
        let mut i: usize = self.entries.len();
        assert(all.take(i as int) =~= all);
        while i > 0
            invariant
                i <= all.len(),
                all == self.entries@,
                entry_map(all).dom().contains(path@) == entry_map(all.take(i as int)).dom().contains(
                    path@,
                ),
                entry_map(all)[path@] == entry_map(all.take(i as int))[path@],
            decreases i,
        {
            assert(all.take(i as int).drop_last() =~= all.take(i - 1));
            assert(all.take(i as int).last() == all[i - 1]);
            i = i - 1;
            if self.entries[i].0.same(path) {
                return Some(&self.entries[i].1);
            }
        }
        None
    }
}

} // verus!
