//! Paths of documents, as sequences of components.
//!
//! A path text is cut at `/`. Empty pieces and pieces that are a single dot
//! do not count, so `a//b`, `a/./b` and `a/b/` all have the components `a` and
//! `b`. A text that begins with `/` has the root `/` as its first component,
//! and one whose first piece is a single dot keeps that dot as its first
//! component. Two texts name the same path when their components are equal.

use crate::text::{chars_of, first_index, lemma_first_index, string_of_range};
use vstd::prelude::*;

verus! {

/// The components of a path.
pub type PathView = Seq<Seq<char>>;

/// Whether a piece between two separators is a component.
pub open spec fn is_real(piece: Seq<char>) -> bool {
    piece.len() > 0 && piece != seq!['.']
}

/// The pieces of `s` between separators that are components, in order.
pub open spec fn real_pieces(s: Seq<char>) -> PathView
    decreases s.len(),
{
    let k = first_index(s, '/');
    let piece = if 0 <= k <= s.len() {
        s.take(k)
    } else {
        s
    };
    let here = if is_real(piece) {
        seq![piece]
    } else {
        Seq::empty()
    };
    if 0 <= k < s.len() {
        here + real_pieces(s.skip(k + 1))
    } else {
        here
    }
}

/// The component that stands before the pieces: the root, a leading dot, or
/// none.
pub open spec fn leading(s: Seq<char>) -> PathView {
    if s.len() > 0 && s[0] == '/' {
        seq![seq!['/']]
    } else if s.len() > 0 && s[0] == '.' && (s.len() == 1 || s[1] == '/') {
        seq![seq!['.']]
    } else {
        Seq::empty()
    }
}

/// The components of the path that the text `s` names.
pub open spec fn components(s: Seq<char>) -> PathView {
    leading(s) + real_pieces(s)
}

/// The directory that holds the path: the path without its last component.
/// The empty path and the root have none.
pub open spec fn parent_of(path: PathView) -> Option<PathView> {
    if path.len() == 0 || path.last() == seq!['/'] {
        None
    } else {
        Some(path.drop_last())
    }
}

/// The last component, where it names a file or directory: not the root, a
/// dot or two dots.
pub open spec fn file_name_of(path: PathView) -> Option<Seq<char>> {
    if path.len() == 0 || path.last() == seq!['/'] || path.last() == seq!['.'] || path.last()
        == seq!['.', '.'] {
        None
    } else {
        Some(path.last())
    }
}

/// The text of a path: its components with `/` between them, and none after
/// the root.
pub open spec fn path_text(path: PathView) -> Seq<char>
    decreases path.len(),
{
    if path.len() == 0 {
        Seq::empty()
    } else if path.len() == 1 {
        path[0]
    } else if path.len() == 2 && path[0] == seq!['/'] {
        path[0] + path[1]
    } else {
        path_text(path.drop_last()) + seq!['/'] + path.last()
    }
}

/// The path of a document.
#[derive(Debug)]
pub struct DocPath {
    /// The components, the first first.
    pub parts: Vec<String>,
}

impl DeepView for DocPath {
    type V = PathView;

    open spec fn deep_view(&self) -> PathView {
        self.parts.deep_view()
    }
}

impl View for DocPath {
    type V = PathView;

    open spec fn view(&self) -> PathView {
        self.deep_view()
    }
}

impl Clone for DocPath {
    fn clone(&self) -> (copy: Self)
        ensures
            copy@ == self@,
    {
        let parts = self.parts.clone();
        proof {
            assert(parts.deep_view() =~= self.parts.deep_view());
        }
        DocPath { parts }
    }
}

impl DocPath {
    /// The path that `text` names, see [`components`].
    pub fn parse(text: &str) -> (path: DocPath)
        ensures
            path@ == components(text@),
    {
        let chars = chars_of(text);
        let n: usize = chars.len();
        let mut parts: Vec<String> = Vec::new();
        if n > 0 && chars[0] == '/' {
            parts.push(string_of_range(&chars, 0, 1));
        } else if n > 0 && chars[0] == '.' && (n == 1 || chars[1] == '/') {
            parts.push(string_of_range(&chars, 0, 1));
        }
        proof {
            if n > 0 {
                assert(chars@.subrange(0, 1) =~= seq![chars@[0]]);
            }
            assert(parts.deep_view() =~= leading(chars@));
            assert(chars@.skip(0) =~= chars@);
        }
        let mut start: usize = 0;
        let mut i: usize = 0;
        while i < n
            invariant
                start <= i <= n,
                n == chars.len(),
                chars@ == text@,
                forall|j: int| start <= j < i ==> chars@[j] != '/',
                components(text@) == parts.deep_view() + real_pieces(chars@.skip(start as int)),
            decreases n - i,
        {
            if chars[i] == '/' {
                let ghost rest = chars@.skip(start as int);
                let ghost before = parts.deep_view();
                proof {
                    lemma_first_index(rest, '/', i - start);
                    assert(rest.take(i - start) =~= chars@.subrange(start as int, i as int));
                    assert(rest.skip(i - start + 1) =~= chars@.skip(i + 1));
                }
                if i > start && !(i == start + 1 && chars[start] == '.') {
                    let piece = string_of_range(&chars, start, i);
                    proof {
                        assert(piece@ != seq!['.']) by {
                            if piece@.len() == 1 {
                                assert(piece@[0] == chars@[start as int]);
                            }
                        }
                    }
                    parts.push(piece);
                    proof {
                        assert(parts.deep_view() =~= before.push(piece@));
                        assert(before.push(piece@) + real_pieces(chars@.skip(i + 1)) =~= before
                            + real_pieces(rest));
                    }
                } else {
                    proof {
                        let piece = chars@.subrange(start as int, i as int);
                        if i > start {
                            assert(piece =~= seq!['.']);
                        }
                        assert(!is_real(piece));
                        assert(before + real_pieces(chars@.skip(i + 1)) =~= before + real_pieces(
                            rest,
                        ));
                    }
                }
                start = i + 1;
            }
            i += 1;
        }
        let ghost rest = chars@.skip(start as int);
        let ghost before = parts.deep_view();
        proof {
            lemma_first_index(rest, '/', rest.len() as int);
            assert(rest.take(rest.len() as int) =~= rest);
            assert(rest =~= chars@.subrange(start as int, n as int));
        }
        if n > start && !(n == start + 1 && chars[start] == '.') {
            let piece = string_of_range(&chars, start, n);
            proof {
                assert(piece@ != seq!['.']) by {
                    if piece@.len() == 1 {
                        assert(piece@[0] == chars@[start as int]);
                    }
                }
            }
            parts.push(piece);
            proof {
                assert(parts.deep_view() =~= before.push(piece@));
                assert(before.push(piece@) =~= before + real_pieces(rest));
            }
        } else {
            proof {
                if n > start {
                    assert(rest =~= seq!['.']);
                }
                assert(!is_real(rest));
                assert(before =~= before + real_pieces(rest));
            }
        }
        DocPath { parts }
    }

    /// Whether the two paths have the same components.
    pub fn same(&self, other: &DocPath) -> (yes: bool)
        ensures
            yes == (self@ == other@),
    {
        if self.parts.len() != other.parts.len() {
            proof {
                assert(self@.len() != other@.len());
            }
            return false;
        }
        let mut i: usize = 0;
        while i < self.parts.len()
            invariant
                i <= self.parts.len(),
                self.parts.len() == other.parts.len(),
                forall|j: int| 0 <= j < i ==> self@[j] == other@[j],
            decreases self.parts.len() - i,
        {
            if self.parts[i] != other.parts[i] {
                proof {
                    assert(self@[i as int] != other@[i as int]);
                }
                return false;
            }
            i += 1;
        }
        proof {
            assert(self@ =~= other@);
        }
        true
    }

    /// Whether `base` is this path or a directory above it: whether the
    /// components of `base` are the first components of this path.
    pub fn starts_with(&self, base: &DocPath) -> (yes: bool)
        ensures
            yes == base@.is_prefix_of(self@),
    {
        if base.parts.len() > self.parts.len() {
            return false;
        }
        let mut i: usize = 0;
        while i < base.parts.len()
            invariant
                i <= base.parts.len() <= self.parts.len(),
                forall|j: int| 0 <= j < i ==> self@[j] == base@[j],
            decreases base.parts.len() - i,
        {
            if self.parts[i] != base.parts[i] {
                proof {
                    assert(self@.subrange(0, base@.len() as int)[i as int] == self@[i as int]);
                    assert(self@[i as int] != base@[i as int]);
                }
                return false;
            }
            i += 1;
        }
        proof {
            assert(base@ =~= self@.subrange(0, base@.len() as int));
        }
        true
    }

    /// The directory that holds this path, see [`parent_of`].
    pub fn parent(&self) -> (dir: Option<DocPath>)
        ensures
            dir.deep_view() == parent_of(self@),
    {
        let n: usize = self.parts.len();
        if n == 0 {
            return None;
        }
        let root = String::from_str("/");
        proof {
            reveal_strlit("/");
            assert(root@ =~= seq!['/']);
            assert(self@.last() == self.parts[n - 1]@);
        }
        if self.parts[n - 1] == root {
            return None;
        }
        let mut parts: Vec<String> = Vec::new();
        let mut i: usize = 0;
        while i < n - 1
            invariant
                i <= n - 1,
                n == self.parts.len(),
                parts.deep_view() == self@.take(i as int),
            decreases n - 1 - i,
        {
            let ghost before = parts.deep_view();
            parts.push(self.parts[i].clone());
            proof {
                assert(parts.deep_view() =~= before.push(self@[i as int]));
                assert(self@.take(i + 1) =~= before.push(self@[i as int]));
            }
            i += 1;
        }
        proof {
            assert(self@.take(n - 1) =~= self@.drop_last());
        }
        Some(DocPath { parts })
    }

    /// The name of the file or directory that this path ends in, see
    /// [`file_name_of`].
    pub fn file_name(&self) -> (name: Option<String>)
        ensures
            name.deep_view() == file_name_of(self@),
    {
        let n: usize = self.parts.len();
        if n == 0 {
            return None;
        }
        let root = String::from_str("/");
        let dot = String::from_str(".");
        let dots = String::from_str("..");
        proof {
            reveal_strlit("/");
            reveal_strlit(".");
            reveal_strlit("..");
            assert(root@ =~= seq!['/']);
            assert(dot@ =~= seq!['.']);
            assert(dots@ =~= seq!['.', '.']);
            assert(self@.last() == self.parts[n - 1]@);
        }
        let last = &self.parts[n - 1];
        if *last == root || *last == dot || *last == dots {
            None
        } else {
            Some(last.clone())
        }
    }

    /// The text of this path, see [`path_text`].
    pub fn to_text(&self) -> (text: String)
        ensures
            text@ == path_text(self@),
    {
        let n: usize = self.parts.len();
        let mut text = String::new();
        let root = String::from_str("/");
        proof {
            reveal_strlit("/");
            assert(root@ =~= seq!['/']);
            assert(self@.take(0) =~= Seq::<Seq<char>>::empty());
        }
        let mut i: usize = 0;
        while i < n
            invariant
                i <= n,
                n == self.parts.len(),
                root@ == seq!['/'],
                text@ == path_text(self@.take(i as int)),
            decreases n - i,
        {
            proof {
                let next = self@.take(i + 1);
                assert(next.drop_last() =~= self@.take(i as int));
                assert(next.last() == self.parts[i as int]@);
                if i >= 1 {
                    assert(next[0] == self.parts[0]@);
                }
                if i == 1 {
                    assert(self@.take(1)[0] == self.parts[0]@);
                }
            }
            if i > 0 && !(i == 1 && self.parts[0] == root) {
                text.push('/');
            }
            text.append(self.parts[i].as_str());
            i += 1;
        }
        proof {
            assert(self@.take(n as int) =~= self@);
        }
        text
    }
}

} // verus!
