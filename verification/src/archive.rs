//! Where the entries of an archive are unpacked to.
//!
//! The name of an entry is whatever the archive's author wrote: it may start
//! at the root, climb with `..`, or use either kind of separator. Before an
//! entry is written, its name is cleaned: the name ends at the first NUL
//! character, it is cut at every `/` and `\`, and of the pieces only those
//! stay that name something: not the empty piece, not `.` and not `..`.
//! Appended to the destination directory, the pieces that stay can only lead
//! further into it.

use vstd::prelude::*;
use vstd::string::*;
use crate::scan::{first_index_of, lemma_first_index_is, lemma_first_index_of};
use vstd::std_specs::iter::IteratorSpec;

verus! {

/// Whether `c` parts the components of a path.
pub open spec fn is_separator(c: char) -> bool {
    c == '/' || c == '\\'
}

/// The name up to its first NUL character.
pub open spec fn before_nul(name: Seq<char>) -> Seq<char> {
    name.take(first_index_of(name, '\0'))
}

/// The pieces between the separators of `s`; one more than there are
/// separators, some of them possibly empty.
pub open spec fn pieces(s: Seq<char>) -> Seq<Seq<char>>
    decreases s.len(),
{
    if s.len() == 0 {
        seq![Seq::empty()]
    } else {
        let front = pieces(s.drop_last());
        if is_separator(s.last()) {
            front.push(Seq::empty())
        } else {
            front.drop_last().push(front.last().push(s.last()))
        }
    }
}

/// Whether a piece names a file or a directory: it is not empty and it is
/// neither `.` nor `..`.
pub open spec fn names_something(piece: Seq<char>) -> bool {
    piece.len() > 0 && piece != seq!['.'] && piece != seq!['.', '.']
}

/// The pieces that name something, in their order.
pub open spec fn naming(parts: Seq<Seq<char>>) -> Seq<Seq<char>>
    decreases parts.len(),
{
    if parts.len() == 0 {
        Seq::empty()
    } else if names_something(parts.last()) {
        naming(parts.drop_last()).push(parts.last())
    } else {
        naming(parts.drop_last())
    }
}

/// The path below the destination directory at which an entry of the given
/// name is unpacked, as its components.
pub open spec fn sanitized(name: Seq<char>) -> Seq<Seq<char>> {
    naming(pieces(before_nul(name)))
}

/// Whether the name is that of a directory: before its first NUL character
/// it ends in a separator.
pub open spec fn names_directory(name: Seq<char>) -> bool {
    before_nul(name).len() > 0 && is_separator(before_nul(name).last())
}

/// What unpacking an entry means.
#[derive(Clone, Debug, PartialEq, Eq)]
pub enum Unpack {
    /// The name names nothing below the destination: there is nothing to do.
    Nothing,
    /// Make the directory at this path below the destination.
    Directory(Vec<String>),
    /// Write the entry to the file at this path below the destination.
    File(Vec<String>),
}

/// What unpacking an entry means, with the path as plain characters.
pub enum UnpackPlan {
    Nothing,
    Directory(Seq<Seq<char>>),
    File(Seq<Seq<char>>),
}

impl View for Unpack {
    type V = UnpackPlan;

    open spec fn view(&self) -> UnpackPlan {
        match self {
            Unpack::Nothing => UnpackPlan::Nothing,
            Unpack::Directory(path) => UnpackPlan::Directory(path.deep_view()),
            Unpack::File(path) => UnpackPlan::File(path.deep_view()),
        }
    }
}

/// What unpacking an entry of the given name means.
pub open spec fn unpack_plan(name: Seq<char>) -> UnpackPlan {
    if sanitized(name).len() == 0 {
        UnpackPlan::Nothing
    } else if names_directory(name) {
        UnpackPlan::Directory(sanitized(name))
    } else {
        UnpackPlan::File(sanitized(name))
    }
}

/// Whether a component can only lead one step further into a directory: it
/// names something and holds neither a separator nor a NUL character.
pub open spec fn is_normal(component: Seq<char>) -> bool {
    &&& names_something(component)
    &&& forall|i: int|
        0 <= i < component.len() ==> !is_separator(#[trigger] component[i]) && component[i]
            != '\0'
}

/// Where one arrives from the directory `base` by following `path` one
/// component at a time: `..` leads to the parent, an empty component and `.`
/// lead nowhere, any other component leads into the directory of that name.
/// Above the root there is only the root.
pub open spec fn resolve(base: Seq<Seq<char>>, path: Seq<Seq<char>>) -> Seq<Seq<char>>
    decreases path.len(),
{
    if path.len() == 0 {
        base
    } else {
        let at = resolve(base, path.drop_last());
        let step = path.last();
        if step == seq!['.', '.'] {
            if at.len() > 0 {
                at.drop_last()
            } else {
                at
            }
        } else if step.len() == 0 || step == seq!['.'] {
            at
        } else {
            at.push(step)
        }
    }
}

/// No piece holds a separator, and the pieces of a text without NUL hold no
/// NUL.
pub proof fn lemma_pieces(s: Seq<char>)
    ensures
        pieces(s).len() >= 1,
        forall|k: int, i: int|
            0 <= k < pieces(s).len() && 0 <= i < pieces(s)[k].len() ==> !is_separator(
                #[trigger] pieces(s)[k][i],
            ),
        (forall|j: int| 0 <= j < s.len() ==> s[j] != '\0') ==> forall|k: int, i: int|
            0 <= k < pieces(s).len() && 0 <= i < pieces(s)[k].len() ==> #[trigger] pieces(
                s,
            )[k][i] != '\0',
    decreases s.len(),
{
    if s.len() > 0 {
        let t = s.drop_last();
        lemma_pieces(t);
        if forall|j: int| 0 <= j < s.len() ==> s[j] != '\0' {
            assert forall|j: int| 0 <= j < t.len() implies t[j] != '\0' by {
                assert(t[j] == s[j]);
            }
            assert(s.last() == s[s.len() - 1]);
        }
    }
}

/// The pieces that stay are among the pieces, and each names something.
pub proof fn lemma_naming(parts: Seq<Seq<char>>)
    ensures
        forall|k: int|
            0 <= k < naming(parts).len() ==> names_something(#[trigger] naming(parts)[k])
                && parts.contains(naming(parts)[k]),
    decreases parts.len(),
{
    if parts.len() > 0 {
        let front = parts.drop_last();
        lemma_naming(front);
        assert forall|k: int| 0 <= k < naming(parts).len() implies names_something(
            #[trigger] naming(parts)[k],
        ) && parts.contains(naming(parts)[k]) by {
            if k < naming(front).len() {
                let c = naming(front)[k];
                assert(front.contains(c));
                let w = choose|w: int| 0 <= w < front.len() && front[w] == c;
                assert(parts[w] == c);
            } else {
                assert(parts[parts.len() - 1] == parts.last());
            }
        }
    }
}

/// Every component of a cleaned name is normal, whatever the name holds.
pub proof fn lemma_sanitized_is_normal(name: Seq<char>)
    ensures
        forall|k: int| 0 <= k < sanitized(name).len() ==> is_normal(#[trigger] sanitized(name)[k]),
{
    let s = before_nul(name);
    lemma_first_index_of(name, '\0');
    lemma_pieces(s);
    lemma_naming(pieces(s));
    assert forall|k: int| 0 <= k < sanitized(name).len() implies is_normal(
        #[trigger] sanitized(name)[k],
    ) by {
        let c = sanitized(name)[k];
        assert(pieces(s).contains(c));
        let w = choose|w: int| 0 <= w < pieces(s).len() && pieces(s)[w] == c;
        assert forall|i: int| 0 <= i < c.len() implies !is_separator(#[trigger] c[i]) && c[i]
            != '\0' by {
            assert(c[i] == pieces(s)[w][i]);
        }
    }
}

/// Following normal components from a directory leads to the directory with
/// those components appended: nothing is taken back.
pub proof fn lemma_resolve_normal(base: Seq<Seq<char>>, path: Seq<Seq<char>>)
    requires
        forall|k: int| 0 <= k < path.len() ==> is_normal(#[trigger] path[k]),
    ensures
        resolve(base, path) == base + path,
    decreases path.len(),
{
    if path.len() == 0 {
        assert(base + path =~= base);
    } else {
        let front = path.drop_last();
        assert forall|k: int| 0 <= k < front.len() implies is_normal(#[trigger] front[k]) by {
            assert(front[k] == path[k]);
        }
        lemma_resolve_normal(base, front);
        assert(is_normal(path[path.len() - 1]));
        assert((base + front).push(path.last()) =~= base + path);
    }
}

/// An entry is unpacked inside the destination directory, whatever its name
/// is: at every step of the way from the destination along the cleaned name
/// one stands in the destination or below it.
pub proof fn lemma_unpacked_inside(destination: Seq<Seq<char>>, name: Seq<char>)
    ensures
        forall|n: int|
            0 <= n <= sanitized(name).len() ==> destination.is_prefix_of(
                #[trigger] resolve(destination, sanitized(name).take(n)),
            ),
        resolve(destination, sanitized(name)) == destination + sanitized(name),
{
    let path = sanitized(name);
    lemma_sanitized_is_normal(name);
    lemma_resolve_normal(destination, path);
    assert forall|n: int| 0 <= n <= path.len() implies destination.is_prefix_of(
        #[trigger] resolve(destination, path.take(n)),
    ) by {
        let part = path.take(n);
        assert forall|k: int| 0 <= k < part.len() implies is_normal(#[trigger] part[k]) by {
            assert(part[k] == path[k]);
        }
        lemma_resolve_normal(destination, part);
        assert((destination + part).subrange(0, destination.len() as int) =~= destination);
    }
}

/// Calls `String::push`.
///
/// Trusted: the character is appended to the end of the string.
#[verifier::external_body]
fn push_char(s: &mut String, c: char)
    ensures
        final(s)@ == old(s)@.push(c),
{
    s.push(c);
}

/// Cleans the name of an archive entry, and tells whether the name ends in
/// a separator.
fn clean_name(name: &str) -> (r: (Vec<String>, bool))
    ensures
        r.0.deep_view() == sanitized(name@),
        r.1 == names_directory(name@),
{
    broadcast use vstd::string::group_string_axioms;

    let mut parts: Vec<String> = Vec::new();
    let mut piece = String::new();
    // The length of the piece, counted up to three, and whether the piece
    // holds nothing but dots.
    let mut length: u8 = 0;
    let mut dots: bool = true;
    let mut chars = name.chars();
    let mut started = false;
    let mut done = false;
    let ghost mut i: int = 0;
    proof {
        assert(name@.take(0) =~= Seq::<char>::empty());
        assert(pieces(name@.take(0)).drop_last() =~= Seq::<Seq<char>>::empty());
        assert(name@.skip(0) =~= name@);
    }
    while !done
        invariant
            0 <= i <= name@.len(),
            chars.obeys_prophetic_iter_laws(),
            chars.decrease() is Some,
            !done ==> chars.remaining() == name@.skip(i),
            forall|j: int| 0 <= j < i ==> name@[j] != '\0',
            done ==> (i == name@.len() || name@[i] == '\0'),
            started == (i > 0),
            i > 0 ==> (piece@.len() == 0 <==> is_separator(name@[i - 1])),
            parts.deep_view() == naming(pieces(name@.take(i)).drop_last()),
            piece@ == pieces(name@.take(i)).last(),
            length as int == if piece@.len() < 3 {
                piece@.len() as int
            } else {
                3
            },
            dots == (forall|k: int| 0 <= k < piece@.len() ==> piece@[k] == '.'),
        decreases
                name@.len() - i + (if done {
                    0int
                } else {
                    1int
                }),
    {
        let ghost before = pieces(name@.take(i));
        let ghost old_piece = piece@;
        match chars.next() {
            None => {
                done = true;
            },
            Some(c) => {
                assert(c == name@.skip(i)[0]);
                assert(name@.skip(i).drop_first() =~= name@.skip(i + 1));
                if c == '\0' {
                    done = true;
                } else {
                    proof {
                        assert(name@.take(i + 1).drop_last() =~= name@.take(i));
                        assert(name@.take(i + 1).last() == c);
                        lemma_pieces(name@.take(i));
                    }
                    if c == '/' || c == '\\' {
                        if length > 0 && !(dots && length <= 2) {
                            proof {
                                assert(names_something(old_piece)) by {
                                    if old_piece == seq!['.'] || old_piece == seq!['.', '.'] {
                                        assert(old_piece.len() <= 2);
                                    }
                                }
                            }
                            parts.push(piece);
                        } else {
                            proof {
                                assert(!names_something(old_piece)) by {
                                    if old_piece.len() == 1 {
                                        assert(old_piece =~= seq!['.']);
                                    } else if old_piece.len() == 2 {
                                        assert(old_piece =~= seq!['.', '.']);
                                    }
                                }
                            }
                        }
                        piece = String::new();
                        length = 0;
                        dots = true;
                        proof {
                            let after = pieces(name@.take(i + 1));
                            assert(after == before.push(Seq::<char>::empty()));
                            assert(after.drop_last() =~= before);
                            assert(parts.deep_view() =~= naming(before));
                        }
                    } else {
                        push_char(&mut piece, c);
                        if length < 3 {
                            length = length + 1;
                        }
                        dots = dots && c == '.';
                        proof {
                            let after = pieces(name@.take(i + 1));
                            assert(after == before.drop_last().push(before.last().push(c)));
                            assert(after.drop_last() =~= before.drop_last());
                            assert(dots == (forall|k: int|
                                0 <= k < piece@.len() ==> piece@[k] == '.')) by {
                                if !dots {
                                    if c == '.' {
                                        let k = choose|k: int|
                                            0 <= k < old_piece.len() && old_piece[k] != '.';
                                        assert(piece@[k] == old_piece[k]);
                                    } else {
                                        assert(piece@[piece@.len() - 1] == c);
                                    }
                                } else {
                                    assert forall|k: int| 0 <= k < piece@.len() implies piece@[k]
                                        == '.' by {
                                        if k < old_piece.len() {
                                            assert(piece@[k] == old_piece[k]);
                                        }
                                    }
                                }
                            }
                        }
                    }
                    started = true;
                    proof {
                        assert(name@.take(i + 1).last() == name@[i]);
                        i = i + 1;
                    }
                }
            },
        }
    }
    proof {
        lemma_first_index_is(name@, '\0', i);
    }
    let ghost all = pieces(name@.take(i));
    if length > 0 && !(dots && length <= 2) {
        proof {
            assert(names_something(piece@)) by {
                if piece@ == seq!['.'] || piece@ == seq!['.', '.'] {
                    assert(piece@.len() <= 2);
                }
            }
        }
        parts.push(piece);
        assert(parts.deep_view() =~= naming(all));
    } else {
        proof {
            assert(!names_something(piece@)) by {
                if piece@.len() == 1 {
                    assert(piece@ =~= seq!['.']);
                } else if piece@.len() == 2 {
                    assert(piece@ =~= seq!['.', '.']);
                }
            }
            assert(parts.deep_view() =~= naming(all));
        }
    }
    assert(before_nul(name@) == name@.take(i));
    assert(i > 0 ==> name@.take(i).last() == name@[i - 1]);
    (parts, started && length == 0)
}

/// Cleans the name of an archive entry into the components of the path,
/// below the destination directory, at which the entry is unpacked.
///
/// The result is empty for a name that names nothing, such as `/` or `..`.
pub fn sanitize_entry_name(name: &str) -> (r: Vec<String>)
    ensures
        r.deep_view() == sanitized(name@),
        forall|k: int| 0 <= k < r.len() ==> is_normal(#[trigger] r[k]@),
{
    let (parts, _) = clean_name(name);
    proof {
        lemma_sanitized_is_normal(name@);
    }
    assert forall|k: int| 0 <= k < parts.len() implies is_normal(#[trigger] parts[k]@) by {
        assert(parts.deep_view()[k] == parts[k].deep_view());
        assert(is_normal(sanitized(name@)[k]));
    }
    parts
}

/// Decides what unpacking an entry of the given name means: nothing to do
/// for a name that names nothing, else a directory to make if the name ends
/// in a separator, else a file to write; either at the cleaned name below
/// the destination directory.
pub fn plan_entry(name: &str) -> (r: Unpack)
    ensures
        r@ == unpack_plan(name@),
{
    let (path, directory) = clean_name(name);
    if path.len() == 0 {
        Unpack::Nothing
    } else if directory {
        Unpack::Directory(path)
    } else {
        Unpack::File(path)
    }
}

} // verus!
