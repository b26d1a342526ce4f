//! Unix file paths as texts.
use vstd::prelude::*;

use crate::text;

verus! {

/// Whether a path starts at the root.
pub open spec fn is_absolute(path: Seq<char>) -> bool {
    path.len() > 0 && path[0] == '/'
}

/// Whether the component in place `i` of a path is `..`.
pub open spec fn parent_at(path: Seq<char>, i: int) -> bool {
    &&& 0 <= i <= path.len() - 2
    &&& path[i] == '.' && path[i + 1] == '.'
    &&& i == 0 || path[i - 1] == '/'
    &&& i + 2 == path.len() || path[i + 2] == '/'
}

/// Whether one of a path's components is `..`.
pub open spec fn has_parent(path: Seq<char>) -> bool {
    exists|i: int| parent_at(path, i)
}

/// A path from the root that never steps back up.
pub open spec fn is_clean_absolute(path: Seq<char>) -> bool {
    is_absolute(path) && !has_parent(path)
}

/// Whether a path starts at the root.
pub fn absolute(path: &str) -> (out: bool)
    ensures
        out == is_absolute(path@),
{
    let chars: Vec<char> = text::chars_of(path);
    chars.len() > 0 && chars[0] == '/'
}

/// A path from the root that never steps back up.
pub fn clean_absolute(path: &str) -> (out: bool)
    ensures
        out == is_clean_absolute(path@),
{
    let chars: Vec<char> = text::chars_of(path);
    if chars.len() == 0 || chars[0] != '/' {
        return false;
    }
    let size: usize = chars.len();
    let mut i: usize = 0;
    while i < size - 1
        invariant
            0 < size == chars@.len(),
            chars@ == path@,
            i <= size - 1,
            forall|j: int| 0 <= j < i ==> !parent_at(path@, j),
        decreases size - i,
    {
        if chars[i] == '.' && chars[i + 1] == '.' && (i == 0 || chars[i - 1] == '/') && (i + 2
            == size || chars[i + 2] == '/') {
            proof {
                assert(parent_at(path@, i as int));
            }
            return false;
        }
        i += 1;
    }
    true
}


/// The component that stands between two slashes, if there is one.
pub open spec fn component(piece: Seq<char>) -> Seq<Seq<char>> {
    if piece.len() == 0 || piece == "."@ {
        Seq::empty()
    } else {
        seq![piece]
    }
}

/// The components of a path from the root, in order.
pub open spec fn components(path: Seq<char>) -> Seq<Seq<char>>
    decreases path.len(),
{
    match text::find_char(path, '/', 0) {
        None => component(path),
        Some(i) => if 0 <= i < path.len() {
            component(path.take(i)) + components(path.skip(i + 1))
        } else {
            Seq::empty()
        },
    }
}

/// Whether two paths from the root name the same place without being looked up.
pub open spec fn is_same_place(a: Seq<char>, b: Seq<char>) -> bool {
    is_absolute(a) && is_absolute(b) && components(a) == components(b)
}

/// The components of a path from the root, in order.
pub fn components_of(path: &str) -> (out: Vec<String>)
    ensures
        text::views(out@) == components(path@),
{
    let chars: Vec<char> = text::chars_of(path);
    let mut out: Vec<String> = Vec::new();
    let mut at: usize = 0;
    let size: usize = chars.len();
    proof {
        assert(path@.skip(0) =~= path@);
        assert(text::views(out@) + components(path@) =~= components(path@));
    }
    loop
        invariant_except_break
            chars@ == path@,
            at <= size == path@.len(),
            text::views(out@) + components(path@.skip(at as int)) == components(path@),
        ensures
            text::views(out@) == components(path@),
        decreases size - at,
    {
        let ghost rest = path@.skip(at as int);
        let ghost before = out@;
        proof {
            text::lemma_find_char(path@, '/', at as int);
            text::lemma_find_char(rest, '/', 0);
        }
        let found: Option<usize> = text::find_char_in(&chars, '/', at);
        let end: usize = match found {
            Some(end) => end,
            None => size,
        };
        proof {
            match text::find_char(rest, '/', 0) {
                Some(k) => {
                    assert(rest[k] == path@[at + k]);
                    assert(found is Some);
                    assert(rest[end - at] == path@[end as int]);
                    if k < end - at {
                        assert(path@[at + k] != '/');
                    }
                    assert(k == end - at);
                },
                None => {
                    if found is Some {
                        assert(rest[end - at] == path@[end as int]);
                    }
                },
            }
        }
        let piece: String = text::text_of(&chars, at, end);
        proof {
            assert(rest.take(end - at) =~= piece@);
        }
        let is_current: bool = text::same(piece.as_str(), ".");
        if end > at && !is_current {
            out.push(piece);
            proof {
                assert(text::views(out@) =~= text::views(before) + component(piece@));
            }
        } else {
            proof {
                assert(text::views(out@) =~= text::views(before) + component(piece@));
            }
        }
        if found.is_none() {
            proof {
                assert(piece@ =~= rest);
            }
            break;
        }
        proof {
            assert(rest.skip(end - at + 1) =~= path@.skip(end + 1));
            assert(text::views(out@) + components(path@.skip(end + 1)) =~= text::views(before)
                + components(rest));
        }
        at = end + 1;
    }
    out
}

/// Whether two paths from the root name the same place without being looked up.
pub fn same_place(a: &str, b: &str) -> (out: bool)
    ensures
        out == is_same_place(a@, b@),
{
    if !absolute(a) || !absolute(b) {
        return false;
    }
    let left: Vec<String> = components_of(a);
    let right: Vec<String> = components_of(b);
    proof {
        assert(text::views(left@).len() == left@.len());
        assert(text::views(right@).len() == right@.len());
    }
    if left.len() != right.len() {
        return false;
    }
    let mut i: usize = 0;
    while i < left.len()
        invariant
            i <= left@.len() == right@.len(),
            text::views(left@) == components(a@),
            text::views(right@) == components(b@),
            forall|j: int| 0 <= j < i ==> (#[trigger] left@[j])@ == right@[j]@,
        decreases left@.len() - i,
    {
        if !text::same(left[i].as_str(), right[i].as_str()) {
            proof {
                assert(text::views(left@)[i as int] != text::views(right@)[i as int]);
            }
            return false;
        }
        i += 1;
    }
    proof {
        assert(text::views(left@) =~= text::views(right@));
    }
    true
}

/// A path from the root begins with a slash; one that never steps back up has no
/// component `..`: none that a slash or an end of the path bounds on both sides.
pub proof fn law_clean_paths(path: Seq<char>)
    ensures
        is_absolute(path) <==> seq!['/'].is_prefix_of(path),
        has_parent(path) <==> exists|before: Seq<char>, after: Seq<char>|
            {
                &&& path == #[trigger] (before + ".."@ + after)
                &&& before.len() == 0 || before.last() == '/'
                &&& after.len() == 0 || after.first() == '/'
            },
        is_clean_absolute(path) <==> seq!['/'].is_prefix_of(path) && !has_parent(path),
{
    reveal_strlit("..");
    if path.len() > 0 && path[0] == '/' {
        assert(path.subrange(0, 1) =~= seq!['/']);
    }
    if seq!['/'].is_prefix_of(path) {
        assert(path.subrange(0, 1)[0] == seq!['/'][0]);
    }
    if has_parent(path) {
        let i = choose|i: int| parent_at(path, i);
        let before = path.take(i);
        let after = path.skip(i + 2);
        assert(path =~= before + ".."@ + after);
    }
    if exists|before: Seq<char>, after: Seq<char>|
        {
            &&& path == #[trigger] (before + ".."@ + after)
            &&& before.len() == 0 || before.last() == '/'
            &&& after.len() == 0 || after.first() == '/'
        } {
        let (before, after) = choose|before: Seq<char>, after: Seq<char>|
            {
                &&& path == #[trigger] (before + ".."@ + after)
                &&& before.len() == 0 || before.last() == '/'
                &&& after.len() == 0 || after.first() == '/'
            };
        assert(parent_at(path, before.len() as int));
    }
}

/// The components of a path are what its slashes part, but for empty pieces and
/// single dots.
pub proof fn law_components(piece: Seq<char>, rest: Seq<char>)
    requires
        !piece.contains('/'),
    ensures
        piece.len() > 0 && piece != seq!['.'] ==> components(piece) == seq![piece],
        piece.len() > 0 && piece != seq!['.'] ==> components(piece.push('/') + rest) == seq![piece]
            + components(rest),
        components(seq!['/'] + rest) == components(rest),
        components(seq!['.', '/'] + rest) == components(rest),
        components(seq!['.']) == Seq::<Seq<char>>::empty(),
        components(Seq::empty()) == Seq::<Seq<char>>::empty(),
{
    reveal_strlit(".");
    assert("."@ =~= seq!['.']);
    text::lemma_find_char(piece, '/', 0);
    if text::find_char(piece, '/', 0) is Some {
        let i = text::find_char(piece, '/', 0)->0;
        assert(piece[i] == '/');
    }
    lemma_piece_in_front(piece, rest);
    lemma_piece_in_front(Seq::empty(), rest);
    assert(Seq::<char>::empty().push('/') + rest =~= seq!['/'] + rest);
    assert(Seq::<Seq<char>>::empty() + components(rest) =~= components(rest));
    lemma_piece_in_front(seq!['.'], rest);
    assert(seq!['.'].push('/') + rest =~= seq!['.', '/'] + rest);
    text::lemma_find_char(seq!['.'], '/', 0);
    text::lemma_find_char(Seq::empty(), '/', 0);
}

proof fn lemma_piece_in_front(piece: Seq<char>, rest: Seq<char>)
    requires
        !piece.contains('/'),
    ensures
        components(piece.push('/') + rest) == component(piece) + components(rest),
{
    let whole = piece.push('/') + rest;
    text::lemma_find_char(whole, '/', 0);
    assert(whole[piece.len() as int] == '/');
    let i = text::find_char(whole, '/', 0)->0;
    if i < piece.len() {
        assert(whole[i] == piece[i]);
        assert(piece.contains('/'));
    }
    assert(i == piece.len());
    assert(whole.take(i) =~= piece);
    assert(whole.skip(i + 1) =~= rest);
}

/// Two paths name the same place exactly where both start at the root and have
/// the same components in the same order.
pub proof fn law_same_place(a: Seq<char>, b: Seq<char>)
    ensures
        is_same_place(a, b) <==> seq!['/'].is_prefix_of(a) && seq!['/'].is_prefix_of(b)
            && components(a).len() == components(b).len() && forall|i: int|
            0 <= i < components(a).len() ==> #[trigger] components(a)[i] == components(b)[i],
{
    law_clean_paths(a);
    law_clean_paths(b);
    if components(a).len() == components(b).len() && forall|i: int|
        0 <= i < components(a).len() ==> #[trigger] components(a)[i] == components(b)[i] {
        assert(components(a) =~= components(b));
    }
}

}
