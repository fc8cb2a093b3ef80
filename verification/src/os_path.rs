//! File-system paths compared the way the platform's path type compares
//! them: by their components, so that repeated separators, a trailing
//! separator and `.` pieces after the first make no difference.

use vstd::prelude::*;
use crate::project::kind::text_bytes;
use crate::text::bytes_eq;

verus! {

/// A piece that names nothing: empty (between repeated separators or at
/// the end) or `.`.
pub open spec fn idle_piece(p: Seq<u8>) -> bool {
    p.len() == 0 || p == seq![46u8]
}

/// `acc` with the piece `cur` added unless it names nothing.
pub open spec fn keep_piece(acc: Seq<Seq<u8>>, cur: Seq<u8>) -> Seq<Seq<u8>> {
    if idle_piece(cur) { acc } else { acc.push(cur) }
}

/// The pieces of `b` from position `i` on, where `cur` is the piece read so
/// far and `acc` the components before it.
pub open spec fn pieces_from(b: Seq<u8>, i: int, cur: Seq<u8>, acc: Seq<Seq<u8>>) -> Seq<Seq<u8>>
    decreases b.len() - i,
{
    if i >= b.len() {
        keep_piece(acc, cur)
    } else if b[i] == 47u8 {
        pieces_from(b, i + 1, Seq::empty(), keep_piece(acc, cur))
    } else {
        pieces_from(b, i + 1, cur.push(b[i]), acc)
    }
}

/// A path that starts at the root.
pub open spec fn rooted(b: Seq<u8>) -> bool {
    b.len() > 0 && b[0] == 47u8
}

/// A relative path whose first piece is `.`.
pub open spec fn leading_cur_dir(b: Seq<u8>) -> bool {
    !rooted(b) && b.len() > 0 && b[0] == 46u8 && (b.len() == 1 || b[1] == 47u8)
}

/// The components of a path's bytes: the root as `/` or a leading `.`,
/// then each piece between separators that is neither empty nor `.`.
pub open spec fn path_components(b: Seq<u8>) -> Seq<Seq<u8>> {
    if rooted(b) {
        pieces_from(b, 1, Seq::empty(), seq![seq![47u8]])
    } else if leading_cur_dir(b) {
        pieces_from(b, 1, Seq::empty(), seq![seq![46u8]])
    } else {
        pieces_from(b, 0, Seq::empty(), Seq::empty())
    }
}

/// Two path texts name the same path component by component.
pub open spec fn same_path(a: Seq<char>, b: Seq<char>) -> bool {
    path_components(text_bytes(a)) == path_components(text_bytes(b))
}

/// The bytes of each piece.
pub open spec fn piece_bytes(v: Seq<Vec<u8>>) -> Seq<Seq<u8>> {
    Seq::new(v.len(), |k: int| v[k]@)
}

fn components_of(b: &[u8]) -> (r: Vec<Vec<u8>>)
    ensures
        piece_bytes(r@) == path_components(b@),
{
    let mut acc: Vec<Vec<u8>> = Vec::new();
    let mut i: usize = 0;
    if b.len() > 0 && b[0] == 47 {
        let mut root: Vec<u8> = Vec::new();
        root.push(47u8);
        assert(root@ =~= seq![47u8]);
        acc.push(root);
        i = 1;
    } else if b.len() > 0 && b[0] == 46 && (b.len() == 1 || b[1] == 47) {
        let mut dot: Vec<u8> = Vec::new();
        dot.push(46u8);
        assert(dot@ =~= seq![46u8]);
        acc.push(dot);
        i = 1;
    }
    let mut cur: Vec<u8> = Vec::new();
    proof {
        if rooted(b@) {
            assert(piece_bytes(acc@) =~= seq![seq![47u8]]);
        } else if leading_cur_dir(b@) {
            assert(piece_bytes(acc@) =~= seq![seq![46u8]]);
        } else {
            assert(piece_bytes(acc@) =~= Seq::<Seq<u8>>::empty());
        }
        assert(cur@ =~= Seq::<u8>::empty());
    }
    while i < b.len()
        invariant
            i <= b@.len(),
            pieces_from(b@, i as int, cur@, piece_bytes(acc@)) == path_components(b@),
        decreases b@.len() - i,
    {
        if b[i] == 47 {
            let ghost before = piece_bytes(acc@);
            if !(cur.len() == 0 || (cur.len() == 1 && cur[0] == 46)) {
                acc.push(cur);
                proof {
                    assert(!idle_piece(cur@)) by {
                        if cur@ == seq![46u8] {
                            assert(cur@[0] == 46u8);
                        }
                    }
                    assert(piece_bytes(acc@) =~= before.push(cur@));
                }
            } else {
                proof {
                    if cur@.len() == 1 {
                        assert(cur@ =~= seq![46u8]);
                    }
                }
            }
            cur = Vec::new();
            proof {
                assert(cur@ =~= Seq::<u8>::empty());
            }
        } else {
            cur.push(b[i]);
        }
        i += 1;
    }
    let ghost before = piece_bytes(acc@);
    if !(cur.len() == 0 || (cur.len() == 1 && cur[0] == 46)) {
        acc.push(cur);
        proof {
            assert(!idle_piece(cur@)) by {
                if cur@ == seq![46u8] {
                    assert(cur@[0] == 46u8);
                }
            }
            assert(piece_bytes(acc@) =~= before.push(cur@));
        }
    } else {
        proof {
            if cur@.len() == 1 {
                assert(cur@ =~= seq![46u8]);
            }
        }
    }
    acc
}

/// Whether two path texts name the same path, component by component.
pub fn paths_equal(a: &str, b: &str) -> (r: bool)
    ensures
        r == same_path(a@, b@),
{
    let ca = components_of(a.as_bytes());
    let cb = components_of(b.as_bytes());
    if ca.len() != cb.len() {
        proof {
            assert(piece_bytes(ca@).len() != piece_bytes(cb@).len());
        }
        return false;
    }
    let mut i: usize = 0;
    while i < ca.len()
        invariant
            i <= ca@.len(),
            ca@.len() == cb@.len(),
            piece_bytes(ca@) == path_components(text_bytes(a@)),
            piece_bytes(cb@) == path_components(text_bytes(b@)),
            forall|j: int| 0 <= j < i ==> piece_bytes(ca@)[j] == piece_bytes(cb@)[j],
        decreases ca@.len() - i,
    {
        if !bytes_eq(ca[i].as_slice(), cb[i].as_slice()) {
            proof {
                assert(piece_bytes(ca@)[i as int] != piece_bytes(cb@)[i as int]);
                assert(piece_bytes(ca@) != piece_bytes(cb@));
            }
            return false;
        }
        i += 1;
    }
    proof {
        assert(piece_bytes(ca@) =~= piece_bytes(cb@));
    }
    true
}

} // verus!
