//! The path resolver: confines an untrusted relative filename to a shared
//! directory root.
//!
//! The filename is parsed into `/`-separated components.  Plain components
//! are appended to the root, current-directory components (`.`, and the
//! empty components a doubled or trailing separator leaves) are silently
//! skipped, and a parent-directory component (`..`) or a leading separator
//! (a root component) is rejected outright as `InvalidPath`.  Paths here
//! are byte strings with `/` as the separator, so a drive-prefix component
//! cannot arise; everything that is not a separator is an ordinary name
//! byte.  Resolution is
//! purely lexical: this module performs no filesystem access at all, so a
//! rejected name is rejected before any filesystem call could happen.

use vstd::prelude::*;

verus! {

use crate::codec::append_bytes;
use crate::error::{Error, ErrorKind};

/// The path separator byte, `/`.
pub const SEPARATOR: u8 = 47;

/// Holds when no byte of the part is the path separator.
pub open spec fn sep_free(part: Seq<u8>) -> bool {
    forall|i: int| 0 <= i < part.len() ==> #[trigger] part[i] != 47
}

/// The index of the first separator byte, or the length when there is none.
pub open spec fn first_sep(s: Seq<u8>) -> nat
    decreases s.len(),
{
    if s.len() == 0 {
        0
    } else if s[0] == 47 {
        0
    } else {
        1 + first_sep(s.drop_first())
    }
}

/// Splits a byte sequence on separator bytes.  A trailing separator adds
/// no piece; a doubled separator or a leading separator adds an empty one.
pub open spec fn split_sep(s: Seq<u8>) -> Seq<Seq<u8>>
    decreases s.len(),
{
    if s.len() == 0 {
        Seq::empty()
    } else {
        let i = first_sep(s) as int;
        if i >= s.len() {
            seq![s]
        } else {
            seq![s.take(i)] + split_sep(s.skip(i + 1))
        }
    }
}

/// A component the resolver accepts: anything but a parent directory.
pub open spec fn component_allowed(part: Seq<u8>) -> bool {
    part != seq![46u8, 46u8]
}

/// A component that names one plain path entry: non-empty, not the
/// current directory and not a parent directory.
pub open spec fn normal_component(part: Seq<u8>) -> bool {
    &&& part.len() > 0
    &&& part != seq![46u8]
    &&& part != seq![46u8, 46u8]
}

/// A filename the resolver accepts: no root component (leading separator)
/// and no parent-directory component anywhere.
pub open spec fn fetch_name_ok(name: Seq<u8>) -> bool {
    &&& name.len() > 0 ==> name[0] != 47
    &&& forall|i: int| 0 <= i < split_sep(name).len() ==> component_allowed(
        #[trigger] split_sep(name)[i],
    )
}

/// The accepted components joined onto a path: each component that is
/// neither empty nor the current directory contributes a separator and its
/// bytes, in order.
pub open spec fn spec_joined_components(parts: Seq<Seq<u8>>) -> Seq<u8>
    decreases parts.len(),
{
    if parts.len() == 0 {
        Seq::empty()
    } else if parts[0].len() == 0 || parts[0] == seq![46u8] {
        spec_joined_components(parts.drop_first())
    } else {
        seq![47u8] + parts[0] + spec_joined_components(parts.drop_first())
    }
}

/// What a filename resolves to under a root: the root with every accepted
/// component appended.
pub open spec fn spec_resolved(root: Seq<u8>, name: Seq<u8>) -> Seq<u8> {
    root + spec_joined_components(split_sep(name))
}

/// A path that stays lexically inside a root: it is the root itself, or
/// the root, a separator, and components that are all plain entries, so
/// that no step of it climbs back out.
pub open spec fn descendant_of(p: Seq<u8>, root: Seq<u8>) -> bool {
    ||| p == root
    ||| {
        &&& p.len() > root.len()
        &&& p.take(root.len() as int) == root
        &&& p[root.len() as int] == 47
        &&& forall|i: int|
            0 <= i < split_sep(p.skip(root.len() + 1 as int)).len() ==> normal_component(
                #[trigger] split_sep(p.skip(root.len() + 1 as int))[i],
            )
    }
}

// --- facts about splitting ---

/// The first separator lies within the sequence.
proof fn lemma_first_sep_range(s: Seq<u8>)
    ensures
        0 <= first_sep(s) <= s.len(),
        forall|j: int| 0 <= j < first_sep(s) ==> #[trigger] s[j] != 47,
    decreases s.len(),
{
    if s.len() > 0 && s[0] != 47 {
        lemma_first_sep_range(s.drop_first());
        assert forall|j: int| 0 <= j < first_sep(s) implies #[trigger] s[j] != 47 by {
            if j > 0 {
                assert(s.drop_first()[j - 1] != 47);
            }
        }
    }
}

/// Prepending separator-free bytes moves the first separator past them.
proof fn lemma_first_sep_concat(a: Seq<u8>, b: Seq<u8>)
    requires
        sep_free(a),
    ensures
        first_sep(a + b) == a.len() + first_sep(b),
    decreases a.len(),
{
    if a.len() == 0 {
        assert(a + b =~= b);
    } else {
        assert((a + b)[0] == a[0]);
        assert((a + b).drop_first() =~= a.drop_first() + b);
        lemma_first_sep_concat(a.drop_first(), b);
    }
}

/// A separator-free, non-empty sequence splits into itself alone.
proof fn lemma_split_sep_single(a: Seq<u8>)
    requires
        sep_free(a),
        a.len() > 0,
    ensures
        split_sep(a) == seq![a],
{
    assert(a + Seq::<u8>::empty() =~= a);
    lemma_first_sep_concat(a, Seq::<u8>::empty());
    assert(first_sep(a) == a.len());
}

/// Splitting a separator-free piece, a separator, and a remainder yields
/// the piece followed by the split of the remainder.
proof fn lemma_split_sep_concat(a: Seq<u8>, b: Seq<u8>)
    requires
        sep_free(a),
    ensures
        split_sep(a + seq![47u8] + b) == seq![a] + split_sep(b),
{
    let s = a + seq![47u8] + b;
    assert(s =~= a + (seq![47u8] + b));
    lemma_first_sep_concat(a, seq![47u8] + b);
    assert(first_sep(seq![47u8] + b) == 0);
    assert(first_sep(s) == a.len());
    assert(s.len() == a.len() + 1 + b.len());
    assert(s.take(a.len() as int) =~= a);
    assert(s.skip(a.len() + 1 as int) =~= b);
    assert(split_sep(s) =~~= seq![a] + split_sep(b));
}

/// Every piece a split yields is separator-free.
proof fn lemma_split_sep_pieces_sep_free(s: Seq<u8>)
    ensures
        forall|i: int| 0 <= i < split_sep(s).len() ==> sep_free(#[trigger] split_sep(s)[i]),
    decreases s.len(),
{
    if s.len() > 0 {
        lemma_first_sep_range(s);
        let i = first_sep(s) as int;
        if i >= s.len() {
            assert(sep_free(s));
        } else {
            assert(sep_free(s.take(i)));
            lemma_split_sep_pieces_sep_free(s.skip(i + 1));
            assert forall|k: int|
                0 <= k < split_sep(s).len() implies sep_free(#[trigger] split_sep(s)[k]) by {
                if k == 0 {
                    assert(split_sep(s)[0] == s.take(i));
                } else {
                    assert(split_sep(s)[k] == split_sep(s.skip(i + 1))[k - 1]);
                }
            }
        }
    }
}

/// Appending one more part joins its contribution at the end.
proof fn lemma_joined_components_snoc(parts: Seq<Seq<u8>>, x: Seq<u8>)
    ensures
        spec_joined_components(parts.push(x)) == spec_joined_components(parts) + (if x.len() == 0
            || x == seq![46u8] {
            Seq::<u8>::empty()
        } else {
            seq![47u8] + x
        }),
    decreases parts.len(),
{
    let tail = if x.len() == 0 || x == seq![46u8] {
        Seq::<u8>::empty()
    } else {
        seq![47u8] + x
    };
    if parts.len() == 0 {
        let e = Seq::<Seq<u8>>::empty();
        assert(parts.push(x).drop_first() =~~= e);
        assert(parts =~~= e);
        assert(spec_joined_components(e) =~= Seq::<u8>::empty());
        assert(spec_joined_components(parts.push(x)) =~= spec_joined_components(parts) + tail);
    } else {
        assert(parts.push(x).drop_first() =~~= parts.drop_first().push(x));
        lemma_joined_components_snoc(parts.drop_first(), x);
        assert(spec_joined_components(parts.push(x)) =~= spec_joined_components(parts) + tail);
    }
}

/// The joined form of allowed, separator-free components is empty or a
/// separator followed by plain entries only.
proof fn lemma_joined_components_shape(parts: Seq<Seq<u8>>)
    requires
        forall|i: int| 0 <= i < parts.len() ==> sep_free(#[trigger] parts[i]),
        forall|i: int| 0 <= i < parts.len() ==> component_allowed(#[trigger] parts[i]),
    ensures
        ({
            let j = spec_joined_components(parts);
            j.len() == 0 || (j[0] == 47 && forall|i: int|
                0 <= i < split_sep(j.skip(1)).len() ==> normal_component(
                    #[trigger] split_sep(j.skip(1))[i],
                ))
        }),
    decreases parts.len(),
{
    if parts.len() == 0 {
    } else {
        let head = parts[0];
        let rest = parts.drop_first();
        lemma_joined_components_shape(rest);
        let jr = spec_joined_components(rest);
        if head.len() == 0 || head == seq![46u8] {
        } else {
            let j = spec_joined_components(parts);
            assert(j == seq![47u8] + head + jr);
            assert(j[0] == 47);
            assert(j.skip(1) =~= head + jr);
            if jr.len() == 0 {
                assert(j.skip(1) =~= head);
                lemma_split_sep_single(head);
                assert(normal_component(head));
            } else {
                assert(jr[0] == 47);
                let t = jr.skip(1);
                assert(head + jr =~= head + seq![47u8] + t);
                lemma_split_sep_concat(head, t);
                assert(split_sep(j.skip(1)) == seq![head] + split_sep(t));
                assert(normal_component(head));
                assert(forall|i: int|
                    0 <= i < split_sep(t).len() ==> normal_component(#[trigger] split_sep(t)[i]));
                assert forall|i: int|
                    0 <= i < split_sep(j.skip(1)).len() implies normal_component(
                    #[trigger] split_sep(j.skip(1))[i],
                ) by {
                    if i > 0 {
                        assert(split_sep(j.skip(1))[i] == split_sep(t)[i - 1]);
                    }
                }
            }
        }
    }
}

/// For all filenames the resolver accepts, the resolved path is a
/// lexical descendant of the root: path traversal cannot escape it.
pub proof fn lemma_resolved_confined(root: Seq<u8>, name: Seq<u8>)
    requires
        fetch_name_ok(name),
    ensures
        descendant_of(spec_resolved(root, name), root),
{
    let parts = split_sep(name);
    lemma_split_sep_pieces_sep_free(name);
    lemma_joined_components_shape(parts);
    let j = spec_joined_components(parts);
    let p = spec_resolved(root, name);
    if j.len() == 0 {
        assert(p =~= root);
    } else {
        assert(p.take(root.len() as int) =~= root);
        assert(p[root.len() as int] == j[0]);
        assert(p.skip(root.len() + 1 as int) =~= j.skip(1));
    }
}

/// Resolves an untrusted filename against a shared-directory root.
///
/// Purely lexical: plain components are appended onto the root in order,
/// current-directory and empty components are skipped, and a name with a
/// root or parent-directory component is rejected as `InvalidPath` without
/// any filesystem access.
pub fn resolve_path(root: &Vec<u8>, name: &Vec<u8>) -> (r: Result<Vec<u8>, Error>)
    ensures
        r is Ok <==> fetch_name_ok(name@),
        r matches Ok(p) ==> p@ == spec_resolved(root@, name@),
        r matches Err(e) ==> e.kind == ErrorKind::InvalidPath,
{
    if name.len() > 0 && name[0] == SEPARATOR {
        return Err(
            Error::with_kind(ErrorKind::InvalidPath, "filename holds a root component"),
        );
    }
    let mut out: Vec<u8> = Vec::new();
    append_bytes(&mut out, root.as_slice());
    let mut comp: Vec<u8> = Vec::new();
    let ghost mut done: Seq<Seq<u8>> = Seq::empty();
    let mut i: usize = 0;
    proof {
        assert(comp@ + name@.skip(0) =~= name@);
        assert(done + split_sep(name@) =~~= split_sep(name@));
        assert(spec_joined_components(done) =~= Seq::<u8>::empty());
        assert(out@ =~= root@ + spec_joined_components(done));
    }
    while i < name.len()
        invariant
            0 <= i <= name@.len(),
            sep_free(comp@),
            split_sep(name@) == done + split_sep(comp@ + name@.skip(i as int)),
            forall|k: int| 0 <= k < done.len() ==> component_allowed(#[trigger] done[k]),
            out@ == root@ + spec_joined_components(done),
        decreases name@.len() - i,
    {
        let b = name[i];
        if b != SEPARATOR {
            let ghost prev = comp@;
            comp.push(b);
            proof {
                assert(comp@ + name@.skip(i + 1) =~= prev + name@.skip(i as int));
            }
            i = i + 1;
        } else {
            // a full component ends here
            proof {
                assert(comp@ + name@.skip(i as int) =~= comp@ + seq![47u8] + name@.skip(i + 1));
                lemma_split_sep_concat(comp@, name@.skip(i + 1));
            }
            if comp.len() == 2 && comp[0] == 46 && comp[1] == 46 {
                proof {
                    assert(comp@ =~= seq![46u8, 46u8]);
                    assert(split_sep(name@)[done.len() as int] == comp@);
                }
                return Err(
                    Error::with_kind(
                        ErrorKind::InvalidPath,
                        "filename holds a parent directory component",
                    ),
                );
            }
            let skip = comp.len() == 0 || (comp.len() == 1 && comp[0] == 46);
            proof {
                if comp@.len() == 1 && comp@[0] == 46 {
                    assert(comp@ =~= seq![46u8]);
                }
                lemma_joined_components_snoc(done, comp@);
                done = done.push(comp@);
                assert(split_sep(name@) =~~= done + split_sep(name@.skip(i + 1)));
            }
            if !skip {
                out.push(47);
                append_bytes(&mut out, comp.as_slice());
            }
            proof {
                assert(out@ =~= root@ + spec_joined_components(done));
            }
            comp.clear();
            i = i + 1;
            proof {
                assert(comp@ + name@.skip(i as int) =~= name@.skip(i as int));
            }
        }
    }
    // the final component, if the name did not end with a separator
    proof {
        assert(comp@ + name@.skip(i as int) =~= comp@);
    }
    if comp.len() == 2 && comp[0] == 46 && comp[1] == 46 {
        proof {
            assert(comp@ =~= seq![46u8, 46u8]);
            lemma_split_sep_single(comp@);
            assert(split_sep(name@)[done.len() as int] == comp@);
        }
        return Err(
            Error::with_kind(
                ErrorKind::InvalidPath,
                "filename holds a parent directory component",
            ),
        );
    }
    if comp.len() > 0 {
        proof {
            lemma_split_sep_single(comp@);
            if comp@.len() == 1 && comp@[0] == 46 {
                assert(comp@ =~= seq![46u8]);
            }
            lemma_joined_components_snoc(done, comp@);
            done = done.push(comp@);
        }
        let skip = comp.len() == 1 && comp[0] == 46;
        if !skip {
            out.push(47);
            append_bytes(&mut out, comp.as_slice());
        }
    }
    proof {
        assert(split_sep(name@) =~~= done);
        assert(fetch_name_ok(name@));
        assert(out@ =~= spec_resolved(root@, name@));
    }
    Ok(out)
}

} // verus!
