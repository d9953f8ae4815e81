//! Endpoint paths and mount paths: what they are made of, what they never
//! hold, and on which router each is declared.

use crate::compile::{declared_path, SubRouterView};
use crate::naming::{endpoint, joined_real, mount_path};
use crate::text::{lemma_split_nonempty, split};
use crate::tree::is_virtual_group;
use vstd::prelude::*;

verus! {

/// Whether a text holds no slash.
pub open spec fn is_segment(s: Seq<char>) -> bool {
    forall|i: int| 0 <= i < s.len() ==> s[i] != '/'
}

/// Whether every text of `segs` is a segment.
pub open spec fn are_segments(segs: Seq<Seq<char>>) -> bool {
    forall|i: int| 0 <= i < segs.len() ==> is_segment(#[trigger] segs[i])
}

/// Whether none of the names `segs` is a virtual group.
pub open spec fn are_real(segs: Seq<Seq<char>>) -> bool {
    forall|i: int| 0 <= i < segs.len() ==> !is_virtual_group(#[trigger] segs[i])
}

/// The segments `segs`, each behind a slash.
pub open spec fn slash_joined(segs: Seq<Seq<char>>) -> Seq<char>
    decreases segs.len(),
{
    if segs.len() == 0 {
        Seq::empty()
    } else {
        slash_joined(segs.drop_last()) + seq!['/'] + segs.last()
    }
}

/// Splitting a text that ends in a slash leaves an empty last piece.
pub proof fn lemma_split_slash(t: Seq<char>)
    ensures
        split(t.push('/'), '/') == split(t, '/').push(Seq::<char>::empty()),
{
    assert(t.push('/').drop_last() == t);
}

/// Text without a slash, put behind another text, lengthens the last piece
/// of that text.
pub proof fn lemma_split_segment(t: Seq<char>, x: Seq<char>)
    requires
        is_segment(x),
    ensures
        split(t + x, '/') == split(t, '/').drop_last().push(split(t, '/').last() + x),
    decreases x.len(),
{
    lemma_split_nonempty(t, '/');
    let pieces = split(t, '/');
    if x.len() == 0 {
        assert(t + x == t);
        assert(pieces.last() + x == pieces.last());
        assert(pieces.drop_last().push(pieces.last()) == pieces);
    } else {
        let init = x.drop_last();
        lemma_split_segment(t, init);
        assert((t + x).drop_last() == t + init);
        assert((t + x).last() == x.last());
        assert((pieces.last() + init).push(x.last()) == pieces.last() + x);
        let before = pieces.drop_last().push(pieces.last() + init);
        assert(before.drop_last() == pieces.drop_last());
    }
}

/// One more segment behind a slash is one more piece.
pub proof fn lemma_split_next(t: Seq<char>, x: Seq<char>)
    requires
        is_segment(x),
    ensures
        split(t + seq!['/'] + x, '/') == split(t, '/').push(x),
{
    lemma_split_slash(t);
    assert(t + seq!['/'] == t.push('/'));
    lemma_split_segment(t.push('/'), x);
    let pieces = split(t, '/').push(Seq::<char>::empty());
    assert(pieces.drop_last() == split(t, '/'));
    assert(pieces.last() + x == x);
}

/// The pieces of segments that stand each behind a slash are an empty
/// piece and then the segments.
pub proof fn lemma_split_slash_joined(segs: Seq<Seq<char>>)
    requires
        are_segments(segs),
    ensures
        split(slash_joined(segs), '/') == seq![Seq::<char>::empty()] + segs,
    decreases segs.len(),
{
    if segs.len() == 0 {
        assert(seq![Seq::<char>::empty()] + segs == seq![Seq::<char>::empty()]);
    } else {
        let init = segs.drop_last();
        assert(are_segments(init)) by {
            assert forall|i: int| 0 <= i < init.len() implies is_segment(#[trigger] init[i]) by {
                assert(init[i] == segs[i]);
            }
        }
        lemma_split_slash_joined(init);
        lemma_split_next(slash_joined(init), segs.last());
        assert((seq![Seq::<char>::empty()] + init).push(segs.last()) == seq![
            Seq::<char>::empty(),
        ] + segs);
    }
}

/// No piece of a split holds the separator.
pub proof fn lemma_split_pieces_are_segments(s: Seq<char>)
    ensures
        are_segments(split(s, '/')),
    decreases s.len(),
{
    if s.len() > 0 {
        lemma_split_pieces_are_segments(s.drop_last());
        lemma_split_nonempty(s.drop_last(), '/');
        let init = split(s.drop_last(), '/');
        assert forall|i: int| 0 <= i < split(s, '/').len() implies is_segment(
            #[trigger] split(s, '/')[i],
        ) by {
            if s.last() == '/' {
                if i < init.len() {
                    assert(split(s, '/')[i] == init[i]);
                }
            } else {
                if i < init.len() - 1 {
                    assert(split(s, '/')[i] == init[i]);
                } else {
                    assert(is_segment(init[init.len() - 1]));
                }
            }
        }
    }
}

/// Where no name is a virtual group, the real segments are all of them.
pub proof fn lemma_joined_real_of_real(segs: Seq<Seq<char>>)
    requires
        are_real(segs),
    ensures
        joined_real(segs) == slash_joined(segs),
    decreases segs.len(),
{
    if segs.len() > 0 {
        let init = segs.drop_last();
        assert(are_real(init)) by {
            assert forall|i: int| 0 <= i < init.len() implies !is_virtual_group(
                #[trigger] init[i],
            ) by {
                assert(init[i] == segs[i]);
            }
        }
        lemma_joined_real_of_real(init);
        assert(!is_virtual_group(segs[segs.len() - 1]));
    }
}

/// The path, from the source root, of the file `file` in the directory
/// that lies below the routing root `root` by the directories `dirs`.
pub open spec fn path_below(root: Seq<char>, dirs: Seq<Seq<char>>, file: Seq<char>) -> Seq<char> {
    root + slash_joined(dirs) + seq!['/'] + file
}

/// The endpoint path of a route file is made of the directories between
/// the routing root and the file, each behind a slash, without the virtual
/// groups among them, and of a closing slash.
pub proof fn law_endpoint_of_directories(root: Seq<char>, dirs: Seq<Seq<char>>, file: Seq<char>)
    requires
        are_segments(dirs),
        is_segment(file),
    ensures
        endpoint(path_below(root, dirs, file), root) == Some(joined_real(dirs).push('/')),
{
    let path = path_below(root, dirs, file);
    let rest = slash_joined(dirs) + seq!['/'] + file;
    lemma_split_slash_joined(dirs);
    lemma_split_next(slash_joined(dirs), file);
    // The first piece of `rest` is empty: `rest` begins with a slash.
    let pieces = split(rest, '/');
    assert(pieces == (seq![Seq::<char>::empty()] + dirs).push(file));
    assert(rest.len() > 0 && rest[0] == '/') by {
        lemma_first_is_slash(dirs, file);
    }
    assert(root.push('/').is_prefix_of(path)) by {
        assert(path == root + rest);
        assert(path.subrange(0, root.len() as int + 1) =~= root.push('/'));
    }
    assert(path.skip(root.len() as int + 1) == rest.skip(1)) by {
        assert(path == root + rest);
        assert(path.skip(root.len() as int + 1) =~= rest.skip(1));
    }
    lemma_split_after_slash(rest);
    assert(split(rest.skip(1), '/') == pieces.skip(1));
    assert(pieces.skip(1) == dirs.push(file));
    assert(dirs.push(file).drop_last() == dirs);
}

/// Segments behind slashes, and a slash behind them, begin with a slash.
proof fn lemma_first_is_slash(dirs: Seq<Seq<char>>, file: Seq<char>)
    ensures
        (slash_joined(dirs) + seq!['/'] + file).len() > 0,
        (slash_joined(dirs) + seq!['/'] + file)[0] == '/',
    decreases dirs.len(),
{
    if dirs.len() > 0 {
        lemma_first_is_slash(dirs.drop_last(), dirs.last());
    }
}

/// The pieces of a text behind a slash are the pieces of the whole text
/// but the first, which is empty.
pub proof fn lemma_split_after_slash(s: Seq<char>)
    requires
        s.len() > 0,
        s[0] == '/',
    ensures
        split(s, '/').len() >= 2,
        split(s, '/')[0] == Seq::<char>::empty(),
        split(s.skip(1), '/') == split(s, '/').skip(1),
    decreases s.len(),
{
    if s.len() == 1 {
        assert(s.drop_last() == Seq::<char>::empty());
        assert(s.skip(1) == Seq::<char>::empty());
        assert(split(s, '/') == seq![Seq::<char>::empty(), Seq::<char>::empty()]);
        assert(split(s, '/').skip(1) == seq![Seq::<char>::empty()]);
    } else {
        let init = s.drop_last();
        lemma_split_after_slash(init);
        assert(s.skip(1).drop_last() == init.skip(1));
        assert(s.skip(1).last() == s.last());
        let a = split(init, '/');
        let b = split(init.skip(1), '/');
        if s.last() == '/' {
            assert(a.push(Seq::<char>::empty()).skip(1) == a.skip(1).push(Seq::<char>::empty()));
        } else {
            assert(a.drop_last().push(a.last().push(s.last())).skip(1) == a.skip(
                1,
            ).drop_last().push(a.skip(1).last().push(s.last())));
        }
    }
}

/// For a directory directly below the routing root that is no virtual
/// group, the endpoint path of its route file is a slash, the name of the
/// directory, and the closing slash of the file. Deeper directories follow
/// one another, each behind a slash.
pub proof fn law_endpoint_of_real_directories(
    root: Seq<char>,
    dirs: Seq<Seq<char>>,
    file: Seq<char>,
)
    requires
        are_segments(dirs),
        are_real(dirs),
        is_segment(file),
    ensures
        endpoint(path_below(root, dirs, file), root) == Some(slash_joined(dirs).push('/')),
        dirs.len() == 1 ==> endpoint(path_below(root, dirs, file), root) == Some(
            (seq!['/'] + dirs[0]).push('/'),
        ),
{
    law_endpoint_of_directories(root, dirs, file);
    lemma_joined_real_of_real(dirs);
    if dirs.len() == 1 {
        assert(dirs.drop_last().len() == 0);
        assert(slash_joined(dirs) == seq!['/'] + dirs[0]) by {
            assert(slash_joined(dirs.drop_last()) == Seq::<char>::empty());
            assert(Seq::<char>::empty() + seq!['/'] + dirs[0] =~= seq!['/'] + dirs[0]);
        }
    }
}

/// The names among `segs` that are no virtual group, in their order.
pub open spec fn real_among(segs: Seq<Seq<char>>) -> Seq<Seq<char>>
    decreases segs.len(),
{
    if segs.len() == 0 {
        Seq::empty()
    } else if is_virtual_group(segs.last()) {
        real_among(segs.drop_last())
    } else {
        real_among(segs.drop_last()).push(segs.last())
    }
}

/// The real segments, each behind a slash, are the segments that are no
/// virtual group, each behind a slash.
pub proof fn lemma_joined_real(segs: Seq<Seq<char>>)
    requires
        are_segments(segs),
    ensures
        joined_real(segs) == slash_joined(real_among(segs)),
        are_segments(real_among(segs)),
        are_real(real_among(segs)),
    decreases segs.len(),
{
    if segs.len() > 0 {
        let init = segs.drop_last();
        assert(are_segments(init)) by {
            assert forall|i: int| 0 <= i < init.len() implies is_segment(#[trigger] init[i]) by {
                assert(init[i] == segs[i]);
            }
        }
        lemma_joined_real(init);
        assert(is_segment(segs[segs.len() - 1]));
        if !is_virtual_group(segs.last()) {
            assert(real_among(segs).drop_last() == real_among(init));
        }
    }
}

/// A virtual group never shows in an endpoint path: none of the pieces
/// between the slashes of an endpoint path is a virtual group, however deep
/// the route file lies.
pub proof fn law_no_virtual_group_in_endpoint(path: Seq<char>, root: Seq<char>)
    requires
        endpoint(path, root) is Some,
    ensures
        are_real(split(endpoint(path, root)->0, '/')),
{
    let rest = path.skip(root.len() as int + 1);
    let segs = split(rest, '/');
    lemma_split_nonempty(rest, '/');
    lemma_split_pieces_are_segments(rest);
    let dirs = segs.drop_last();
    assert(are_segments(dirs)) by {
        assert forall|i: int| 0 <= i < dirs.len() implies is_segment(#[trigger] dirs[i]) by {
            assert(dirs[i] == segs[i]);
        }
    }
    lemma_joined_real(dirs);
    lemma_split_slash_joined(real_among(dirs));
    lemma_split_slash(joined_real(dirs));
    let pieces = split(endpoint(path, root)->0, '/');
    assert(pieces == (seq![Seq::<char>::empty()] + real_among(dirs)).push(Seq::<char>::empty()));
    assert forall|i: int| 0 <= i < pieces.len() implies !is_virtual_group(#[trigger] pieces[i]) by {
        if 0 < i < pieces.len() - 1 {
            assert(pieces[i] == real_among(dirs)[i - 1]);
        }
    }
}

/// Segments behind slashes, one run after another, are the runs one after
/// another.
pub proof fn lemma_slash_joined_add(a: Seq<Seq<char>>, b: Seq<Seq<char>>)
    ensures
        slash_joined(a + b) == slash_joined(a) + slash_joined(b),
    decreases b.len(),
{
    if b.len() == 0 {
        assert(a + b == a);
        assert(slash_joined(a) + slash_joined(b) == slash_joined(a));
    } else {
        lemma_slash_joined_add(a, b.drop_last());
        assert((a + b).drop_last() == a + b.drop_last());
        assert((a + b).last() == b.last());
        assert(slash_joined(a) + slash_joined(b.drop_last()) + seq!['/'] + b.last() == slash_joined(
            a,
        ) + (slash_joined(b.drop_last()) + seq!['/'] + b.last()));
    }
}

/// The sub-router of the node that lies below the routing root by the
/// directories `dirs` is mounted, as seen from the application, at those
/// directories, each behind a slash.
pub proof fn lemma_mount_path_of_directories(root: Seq<char>, dirs: Seq<Seq<char>>)
    ensures
        mount_path(root + slash_joined(dirs), root) == slash_joined(dirs),
{
    let rel = root + slash_joined(dirs);
    if dirs.len() == 0 {
        assert(rel == root);
    } else {
        lemma_first_is_slash(dirs.drop_last(), dirs.last());
        let joined = slash_joined(dirs);
        assert(joined == slash_joined(dirs.drop_last()) + seq!['/'] + dirs.last());
        assert(joined.len() > 0 && joined[0] == '/');
        assert(rel.len() != root.len());
        assert(rel.subrange(0, root.len() as int + 1) =~= root.push('/'));
        assert(rel.skip(root.len() as int) =~= joined);
    }
}

/// Every path is declared on the nearest enclosing router, without the
/// path at which that router is mounted.
///
/// Let a node with middleware lie below the routing root by the directories
/// `outer`, and a node below that one by the directories `inner`. The
/// sub-router of the second node is mounted on that of the first at `inner`
/// alone, each directory behind a slash. Where none of the directories is a
/// virtual group, a route file of the second node is registered on the
/// sub-router of the first at `inner` and a closing slash. `outer` shows in
/// neither.
pub proof fn law_paths_are_declared_on_the_nearest_router(
    root: Seq<char>,
    outer: Seq<Seq<char>>,
    inner: Seq<Seq<char>>,
    file: Seq<char>,
    router: SubRouterView,
)
    requires
        router.path == mount_path(root + slash_joined(outer), root),
    ensures
        declared_path(mount_path(root + slash_joined(outer + inner), root), Some(router))
            == slash_joined(inner),
        are_segments(outer + inner) && are_real(outer + inner) && is_segment(file)
            ==> endpoint(path_below(root, outer + inner, file), root) is Some && declared_path(
            endpoint(path_below(root, outer + inner, file), root)->0,
            Some(router),
        ) == slash_joined(inner).push('/'),
{
    lemma_mount_path_of_directories(root, outer);
    lemma_mount_path_of_directories(root, outer + inner);
    lemma_slash_joined_add(outer, inner);
    let a = slash_joined(outer);
    let b = slash_joined(inner);
    assert(a.is_prefix_of(a + b)) by {
        assert((a + b).subrange(0, a.len() as int) =~= a);
    }
    assert((a + b).skip(a.len() as int) =~= b);
    if are_segments(outer + inner) && are_real(outer + inner) && is_segment(file) {
        law_endpoint_of_real_directories(root, outer + inner, file);
        let ep = (a + b).push('/');
        assert(a.is_prefix_of(ep)) by {
            assert(ep.subrange(0, a.len() as int) =~= a);
        }
        assert(ep.skip(a.len() as int) =~= b.push('/'));
    }
}

/// The pieces of two texts with a slash between them are the pieces of the
/// first and then the pieces of the second.
pub proof fn lemma_split_at_slash(a: Seq<char>, b: Seq<char>)
    ensures
        split(a.push('/') + b, '/') == split(a, '/') + split(b, '/'),
    decreases b.len(),
{
    let whole = a.push('/') + b;
    if b.len() == 0 {
        assert(whole == a.push('/'));
        lemma_split_slash(a);
        assert(split(a, '/').push(Seq::<char>::empty()) == split(a, '/') + split(b, '/'));
    } else {
        let init = b.drop_last();
        lemma_split_at_slash(a, init);
        lemma_split_nonempty(init, '/');
        assert(whole.drop_last() == a.push('/') + init);
        assert(whole.last() == b.last());
        let x = split(a, '/');
        let y = split(init, '/');
        if b.last() == '/' {
            assert((x + y).push(Seq::<char>::empty()) == x + y.push(Seq::<char>::empty()));
        } else {
            assert((x + y).drop_last().push((x + y).last().push(b.last())) == x
                + y.drop_last().push(y.last().push(b.last())));
        }
    }
}

/// A virtual group never shows in the path at which a route is registered
/// on a sub-router either: where the path at which the sub-router is
/// mounted ends with a segment of the endpoint path, the pieces of what is
/// left of the endpoint path are pieces of the endpoint path, and none of
/// them is a virtual group.
pub proof fn law_no_virtual_group_in_declared_path(
    path: Seq<char>,
    root: Seq<char>,
    router: SubRouterView,
)
    requires
        endpoint(path, root) is Some,
        ({
            let declared = declared_path(endpoint(path, root)->0, Some(router));
            declared == endpoint(path, root)->0 || declared.len() == 0 || declared[0] == '/'
        }),
    ensures
        are_real(split(declared_path(endpoint(path, root)->0, Some(router)), '/')),
{
    let ep = endpoint(path, root)->0;
    let declared = declared_path(ep, Some(router));
    law_no_virtual_group_in_endpoint(path, root);
    if declared != ep {
        if declared.len() == 0 {
            assert(split(declared, '/') == seq![Seq::<char>::empty()]);
        } else {
            let a = router.path;
            let b = declared.skip(1);
            assert(ep == a + declared) by {
                assert(ep =~= ep.subrange(0, a.len() as int) + ep.skip(a.len() as int));
            }
            assert(ep == a.push('/') + b) by {
                assert(declared =~= seq!['/'] + b);
                assert(a + (seq!['/'] + b) =~= a.push('/') + b);
            }
            lemma_split_at_slash(a, b);
            lemma_split_after_slash(declared);
            lemma_split_nonempty(a, '/');
            let x = split(a, '/');
            let pieces = split(declared, '/');
            assert forall|i: int| 0 <= i < pieces.len() implies !is_virtual_group(
                #[trigger] pieces[i],
            ) by {
                if i > 0 {
                    assert(pieces[i] == pieces.skip(1)[i - 1]);
                    assert(pieces[i] == split(ep, '/')[x.len() + i - 1]);
                }
            }
        }
    }
}

} // verus!
