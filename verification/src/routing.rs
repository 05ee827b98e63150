//! The route table: a concurrent URI-to-path mapping, built by a
//! directory walk and grown on lookup miss.
//!
//! The filesystem itself stays outside the library: the walk's
//! findings arrive as a flat listing of entries relative to the
//! served root, and the existence probe for a lookup miss arrives as
//! a boolean.  Everything computed from them — URI construction,
//! percent-encoding, index-file preference, insertion — is verified.

use vstd::prelude::*;

use crate::pct::{pct_encode, percent_encode_bytes};
use crate::table::{
    key_in, lemma_lookup_upsert, lemma_upsert_idempotent, lemma_upsert_keys, lookup, lookup_pair,
    pairs_view, unique_keys, upsert, upsert_pair,
};
use crate::text::append_bytes;

verus! {

/// One finding of the directory walk: a path relative to the served
/// root, split into components, and whether it is a directory.
/// Symbolic links and other special files are never listed.
pub struct FsEntry {
    pub components: Vec<Vec<u8>>,
    pub is_dir: bool,
}

/// The listing as component sequences with their directory flags.
pub open spec fn entries_view(es: Seq<FsEntry>) -> Seq<(Seq<Seq<u8>>, bool)> {
    Seq::new(es.len(), |i: int| (es[i].components.deep_view(), es[i].is_dir))
}

/// A regular file with exactly these components stands in the listing.
pub open spec fn has_file(all: Seq<(Seq<Seq<u8>>, bool)>, comps: Seq<Seq<u8>>) -> bool {
    exists|i: int| 0 <= i < all.len() && (#[trigger] all[i]).0 == comps && !all[i].1
}

/// A name with every leading `./` removed.
pub open spec fn strip_dot_slash(s: Seq<u8>) -> Seq<u8>
    decreases s.len(),
{
    if s.len() >= 2 && s[0] == 46 && s[1] == 47 {
        strip_dot_slash(s.skip(2))
    } else {
        s
    }
}

/// `name/name/.../name/` for the stripped components, no leading
/// slash.
pub open spec fn prefix_tail(comps: Seq<Seq<u8>>) -> Seq<u8>
    decreases comps.len(),
{
    if comps.len() == 0 {
        seq![]
    } else {
        strip_dot_slash(comps[0]) + seq![47u8] + prefix_tail(comps.skip(1))
    }
}

/// The URI prefix of a directory: `/` then each component with a
/// trailing slash.
pub open spec fn dir_prefix(comps: Seq<Seq<u8>>) -> Seq<u8> {
    seq![47u8] + prefix_tail(comps)
}

/// The URI of a file: its directory's prefix, then its stripped name.
pub open spec fn file_uri(comps: Seq<Seq<u8>>) -> Seq<u8> {
    dir_prefix(comps.take(comps.len() - 1)) + strip_dot_slash(comps[comps.len() - 1])
}

/// `/name` for each component, appended to the root path.
pub open spec fn path_tail(comps: Seq<Seq<u8>>) -> Seq<u8>
    decreases comps.len(),
{
    if comps.len() == 0 {
        seq![]
    } else {
        seq![47u8] + comps[0] + path_tail(comps.skip(1))
    }
}

/// The filesystem path of an entry under `root`.
pub open spec fn path_of(root: Seq<u8>, comps: Seq<Seq<u8>>) -> Seq<u8> {
    root + path_tail(comps)
}

/// The bytes of `index.html`.
pub open spec fn index_html() -> Seq<u8> {
    seq![105u8, 110u8, 100u8, 101u8, 120u8, 46u8, 104u8, 116u8, 109u8, 108u8]
}

/// The bytes of `index.htm`.
pub open spec fn index_htm() -> Seq<u8> {
    seq![105u8, 110u8, 100u8, 101u8, 120u8, 46u8, 104u8, 116u8, 109u8]
}

/// The index mapping of one directory: its encoded prefix resolves to
/// the directory's `index.html`, else its `index.htm`, else nothing;
/// the first match wins.
pub open spec fn index_route(
    root: Seq<u8>,
    all: Seq<(Seq<Seq<u8>>, bool)>,
    comps: Seq<Seq<u8>>,
    acc: Seq<(Seq<u8>, Seq<u8>)>,
) -> Seq<(Seq<u8>, Seq<u8>)> {
    if has_file(all, comps.push(index_html())) {
        upsert(acc, pct_encode(dir_prefix(comps)), path_of(root, comps.push(index_html())))
    } else if has_file(all, comps.push(index_htm())) {
        upsert(acc, pct_encode(dir_prefix(comps)), path_of(root, comps.push(index_htm())))
    } else {
        acc
    }
}

/// One listing entry's contribution: a directory adds its index
/// mapping; a file adds its encoded URI resolving to its path.
pub open spec fn entry_route(
    root: Seq<u8>,
    all: Seq<(Seq<Seq<u8>>, bool)>,
    e: (Seq<Seq<u8>>, bool),
    acc: Seq<(Seq<u8>, Seq<u8>)>,
) -> Seq<(Seq<u8>, Seq<u8>)> {
    if e.1 {
        index_route(root, all, e.0, acc)
    } else if e.0.len() > 0 {
        upsert(acc, pct_encode(file_uri(e.0)), path_of(root, e.0))
    } else {
        acc
    }
}

pub open spec fn walk_fold(
    root: Seq<u8>,
    all: Seq<(Seq<Seq<u8>>, bool)>,
    rest: Seq<(Seq<Seq<u8>>, bool)>,
    acc: Seq<(Seq<u8>, Seq<u8>)>,
) -> Seq<(Seq<u8>, Seq<u8>)>
    decreases rest.len(),
{
    if rest.len() == 0 {
        acc
    } else {
        walk_fold(root, all, rest.skip(1), entry_route(root, all, rest[0], acc))
    }
}

/// Every route of the initial walk: the root directory's index
/// mapping, then each entry's contribution in listing order.
pub open spec fn walk_routes(root: Seq<u8>, all: Seq<(Seq<Seq<u8>>, bool)>) -> Seq<
    (Seq<u8>, Seq<u8>),
> {
    walk_fold(root, all, all, index_route(root, all, Seq::empty(), Seq::empty()))
}

pub proof fn lemma_prefix_tail_push(comps: Seq<Seq<u8>>, c: Seq<u8>)
    ensures
        prefix_tail(comps.push(c)) == prefix_tail(comps) + strip_dot_slash(c) + seq![47u8],
    decreases comps.len(),
{
    if comps.len() == 0 {
        assert(comps.push(c).skip(1) =~= Seq::<Seq<u8>>::empty());
        assert(comps.push(c)[0] == c);
        assert(prefix_tail(Seq::<Seq<u8>>::empty()) == Seq::<u8>::empty());
        assert(prefix_tail(comps.push(c)) == strip_dot_slash(c) + seq![47u8] + Seq::<u8>::empty());
        assert(prefix_tail(comps.push(c)) =~= prefix_tail(comps) + strip_dot_slash(c) + seq![
            47u8,
        ]);
    } else {
        assert(comps.push(c).skip(1) =~= comps.skip(1).push(c));
        lemma_prefix_tail_push(comps.skip(1), c);
        assert(comps.push(c)[0] == comps[0]);
        assert(prefix_tail(comps.push(c)) == strip_dot_slash(comps[0]) + seq![47u8] + prefix_tail(
            comps.skip(1).push(c),
        ));
        assert(strip_dot_slash(comps[0]) + seq![47u8] + (prefix_tail(comps.skip(1))
            + strip_dot_slash(c) + seq![47u8]) =~= (strip_dot_slash(comps[0]) + seq![47u8]
            + prefix_tail(comps.skip(1))) + strip_dot_slash(c) + seq![47u8]);
        assert(prefix_tail(comps.push(c)) =~= prefix_tail(comps) + strip_dot_slash(c) + seq![
            47u8,
        ]);
    }
}

pub proof fn lemma_path_tail_push(comps: Seq<Seq<u8>>, c: Seq<u8>)
    ensures
        path_tail(comps.push(c)) == path_tail(comps) + seq![47u8] + c,
    decreases comps.len(),
{
    if comps.len() == 0 {
        assert(comps.push(c).skip(1) =~= Seq::<Seq<u8>>::empty());
        assert(comps.push(c)[0] == c);
        assert(path_tail(Seq::<Seq<u8>>::empty()) == Seq::<u8>::empty());
        assert(path_tail(comps.push(c)) == seq![47u8] + c + Seq::<u8>::empty());
        assert(path_tail(comps.push(c)) =~= path_tail(comps) + seq![47u8] + c);
    } else {
        assert(comps.push(c).skip(1) =~= comps.skip(1).push(c));
        lemma_path_tail_push(comps.skip(1), c);
        assert(comps.push(c)[0] == comps[0]);
        assert(path_tail(comps.push(c)) == seq![47u8] + comps[0] + path_tail(
            comps.skip(1).push(c),
        ));
        assert(seq![47u8] + comps[0] + (path_tail(comps.skip(1)) + seq![47u8] + c) =~= (seq![47u8]
            + comps[0] + path_tail(comps.skip(1))) + seq![47u8] + c);
        assert(path_tail(comps.push(c)) =~= path_tail(comps) + seq![47u8] + c);
    }
}

/// Strip every leading `./` from `s`.
fn strip_dot_slash_bytes(s: &[u8]) -> (r: Vec<u8>)
    ensures
        r@ == strip_dot_slash(s@),
{
    let mut a: usize = 0;
    proof {
        assert(s@.skip(0) =~= s@);
    }
    while s.len() - a >= 2 && s[a] == 46 && s[a + 1] == 47
        invariant
            a <= s@.len(),
            strip_dot_slash(s@) == strip_dot_slash(s@.skip(a as int)),
        decreases s@.len() - a,
    {
        proof {
            assert(s@.skip(a as int).skip(2) =~= s@.skip(a + 2));
        }
        a = a + 2;
    }
    proof {
        assert(strip_dot_slash(s@.skip(a as int)) == s@.skip(a as int));
        assert(s@.skip(a as int) =~= s@.subrange(a as int, s@.len() as int));
    }
    vstd::slice::slice_to_vec(vstd::slice::slice_subrange(s, a, s.len()))
}

/// The URI prefix of the directory named by the first `upto`
/// components.
fn dir_prefix_bytes(comps: &Vec<Vec<u8>>, upto: usize) -> (r: Vec<u8>)
    requires
        upto <= comps@.len(),
    ensures
        r@ == dir_prefix(comps.deep_view().take(upto as int)),
{
    let ghost cv = comps.deep_view();
    let mut r: Vec<u8> = Vec::new();
    r.push(47);
    proof {
        assert(cv.take(0) =~= Seq::<Seq<u8>>::empty());
        assert(r@ =~= dir_prefix(cv.take(0)));
    }
    let mut i: usize = 0;
    while i < upto
        invariant
            i <= upto <= comps@.len(),
            cv == comps.deep_view(),
            r@ == dir_prefix(cv.take(i as int)),
        decreases upto - i,
    {
        let stripped = strip_dot_slash_bytes(comps[i].as_slice());
        append_bytes(&mut r, stripped.as_slice());
        r.push(47);
        proof {
            assert(comps@[i as int].deep_view() =~= comps@[i as int]@);
            assert(cv.take(i + 1) =~= cv.take(i as int).push(cv[i as int]));
            lemma_prefix_tail_push(cv.take(i as int), cv[i as int]);
            assert(r@ =~= dir_prefix(cv.take(i + 1)));
        }
        i = i + 1;
    }
    r
}

/// The filesystem path of the first `upto` components under `root`.
fn path_of_bytes(root: &[u8], comps: &Vec<Vec<u8>>, upto: usize) -> (r: Vec<u8>)
    requires
        upto <= comps@.len(),
    ensures
        r@ == path_of(root@, comps.deep_view().take(upto as int)),
{
    let ghost cv = comps.deep_view();
    let mut r: Vec<u8> = Vec::new();
    append_bytes(&mut r, root);
    proof {
        assert(cv.take(0) =~= Seq::<Seq<u8>>::empty());
        assert(r@ =~= path_of(root@, cv.take(0)));
    }
    let mut i: usize = 0;
    while i < upto
        invariant
            i <= upto <= comps@.len(),
            cv == comps.deep_view(),
            r@ == path_of(root@, cv.take(i as int)),
        decreases upto - i,
    {
        r.push(47);
        append_bytes(&mut r, comps[i].as_slice());
        proof {
            assert(comps@[i as int].deep_view() =~= comps@[i as int]@);
            assert(cv.take(i + 1) =~= cv.take(i as int).push(cv[i as int]));
            lemma_path_tail_push(cv.take(i as int), cv[i as int]);
            assert(r@ =~= path_of(root@, cv.take(i + 1)));
        }
        i = i + 1;
    }
    r
}

/// The name `index.html` as bytes.
fn index_html_name() -> (r: Vec<u8>)
    ensures
        r@ == index_html(),
{
    let mut r: Vec<u8> = Vec::new();
    r.push(105);
    r.push(110);
    r.push(100);
    r.push(101);
    r.push(120);
    r.push(46);
    r.push(104);
    r.push(116);
    r.push(109);
    r.push(108);
    proof {
        assert(r@ =~= index_html());
    }
    r
}

/// The name `index.htm` as bytes.
fn index_htm_name() -> (r: Vec<u8>)
    ensures
        r@ == index_htm(),
{
    let mut r: Vec<u8> = Vec::new();
    r.push(105);
    r.push(110);
    r.push(100);
    r.push(101);
    r.push(120);
    r.push(46);
    r.push(104);
    r.push(116);
    r.push(109);
    proof {
        assert(r@ =~= index_htm());
    }
    r
}

/// Whether `e` is the regular file `comps/last`.
fn entry_is_file_at(e: &FsEntry, comps: &Vec<Vec<u8>>, last: &[u8]) -> (r: bool)
    ensures
        r == (!e.is_dir && e.components.deep_view() == comps.deep_view().push(last@)),
{
    let ghost target = comps.deep_view().push(last@);
    if e.is_dir {
        return false;
    }
    if e.components.len() == 0 || e.components.len() - 1 != comps.len() {
        proof {
            assert(e.components.deep_view().len() != target.len());
        }
        return false;
    }
    let mut j: usize = 0;
    while j < comps.len()
        invariant
            j <= comps@.len(),
            e.components@.len() == comps@.len() + 1,
            target == comps.deep_view().push(last@),
            forall|t: int| 0 <= t < j ==> e.components.deep_view()[t] == target[t],
        decreases comps@.len() - j,
    {
        if !crate::text::bytes_eq(e.components[j].as_slice(), comps[j].as_slice()) {
            proof {
                assert(e.components.deep_view()[j as int] =~= e.components@[j as int]@);
                assert(target[j as int] =~= comps@[j as int]@);
                assert(e.components.deep_view() != target);
            }
            return false;
        }
        proof {
            assert(e.components.deep_view()[j as int] =~= e.components@[j as int]@);
            assert(target[j as int] =~= comps@[j as int]@);
        }
        j = j + 1;
    }
    let r = crate::text::bytes_eq(e.components[comps.len()].as_slice(), last);
    proof {
        assert(e.components.deep_view()[comps@.len() as int] =~= e.components@[comps@.len() as int]@);
        assert(target[comps@.len() as int] == last@);
        if r {
            assert(e.components.deep_view() =~= target);
        } else {
            assert(e.components.deep_view() != target);
        }
    }
    r
}

/// Whether the listing holds the regular file `comps/name`.
fn has_index(entries: &Vec<FsEntry>, comps: &Vec<Vec<u8>>, name: &[u8]) -> (r: bool)
    ensures
        r == has_file(entries_view(entries@), comps.deep_view().push(name@)),
{
    let ghost all = entries_view(entries@);
    let ghost target = comps.deep_view().push(name@);
    let mut i: usize = 0;
    while i < entries.len()
        invariant
            i <= entries@.len(),
            all == entries_view(entries@),
            target == comps.deep_view().push(name@),
            forall|j: int| 0 <= j < i ==> !((#[trigger] all[j]).0 == target && !all[j].1),
        decreases entries@.len() - i,
    {
        if entry_is_file_at(&entries[i], comps, name) {
            proof {
                assert(all[i as int].0 == target && !all[i as int].1);
            }
            return true;
        }
        proof {
            assert(all[i as int].0 == entries@[i as int].components.deep_view());
        }
        i = i + 1;
    }
    proof {
        assert(!has_file(all, target));
    }
    false
}

/// Add the index mapping of the directory named by `comps`, if it has
/// an index file.
fn index_route_step(
    root: &[u8],
    entries: &Vec<FsEntry>,
    comps: &Vec<Vec<u8>>,
    routes: &mut Vec<(Vec<u8>, Vec<u8>)>,
)
    ensures
        pairs_view(final(routes)@) == index_route(
            root@,
            entries_view(entries@),
            comps.deep_view(),
            pairs_view(old(routes)@),
        ),
{
    let ghost cv = comps.deep_view();
    let html = index_html_name();
    let htm = index_htm_name();
    let use_html = has_index(entries, comps, html.as_slice());
    let use_htm = if use_html {
        false
    } else {
        has_index(entries, comps, htm.as_slice())
    };
    if use_html || use_htm {
        let prefix = dir_prefix_bytes(comps, comps.len());
        proof {
            assert(cv.take(cv.len() as int) =~= cv);
        }
        let key = percent_encode_bytes(prefix.as_slice());
        let mut path = path_of_bytes(root, comps, comps.len());
        path.push(47);
        if use_html {
            append_bytes(&mut path, html.as_slice());
            proof {
                lemma_path_tail_push(cv, index_html());
                assert(path@ =~= path_of(root@, cv.push(index_html())));
            }
        } else {
            append_bytes(&mut path, htm.as_slice());
            proof {
                lemma_path_tail_push(cv, index_htm());
                assert(path@ =~= path_of(root@, cv.push(index_htm())));
            }
        }
        upsert_pair(routes, key, path);
    }
}

/// Build every route of the initial walk into `routes`.
fn create_directory_routes(root: &[u8], entries: &Vec<FsEntry>, routes: &mut Vec<(Vec<u8>, Vec<u8>)>)
    requires
        old(routes)@.len() == 0,
    ensures
        pairs_view(final(routes)@) == walk_routes(root@, entries_view(entries@)),
        unique_keys(pairs_view(final(routes)@)),
{
    let ghost all = entries_view(entries@);
    let empty_comps: Vec<Vec<u8>> = Vec::new();
    proof {
        assert(pairs_view(routes@) =~= Seq::<(Seq<u8>, Seq<u8>)>::empty());
        assert(empty_comps.deep_view() =~= Seq::<Seq<u8>>::empty());
    }
    index_route_step(root, entries, &empty_comps, routes);
    proof {
        lemma_index_route_unique(root@, all, Seq::empty(), Seq::empty());
    }
    let mut i: usize = 0;
    proof {
        assert(all.skip(0) =~= all);
    }
    while i < entries.len()
        invariant
            i <= entries@.len(),
            all == entries_view(entries@),
            unique_keys(pairs_view(routes@)),
            walk_routes(root@, all) == walk_fold(
                root@,
                all,
                all.skip(i as int),
                pairs_view(routes@),
            ),
        decreases entries@.len() - i,
    {
        let ghost acc = pairs_view(routes@);
        proof {
            assert(all.skip(i as int)[0] == all[i as int]);
            assert(all.skip(i as int).skip(1) =~= all.skip(i + 1));
        }
        let e = &entries[i];
        proof {
            assert(all[i as int] == (e.components.deep_view(), e.is_dir));
        }
        if e.is_dir {
            index_route_step(root, entries, &e.components, routes);
        } else if e.components.len() > 0 {
            let ghost cv = e.components.deep_view();
            let upto = e.components.len() - 1;
            let mut uri = dir_prefix_bytes(&e.components, upto);
            let last = strip_dot_slash_bytes(e.components[upto].as_slice());
            append_bytes(&mut uri, last.as_slice());
            proof {
                assert(e.components@[upto as int].deep_view() =~= e.components@[upto as int]@);
                assert(cv[upto as int] == e.components@[upto as int]@);
                assert(uri@ =~= file_uri(cv));
            }
            let key = percent_encode_bytes(uri.as_slice());
            let path = path_of_bytes(root, &e.components, e.components.len());
            proof {
                assert(cv.take(cv.len() as int) =~= cv);
            }
            upsert_pair(routes, key, path);
            proof {
                lemma_upsert_keys(acc, pct_encode(file_uri(cv)), path_of(root@, cv));
            }
        }
        proof {
            lemma_entry_route_unique(root@, all, all[i as int], acc);
            assert(pairs_view(routes@) == entry_route(root@, all, all[i as int], acc));
        }
        i = i + 1;
    }
    proof {
        assert(all.skip(all.len() as int) =~= Seq::<(Seq<Seq<u8>>, bool)>::empty());
    }
}

/// An index mapping keeps keys unique.
proof fn lemma_index_route_unique(
    root: Seq<u8>,
    all: Seq<(Seq<Seq<u8>>, bool)>,
    comps: Seq<Seq<u8>>,
    acc: Seq<(Seq<u8>, Seq<u8>)>,
)
    requires
        unique_keys(acc),
    ensures
        unique_keys(index_route(root, all, comps, acc)),
{
    if has_file(all, comps.push(index_html())) {
        lemma_upsert_keys(acc, pct_encode(dir_prefix(comps)), path_of(root, comps.push(index_html())));
    } else if has_file(all, comps.push(index_htm())) {
        lemma_upsert_keys(acc, pct_encode(dir_prefix(comps)), path_of(root, comps.push(index_htm())));
    }
}

/// An entry's contribution keeps keys unique.
proof fn lemma_entry_route_unique(
    root: Seq<u8>,
    all: Seq<(Seq<Seq<u8>>, bool)>,
    e: (Seq<Seq<u8>>, bool),
    acc: Seq<(Seq<u8>, Seq<u8>)>,
)
    requires
        unique_keys(acc),
    ensures
        unique_keys(entry_route(root, all, e, acc)),
{
    if e.1 {
        lemma_index_route_unique(root, all, e.0, acc);
    } else if e.0.len() > 0 {
        lemma_upsert_keys(acc, pct_encode(file_uri(e.0)), path_of(root, e.0));
    }
}

/// The URI-to-path table shared by every connection.
#[derive(Clone)]
pub struct Router {
    routes: Vec<(Vec<u8>, Vec<u8>)>,
}

impl Router {
    /// The routes as `(encoded URI, path)` pairs, in insertion order.
    pub closed spec fn routes_view(&self) -> Seq<(Seq<u8>, Seq<u8>)> {
        pairs_view(self.routes@)
    }

    /// No URI is mapped twice.
    pub open spec fn wf(&self) -> bool {
        unique_keys(self.routes_view())
    }

    /// Resolves a URI to a path.
    #[inline]
    pub fn route_to(&self, uri: &[u8]) -> (r: Option<Vec<u8>>)
        ensures
            match r {
                Some(p) => lookup(self.routes_view(), uri@) == Some(p@),
                None => lookup(self.routes_view(), uri@) is None,
            },
    {
        lookup_pair(&self.routes, uri)
    }

    /// Resolve a URI that missed the table: when the candidate path
    /// exists on disk (`exists`, probed by the caller), record the
    /// mapping and return the resolved path; otherwise change and
    /// return nothing.
    pub fn route_to_new(&mut self, uri: &[u8], path: &[u8], exists: bool) -> (r: Option<Vec<u8>>)
        ensures
            exists ==> final(self).routes_view() == upsert(old(self).routes_view(), uri@, path@),
            exists ==> matches!(r, Some(_)) && (r matches Some(p) ==> p@ == path@),
            !exists ==> final(self).routes_view() == old(self).routes_view() && r is None,
            old(self).wf() ==> final(self).wf(),
    {
        if exists {
            let key = vstd::slice::slice_to_vec(uri);
            let val = vstd::slice::slice_to_vec(path);
            let ghost orig = self.routes_view();
            upsert_pair(&mut self.routes, key, val);
            proof {
                lemma_upsert_keys(orig, uri@, path@);
                lemma_lookup_upsert(orig, uri@, path@);
            }
            let r = lookup_pair(&self.routes, uri);
            r
        } else {
            None
        }
    }

    /// Creates the routes for the given directory listing: each
    /// directory's index mapping and each file's encoded URI, as the
    /// walk found them under `root`.
    pub fn default_from_directory(root: &[u8], entries: &Vec<FsEntry>) -> (r: Router)
        ensures
            r.routes_view() == walk_routes(root@, entries_view(entries@)),
            r.wf(),
    {
        let mut routes: Vec<(Vec<u8>, Vec<u8>)> = Vec::new();
        create_directory_routes(root, entries, &mut routes);
        Router { routes }
    }
}

/// Resolving the same existing candidate twice is idempotent: the
/// second call leaves the table as the first left it, both calls
/// resolve to the inserted path, and a table without duplicate keys
/// keeps exactly one entry for the URI.
pub proof fn lemma_resolve_or_insert_idempotent(
    rs: Seq<(Seq<u8>, Seq<u8>)>,
    uri: Seq<u8>,
    path: Seq<u8>,
)
    ensures
        upsert(upsert(rs, uri, path), uri, path) == upsert(rs, uri, path),
        lookup(upsert(rs, uri, path), uri) == Some(path),
        unique_keys(rs) ==> unique_keys(upsert(rs, uri, path)),
        unique_keys(rs) ==> exists|i: int|
            {
                &&& 0 <= i < upsert(rs, uri, path).len()
                &&& (#[trigger] upsert(rs, uri, path)[i]).0 == uri
                &&& forall|j: int|
                    0 <= j < upsert(rs, uri, path).len() && j != i ==> upsert(rs, uri, path)[j].0
                        != uri
            },
{
    lemma_upsert_idempotent(rs, uri, path);
    lemma_lookup_upsert(rs, uri, path);
    lemma_upsert_keys(rs, uri, path);
    if unique_keys(rs) {
        let t = upsert(rs, uri, path);
        assert(key_in(t, uri));
        let i = choose|i: int| 0 <= i < t.len() && (#[trigger] t[i]).0 == uri;
        assert forall|j: int| 0 <= j < t.len() && j != i implies t[j].0 != uri by {
            if j < i {
                assert(t[j].0 != t[i].0);
            } else if j > i {
                assert(t[i].0 != t[j].0);
            }
        }
        assert({
            &&& 0 <= i < t.len()
            &&& t[i].0 == uri
            &&& forall|j: int| 0 <= j < t.len() && j != i ==> t[j].0 != uri
        });
    }
}

} // verus!
