//! The graph resolver: the ordered, deduplicated set of output files needed
//! to serve one entry module, obtained by a visited-set traversal of the
//! manifest's import graph.

use vstd::prelude::*;
use vstd::seq_lib::*;
use vstd::set_lib::lemma_len_subset;

use crate::manifest::Manifest;
use crate::manifest::ManifestEntry;
use crate::table::BundleError;

verus! {

/// One import step: some entry is keyed `a` and imports `b`.
pub open spec fn step_ok(m: Manifest, a: Seq<char>, b: Seq<char>) -> bool {
    exists|i: int|
        0 <= i < m.entries.len() && m.entries[i].key@ == a && m.entries[i].imports.deep_view().contains(b)
}

/// Every consecutive pair of keys in `p` is one import step.
pub open spec fn import_path(m: Manifest, p: Seq<Seq<char>>) -> bool {
    forall|i: int| #![trigger p[i]] 0 <= i < p.len() - 1 ==> step_ok(m, p[i], p[i + 1])
}

/// `p` is an import chain from `from` to `to`.
pub open spec fn is_import_path_between(
    m: Manifest,
    p: Seq<Seq<char>>,
    from: Seq<char>,
    to: Seq<char>,
) -> bool {
    p.len() >= 1 && p[0] == from && p[p.len() - 1] == to && import_path(m, p)
}

/// `to` is reachable from `from` along import steps (every key reaches
/// itself by the chain of length one).
pub open spec fn reaches(m: Manifest, from: Seq<char>, to: Seq<char>) -> bool {
    exists|p: Seq<Seq<char>>| is_import_path_between(m, p, from, to)
}

/// Resolution succeeds exactly here: the requested key exists, is marked as
/// an entry point, and every key reachable from it exists in the manifest.
pub open spec fn resolvable(m: Manifest, entry: Seq<char>) -> bool {
    &&& m.has_key(entry)
    &&& m.entry_for(entry).is_entry
    &&& forall|k: Seq<char>| reaches(m, entry, k) ==> m.has_key(k)
}

/// `x` is one of the entry's output files: its script, a stylesheet, or a
/// static asset.
pub open spec fn is_output_of(e: ManifestEntry, x: Seq<char>) -> bool {
    ||| x == e.file@
    ||| e.css.deep_view().contains(x)
    ||| e.assets.deep_view().contains(x)
}

/// All output files of the module keyed `k` are in `files`.
pub open spec fn module_outputs_in(m: Manifest, k: Seq<char>, files: Seq<Seq<char>>) -> bool {
    m.has_key(k) ==> {
        let e = m.entry_for(k);
        &&& files.contains(e.file@)
        &&& forall|i: int| 0 <= i < e.css.len() ==> files.contains(#[trigger] e.css[i]@)
        &&& forall|i: int| 0 <= i < e.assets.len() ==> files.contains(#[trigger] e.assets[i]@)
    }
}

/// `x` is an output file of some module reachable from `entry`.
pub open spec fn output_of_reachable(m: Manifest, entry: Seq<char>, x: Seq<char>) -> bool {
    exists|k: Seq<char>|
        #![trigger reaches(m, entry, k)]
        reaches(m, entry, k) && m.has_key(k) && is_output_of(m.entry_for(k), x)
}

/// Every import step out of a key in `vis` lands in `q`.
pub open spec fn imports_covered(m: Manifest, vis: Seq<Seq<char>>, q: Seq<Seq<char>>) -> bool {
    forall|a: Seq<char>, b: Seq<char>|
        #![trigger vis.contains(a), step_ok(m, a, b)]
        vis.contains(a) && step_ok(m, a, b) ==> q.contains(b)
}

/// The output files one visit of `e` emits, in emission order: its script,
/// then its stylesheets, then its static assets.
pub open spec fn outputs_of(e: ManifestEntry) -> Seq<Seq<char>> {
    seq![e.file@] + e.css.deep_view() + e.assets.deep_view()
}

/// `files` extended by `x` unless already present.
pub open spec fn push_one(files: Seq<Seq<char>>, x: Seq<char>) -> Seq<Seq<char>> {
    if files.contains(x) {
        files
    } else {
        files.push(x)
    }
}

/// `files` extended by each element of `xs` not yet present, in order.
pub open spec fn push_new(files: Seq<Seq<char>>, xs: Seq<Seq<char>>) -> Seq<Seq<char>>
    decreases xs.len(),
{
    if xs.len() == 0 {
        files
    } else {
        push_new(push_one(files, xs[0]), xs.drop_first())
    }
}

/// The file list that the visited-set traversal discovers from the given
/// state, in insertion order of first discovery: each unvisited, present
/// key in the work queue emits its outputs and enqueues its imports. (On a
/// dangling key the executable resolver fails instead; the value here is
/// then unused.)
pub open spec fn traversal_files(
    m: Manifest,
    queue: Seq<Seq<char>>,
    qi: int,
    visited: Seq<Seq<char>>,
    files: Seq<Seq<char>>,
) -> Seq<Seq<char>>
    decreases m.entries.len() - visited.len(), queue.len() - qi
        when 0 <= qi && visited.no_duplicates() && (forall|j: int|
            0 <= j < visited.len() ==> m.has_key(#[trigger] visited[j]))
        via traversal_files_decreases
{
    if qi >= queue.len() {
        files
    } else if visited.contains(queue[qi]) {
        traversal_files(m, queue, qi + 1, visited, files)
    } else if !m.has_key(queue[qi]) {
        files
    } else {
        let e = m.entry_for(queue[qi]);
        traversal_files(
            m,
            queue + e.imports.deep_view(),
            qi + 1,
            visited.push(queue[qi]),
            push_new(files, outputs_of(e)),
        )
    }
}

#[via_fn]
proof fn traversal_files_decreases(
    m: Manifest,
    queue: Seq<Seq<char>>,
    qi: int,
    visited: Seq<Seq<char>>,
    files: Seq<Seq<char>>,
) {
    if qi < queue.len() && !visited.contains(queue[qi]) && m.has_key(queue[qi]) {
        let vis2 = visited.push(queue[qi]);
        assert forall|a: int, b: int| 0 <= a < b < vis2.len() implies vis2[a] != vis2[b] by {
            if b < visited.len() {
                assert(vis2[a] == visited[a] && vis2[b] == visited[b]);
            } else {
                assert(vis2[b] == queue[qi]);
                assert(vis2[a] == visited[a]);
                assert(visited.contains(visited[a]));
            }
        }
        assert forall|j: int| 0 <= j < vis2.len() implies m.has_key(#[trigger] vis2[j]) by {
            if j < visited.len() {
                assert(vis2[j] == visited[j]);
            } else {
                assert(vis2[j] == queue[qi]);
            }
        }
        lemma_visited_bounded(m, vis2);
    }
}

/// The resolver's full output for a resolvable entry: the traversal's
/// first-discovery file list, then the two fixed conventional names.
pub open spec fn resolved_file_list(m: Manifest, entry: Seq<char>) -> Seq<Seq<char>> {
    traversal_files(m, seq![entry], 0, Seq::<Seq<char>>::empty(), Seq::<Seq<char>>::empty())
        + seq!["favicon.ico"@, "index.html"@]
}

/// Taking one more element of `xs` applies one more conditional push.
proof fn lemma_push_new_snoc(files: Seq<Seq<char>>, xs: Seq<Seq<char>>, i: int)
    requires
        0 <= i < xs.len(),
    ensures
        push_new(files, xs.take(i + 1)) == push_one(push_new(files, xs.take(i)), xs[i]),
    decreases i,
{
    if i == 0 {
        assert(xs.take(1)[0] == xs[0]);
        assert(xs.take(1).drop_first() =~= xs.take(0));
        assert(xs.take(0).len() == 0);
        assert(push_new(files, xs.take(1)) == push_new(push_one(files, xs[0]), xs.take(0)));
        assert(push_new(files, xs.take(0)) == files);
    } else {
        lemma_push_new_snoc(push_one(files, xs[0]), xs.drop_first(), i - 1);
        assert(xs.take(i + 1)[0] == xs[0]);
        assert(xs.take(i)[0] == xs[0]);
        assert(xs.take(i + 1).drop_first() =~= xs.drop_first().take(i));
        assert(xs.take(i).drop_first() =~= xs.drop_first().take(i - 1));
        assert(xs.drop_first()[i - 1] == xs[i]);
        assert(push_new(files, xs.take(i + 1)) == push_new(
            push_one(files, xs[0]),
            xs.drop_first().take(i),
        ));
        assert(push_new(files, xs.take(i)) == push_new(
            push_one(files, xs[0]),
            xs.drop_first().take(i - 1),
        ));
    }
}

/// Pushing a concatenation is pushing one part after the other.
proof fn lemma_push_new_concat(files: Seq<Seq<char>>, a: Seq<Seq<char>>, b: Seq<Seq<char>>)
    ensures
        push_new(files, a + b) == push_new(push_new(files, a), b),
    decreases a.len(),
{
    if a.len() == 0 {
        assert(a + b =~= b);
        assert(push_new(files, a) == files);
    } else {
        assert((a + b)[0] == a[0]);
        assert((a + b).drop_first() =~= a.drop_first() + b);
        lemma_push_new_concat(push_one(files, a[0]), a.drop_first(), b);
        assert(push_new(files, a + b) == push_new(push_one(files, a[0]), a.drop_first() + b));
        assert(push_new(files, a) == push_new(push_one(files, a[0]), a.drop_first()));
    }
}

/// What resolution produces: the deduplicated file list (the two fixed,
/// conventional names last), the entry's own script, and the entry's own
/// stylesheet list, the latter two needed separately for shell injection.
pub struct Resolution {
    pub files: Vec<String>,
    pub entry_file: String,
    pub entry_css: Vec<String>,
}

proof fn lemma_reaches_self(m: Manifest, k: Seq<char>)
    ensures
        reaches(m, k, k),
{
    let p = seq![k];
    assert(p.len() == 1);
    assert(import_path(m, p));
    assert(is_import_path_between(m, p, k, k));
}

proof fn lemma_reaches_step(m: Manifest, e: Seq<char>, a: Seq<char>, b: Seq<char>)
    requires
        reaches(m, e, a),
        step_ok(m, a, b),
    ensures
        reaches(m, e, b),
{
    let p = choose|p: Seq<Seq<char>>| is_import_path_between(m, p, e, a);
    let p2 = p.push(b);
    assert(p2[p2.len() - 1] == b);
    assert(p2[0] == e);
    assert forall|i: int| #![trigger p2[i]] 0 <= i < p2.len() - 1 implies step_ok(m, p2[i], p2[i + 1]) by {
        if i < p.len() - 1 {
            assert(p2[i] == p[i]);
            assert(p2[i + 1] == p[i + 1]);
        } else {
            assert(p2[i] == p[p.len() - 1]);
            assert(p2[i + 1] == b);
        }
    }
    assert(is_import_path_between(m, p2, e, b));
}

proof fn lemma_path_closed(m: Manifest, vis: Seq<Seq<char>>, p: Seq<Seq<char>>)
    requires
        p.len() >= 1,
        import_path(m, p),
        vis.contains(p[0]),
        forall|a: Seq<char>, b: Seq<char>|
            #![trigger vis.contains(a), step_ok(m, a, b)]
            vis.contains(a) && step_ok(m, a, b) ==> vis.contains(b),
    ensures
        vis.contains(p[p.len() - 1]),
    decreases p.len(),
{
    if p.len() == 1 {
    } else {
        assert(step_ok(m, p[0], p[1]));
        assert(vis.contains(p[1]));
        let q = p.drop_first();
        assert forall|i: int| #![trigger q[i]] 0 <= i < q.len() - 1 implies step_ok(m, q[i], q[i + 1]) by {
            assert(q[i] == p[i + 1]);
            assert(q[i + 1] == p[i + 2]);
        }
        assert(q[0] == p[1]);
        lemma_path_closed(m, vis, q);
        assert(q[q.len() - 1] == p[p.len() - 1]);
    }
}

proof fn lemma_visited_bounded(m: Manifest, vis: Seq<Seq<char>>)
    requires
        vis.no_duplicates(),
        forall|j: int| 0 <= j < vis.len() ==> m.has_key(#[trigger] vis[j]),
    ensures
        vis.len() <= m.entries.len(),
{
    broadcast use seq_to_set_is_finite;

    let keys = m.keys();
    assert(keys.len() == m.entries.len());
    assert forall|x: Seq<char>| vis.to_set().contains(x) implies keys.to_set().contains(x) by {
        let j = choose|j: int| 0 <= j < vis.len() && vis[j] == x;
        assert(m.has_key(x));
        let i = choose|i: int| 0 <= i < m.entries.len() && m.entries[i].key@ == x;
        assert(keys[i] == x);
        assert(keys.contains(x));
    }
    vis.unique_seq_to_set();
    keys.lemma_cardinality_of_set();
    lemma_len_subset(vis.to_set(), keys.to_set());
}

pub(crate) fn contains_string(v: &Vec<String>, s: &String) -> (r: bool)
    ensures
        r == v.deep_view().contains(s@),
{
    let mut i: usize = 0;
    while i < v.len()
        invariant
            i <= v@.len(),
            forall|j: int| 0 <= j < i ==> v@[j]@ != s@,
        decreases v@.len() - i,
    {
        if v[i].eq(s) {
            proof {
                assert(v.deep_view()[i as int] == s@);
            }
            return true;
        }
        i = i + 1;
    }
    proof {
        assert forall|j: int| 0 <= j < v.deep_view().len() implies v.deep_view()[j] != s@ by {
            assert(v.deep_view()[j] == v@[j]@);
        }
    }
    false
}

pub(crate) fn clone_strings(v: &Vec<String>) -> (r: Vec<String>)
    ensures
        r@ == v@,
{
    let mut out: Vec<String> = Vec::new();
    let mut i: usize = 0;
    while i < v.len()
        invariant
            i <= v@.len(),
            out@ == v@.take(i as int),
        decreases v@.len() - i,
    {
        out.push(v[i].clone());
        proof {
            assert(out@ =~= v@.take(i + 1));
        }
        i = i + 1;
    }
    proof {
        assert(v@.take(v@.len() as int) =~= v@);
    }
    out
}

/// Appends `s` unless an equal string is already present; keeps order,
/// existing elements, and freedom from duplicates.
pub(crate) fn push_unique(files: &mut Vec<String>, s: &String)
    ensures
        final(files).deep_view() == push_one(old(files).deep_view(), s@),
        final(files)@.len() >= old(files)@.len(),
        forall|j: int| 0 <= j < old(files)@.len() ==> final(files)@[j] == old(files)@[j],
        forall|j: int|
            0 <= j < old(files)@.len() ==> final(files).deep_view()[j] == old(
                files,
            ).deep_view()[j],
        old(files).deep_view().no_duplicates() ==> final(files).deep_view().no_duplicates(),
        forall|x: Seq<char>|
            final(files).deep_view().contains(x) <==> (old(files).deep_view().contains(x) || x
                == s@),
{
    let present = contains_string(files, s);
    if present {
        proof {
            assert(files.deep_view().contains(s@));
        }
    } else {
        files.push(s.clone());
        proof {
            let d0 = old(files).deep_view();
            let d1 = files.deep_view();
            assert(d1 =~= d0.push(s@));
            assert forall|x: Seq<char>| d1.contains(x) implies (d0.contains(x) || x == s@) by {
                let j = choose|j: int| 0 <= j < d1.len() && d1[j] == x;
                if j < d0.len() {
                    assert(d0[j] == x);
                } else {
                    assert(x == s@);
                }
            }
            assert(d1[d0.len() as int] == s@);
            assert forall|x: Seq<char>| (d0.contains(x) || x == s@) implies d1.contains(x) by {
                if d0.contains(x) {
                    let j = choose|j: int| 0 <= j < d0.len() && d0[j] == x;
                    assert(d1[j] == x);
                } else {
                    assert(d1[d0.len() as int] == x);
                }
            }
            if d0.no_duplicates() {
                assert forall|i: int, j: int| 0 <= i < j < d1.len() implies d1[i] != d1[j] by {
                    if j < d0.len() {
                        assert(d0[i] == d1[i] && d0[j] == d1[j]);
                    } else {
                        assert(d1[j] == s@);
                        assert(!d0.contains(s@));
                        assert(d0[i] == d1[i]);
                    }
                }
            }
        }
    }
}

/// Appends every element of `items` that is not yet present, in order.
pub(crate) fn push_all_unique(files: &mut Vec<String>, items: &Vec<String>)
    ensures
        final(files).deep_view() == push_new(old(files).deep_view(), items.deep_view()),
        final(files)@.len() >= old(files)@.len(),
        forall|j: int| 0 <= j < old(files)@.len() ==> final(files)@[j] == old(files)@[j],
        forall|j: int|
            0 <= j < old(files)@.len() ==> final(files).deep_view()[j] == old(
                files,
            ).deep_view()[j],
        old(files).deep_view().no_duplicates() ==> final(files).deep_view().no_duplicates(),
        forall|j: int|
            0 <= j < items@.len() ==> final(files).deep_view().contains(#[trigger] items@[j]@),
        forall|x: Seq<char>|
            final(files).deep_view().contains(x) ==> (old(files).deep_view().contains(x)
                || items.deep_view().contains(x)),
        forall|x: Seq<char>|
            old(files).deep_view().contains(x) ==> final(files).deep_view().contains(x),
{
    let mut i: usize = 0;
    while i < items.len()
        invariant
            i <= items@.len(),
            files.deep_view() == push_new(old(files).deep_view(), items.deep_view().take(i as int)),
            files@.len() >= old(files)@.len(),
            forall|j: int| 0 <= j < old(files)@.len() ==> files@[j] == old(files)@[j],
            forall|j: int|
                0 <= j < old(files)@.len() ==> files.deep_view()[j] == old(files).deep_view()[j],
            old(files).deep_view().no_duplicates() ==> files.deep_view().no_duplicates(),
            forall|j: int| 0 <= j < i ==> files.deep_view().contains(#[trigger] items@[j]@),
            forall|x: Seq<char>|
                files.deep_view().contains(x) ==> (old(files).deep_view().contains(x)
                    || items.deep_view().contains(x)),
            forall|x: Seq<char>|
                old(files).deep_view().contains(x) ==> files.deep_view().contains(x),
        decreases items@.len() - i,
    {
        proof {
            lemma_push_new_snoc(old(files).deep_view(), items.deep_view(), i as int);
        }
        push_unique(files, &items[i]);
        proof {
            assert(items.deep_view()[i as int] == items@[i as int]@);
            assert(items.deep_view().contains(items@[i as int]@));
        }
        i = i + 1;
    }
    proof {
        assert(items.deep_view().take(items.deep_view().len() as int) =~= items.deep_view());
    }
}

/// Appends clones of all of `items` to `dst`.
pub(crate) fn append_all(dst: &mut Vec<String>, items: &Vec<String>)
    ensures
        final(dst)@.len() == old(dst)@.len() + items@.len(),
        forall|j: int| 0 <= j < old(dst)@.len() ==> final(dst)@[j] == old(dst)@[j],
        final(dst).deep_view() == old(dst).deep_view() + items.deep_view(),
{
    let mut i: usize = 0;
    while i < items.len()
        invariant
            i <= items@.len(),
            dst@ == old(dst)@ + items@.take(i as int),
        decreases items@.len() - i,
    {
        dst.push(items[i].clone());
        proof {
            assert(dst@ =~= old(dst)@ + items@.take(i + 1));
        }
        i = i + 1;
    }
    proof {
        assert(items@.take(items@.len() as int) =~= items@);
        let a = dst.deep_view();
        let b = old(dst).deep_view() + items.deep_view();
        assert forall|j: int| 0 <= j < a.len() implies a[j] == b[j] by {
            if j < old(dst)@.len() {
                assert(dst@[j] == old(dst)@[j]);
            } else {
                assert(dst@[j] == items@[j - old(dst)@.len()]);
            }
        }
        assert(a =~= b);
    }
}

/// Resolves the transitive closure of files needed to serve `entry_key`:
/// the entry's script first, then its stylesheets and static assets, then
/// those of every transitively imported module in first-discovery order,
/// each path at most once, and the two fixed conventional file names —
/// `favicon.ico` and the `index.html` shell template, never listed in the
/// manifest — appended last. Fails with the unresolved-entry error when
/// `entry_key` is absent or not an entry point, and with the
/// dangling-import error, naming the key, when a reachable import is
/// absent.
pub fn resolve(m: &Manifest, entry_key: &String) -> (r: Result<Resolution, BundleError>)
    requires
        m.wf(),
    ensures
        r is Ok <==> resolvable(*m, entry_key@),
        r matches Ok(res) ==> {
            let e = m.entry_for(entry_key@);
            let fs = res.files.deep_view();
            &&& res.entry_file@ == e.file@
            &&& res.entry_css.deep_view() == e.css.deep_view()
            &&& res.files@.len() >= 3
            &&& fs[0] == e.file@
            &&& fs == resolved_file_list(*m, entry_key@)
            &&& fs[fs.len() - 2] == "favicon.ico"@
            &&& fs[fs.len() - 1] == "index.html"@
            &&& fs.take(fs.len() - 2).no_duplicates()
            &&& forall|k: Seq<char>|
                reaches(*m, entry_key@, k) ==> module_outputs_in(*m, k, fs.take(fs.len() - 2))
            &&& forall|x: Seq<char>|
                fs.take(fs.len() - 2).contains(x) ==> output_of_reachable(*m, entry_key@, x)
        },
        r matches Err(BundleError::UnresolvedEntryError(k)) ==> k@ == entry_key@ && !(m.has_key(
            entry_key@,
        ) && m.entry_for(entry_key@).is_entry),
        r matches Err(BundleError::DanglingImportError(k)) ==> reaches(*m, entry_key@, k@)
            && !m.has_key(k@),
        r is Err ==> (r matches Err(BundleError::UnresolvedEntryError(_)) || r matches Err(
            BundleError::DanglingImportError(_),
        )),
{
    let ei = match crate::manifest::find_key(m, entry_key) {
        None => {
            proof {
                assert(!m.has_key(entry_key@));
            }
            return Err(BundleError::UnresolvedEntryError(entry_key.clone()));
        },
        Some(i) => i,
    };
    proof {
        assert(m.has_key(entry_key@));
        let ci = m.entry_index(entry_key@);
        assert(0 <= ci < m.entries.len() && m.entries[ci].key@ == entry_key@);
        assert(ci == ei as int);
    }
    if !m.entries[ei].is_entry {
        return Err(BundleError::UnresolvedEntryError(entry_key.clone()));
    }
    let entry_file = m.entries[ei].file.clone();
    let entry_css = clone_strings(&m.entries[ei].css);

    let mut files: Vec<String> = Vec::new();
    let mut visited: Vec<String> = Vec::new();
    let mut queue: Vec<String> = Vec::new();
    queue.push(entry_key.clone());
    let mut qi: usize = 0;

    proof {
        assert(queue.deep_view() =~= seq![entry_key@]);
        assert(visited.deep_view() =~= Seq::<Seq<char>>::empty());
        assert(files.deep_view() =~= Seq::<Seq<char>>::empty());
        lemma_reaches_self(*m, entry_key@);
    }

    while qi < queue.len()
        invariant
            m.wf(),
            qi <= queue@.len(),
            queue@.len() >= 1,
            queue.deep_view()[0] == entry_key@,
            ei < m.entries.len(),
            m.entries[ei as int].key@ == entry_key@,
            m.entries[ei as int].is_entry,
            m.has_key(entry_key@),
            m.entry_index(entry_key@) == ei as int,
            forall|j: int|
                0 <= j < queue@.len() ==> reaches(*m, entry_key@, #[trigger] queue.deep_view()[j]),
            forall|j: int|
                0 <= j < qi ==> visited.deep_view().contains(#[trigger] queue.deep_view()[j]),
            visited.deep_view().no_duplicates(),
            forall|j: int|
                0 <= j < visited@.len() ==> m.has_key(#[trigger] visited.deep_view()[j]) && reaches(
                    *m,
                    entry_key@,
                    visited.deep_view()[j],
                ),
            imports_covered(*m, visited.deep_view(), queue.deep_view()),
            files.deep_view().no_duplicates(),
            qi == 0 ==> visited@.len() == 0 && files@.len() == 0,
            qi >= 1 ==> files@.len() >= 1 && files.deep_view()[0] == m.entries[ei as int].file@,
            forall|j: int|
                0 <= j < visited@.len() ==> module_outputs_in(
                    *m,
                    #[trigger] visited.deep_view()[j],
                    files.deep_view(),
                ),
            forall|x: Seq<char>|
                files.deep_view().contains(x) ==> output_of_reachable(*m, entry_key@, x),
            visited@.len() <= m.entries.len(),
            traversal_files(*m, queue.deep_view(), qi as int, visited.deep_view(), files.deep_view())
                == traversal_files(
                *m,
                seq![entry_key@],
                0,
                Seq::<Seq<char>>::empty(),
                Seq::<Seq<char>>::empty(),
            ),
        decreases m.entries.len() - visited@.len(), queue@.len() - qi,
    {
        let k = queue[qi].clone();
        proof {
            assert(k@ == queue.deep_view()[qi as int]);
        }
        if contains_string(&visited, &k) {
            proof {
                assert(visited.deep_view().contains(queue.deep_view()[qi as int]));
                assert(traversal_files(
                    *m,
                    queue.deep_view(),
                    qi as int,
                    visited.deep_view(),
                    files.deep_view(),
                ) == traversal_files(
                    *m,
                    queue.deep_view(),
                    qi + 1,
                    visited.deep_view(),
                    files.deep_view(),
                ));
            }
            qi = qi + 1;
        } else {
            match crate::manifest::find_key(m, &k) {
                None => {
                    proof {
                        assert(reaches(*m, entry_key@, k@));
                        assert(!m.has_key(k@));
                        if resolvable(*m, entry_key@) {
                            assert(m.has_key(k@));
                        }
                    }
                    return Err(BundleError::DanglingImportError(k));
                },
                Some(i) => {
                    let ghost kk = k@;
                    proof {
                        assert(m.has_key(kk));
                        let ci = m.entry_index(kk);
                        assert(0 <= ci < m.entries.len() && m.entries[ci].key@ == kk);
                        assert(ci == i as int);
                        assert(m.entry_for(kk) == m.entries[i as int]);
                        if qi == 0 {
                            assert(kk == entry_key@);
                            assert(i as int == ei as int);
                        }
                    }
                    let ghost f0 = files.deep_view();
                    push_unique(&mut files, &m.entries[i].file);
                    let ghost f1 = files.deep_view();
                    push_all_unique(&mut files, &m.entries[i].css);
                    let ghost f2 = files.deep_view();
                    push_all_unique(&mut files, &m.entries[i].assets);
                    let ghost f3 = files.deep_view();
                    let ghost q0 = queue.deep_view();
                    append_all(&mut queue, &m.entries[i].imports);
                    let ghost q1 = queue.deep_view();
                    let ghost vis0 = visited.deep_view();
                    visited.push(k);
                    proof {
                        let e = m.entries[i as int];
                        let imps = e.imports.deep_view();
                        let vis1 = visited.deep_view();
                        assert(vis1 =~= vis0.push(kk));
                        assert(q1 == q0 + imps);
                        assert(kk == q0[qi as int]);
                        assert(reaches(*m, entry_key@, kk));

                        // queue elements stay reachable; appended imports are
                        // reachable through one more step.
                        assert forall|j: int|
                            0 <= j < q1.len() implies reaches(
                            *m,
                            entry_key@,
                            #[trigger] q1[j],
                        ) by {
                            if j < q0.len() {
                                assert(q1[j] == q0[j]);
                            } else {
                                let t = j - q0.len();
                                assert(q1[j] == imps[t]);
                                assert(imps.contains(imps[t]));
                                assert(step_ok(*m, kk, imps[t]));
                                lemma_reaches_step(*m, entry_key@, kk, imps[t]);
                            }
                        }
                        // everything processed so far is visited
                        assert forall|j: int|
                            0 <= j < qi + 1 implies vis1.contains(#[trigger] q1[j]) by {
                            if j < qi {
                                assert(q1[j] == q0[j]);
                                assert(vis0.contains(q0[j]));
                                let w = choose|w: int| 0 <= w < vis0.len() && vis0[w] == q0[j];
                                assert(vis1[w] == q0[j]);
                            } else {
                                assert(q1[j] == kk);
                                assert(vis1[vis0.len() as int] == kk);
                            }
                        }
                        // the visited list stays duplicate-free
                        assert(!vis0.contains(kk));
                        assert forall|a: int, b: int| 0 <= a < b < vis1.len() implies vis1[a]
                            != vis1[b] by {
                            if b < vis0.len() {
                                assert(vis1[a] == vis0[a] && vis1[b] == vis0[b]);
                            } else {
                                assert(vis1[b] == kk);
                                assert(vis1[a] == vis0[a]);
                                assert(vis0.contains(vis0[a]));
                            }
                        }
                        // visited keys exist and are reachable
                        assert forall|j: int|
                            0 <= j < vis1.len() implies m.has_key(#[trigger] vis1[j]) && reaches(
                            *m,
                            entry_key@,
                            vis1[j],
                        ) by {
                            if j < vis0.len() {
                                assert(vis1[j] == vis0[j]);
                            } else {
                                assert(vis1[j] == kk);
                            }
                        }
                        // import steps out of visited keys stay enqueued
                        assert forall|a: Seq<char>, b: Seq<char>|
                            vis1.contains(a) && step_ok(*m, a, b) implies q1.contains(b) by {
                            let w = choose|w: int| 0 <= w < vis1.len() && vis1[w] == a;
                            if w < vis0.len() {
                                assert(vis0[w] == a);
                                assert(vis0.contains(a));
                                assert(q0.contains(b));
                                let u = choose|u: int| 0 <= u < q0.len() && q0[u] == b;
                                assert(q1[u] == b);
                            } else {
                                assert(a == kk);
                                let w2 = choose|w2: int|
                                    0 <= w2 < m.entries.len() && m.entries[w2].key@ == a
                                        && m.entries[w2].imports.deep_view().contains(b);
                                assert(w2 == i as int);
                                let u = choose|u: int| 0 <= u < imps.len() && imps[u] == b;
                                assert(q1[q0.len() + u] == b);
                            }
                        }
                        // the first visit put the entry's own script first
                        if qi == 0 {
                            assert(f0.len() == 0);
                            assert(!f0.contains(e.file@));
                            assert(f1.contains(e.file@));
                            assert(f1.len() >= 1);
                            assert(f1.contains(f1[0]));
                            assert(f1[0] == e.file@);
                        }
                        // every visited module's outputs are in the file list
                        assert forall|j: int|
                            0 <= j < vis1.len() implies module_outputs_in(
                            *m,
                            #[trigger] vis1[j],
                            f3,
                        ) by {
                            if j < vis0.len() {
                                assert(vis1[j] == vis0[j]);
                                assert(module_outputs_in(*m, vis0[j], f0));
                                if m.has_key(vis0[j]) {
                                    let e2 = m.entry_for(vis0[j]);
                                    assert(f3.contains(e2.file@));
                                    assert forall|t: int|
                                        0 <= t < e2.css.len() implies f3.contains(
                                        #[trigger] e2.css[t]@,
                                    ) by {
                                        assert(f0.contains(e2.css[t]@));
                                    }
                                    assert forall|t: int|
                                        0 <= t < e2.assets.len() implies f3.contains(
                                        #[trigger] e2.assets[t]@,
                                    ) by {
                                        assert(f0.contains(e2.assets[t]@));
                                    }
                                }
                            } else {
                                assert(vis1[j] == kk);
                                assert(m.entry_for(kk) == e);
                                assert(f1.contains(e.file@));
                                assert(f3.contains(e.file@));
                                assert forall|t: int|
                                    0 <= t < e.css.len() implies f3.contains(
                                    #[trigger] e.css[t]@,
                                ) by {
                                    assert(f2.contains(e.css@[t]@));
                                }
                                assert forall|t: int|
                                    0 <= t < e.assets.len() implies f3.contains(
                                    #[trigger] e.assets[t]@,
                                ) by {
                                    assert(f3.contains(e.assets@[t]@));
                                }
                            }
                        }
                        // every emitted file is an output of a reachable module
                        assert forall|x: Seq<char>|
                            f3.contains(x) implies output_of_reachable(*m, entry_key@, x) by {
                            if f0.contains(x) {
                            } else {
                                if x == e.file@ {
                                    assert(is_output_of(e, x));
                                } else if e.css.deep_view().contains(x) {
                                    assert(is_output_of(e, x));
                                } else {
                                    assert(f3.contains(x) ==> (f2.contains(x)
                                        || e.assets.deep_view().contains(x)));
                                    assert(f2.contains(x) ==> (f1.contains(x)
                                        || e.css.deep_view().contains(x)));
                                    assert(f1.contains(x) ==> (f0.contains(x) || x == e.file@));
                                    assert(e.assets.deep_view().contains(x));
                                    assert(is_output_of(e, x));
                                }
                                assert(reaches(*m, entry_key@, kk) && m.has_key(kk)
                                    && is_output_of(m.entry_for(kk), x));
                            }
                        }
                        lemma_visited_bounded(*m, vis1);
                        // one unfolding of the traversal matches this visit
                        assert(outputs_of(e) =~= (seq![e.file@] + e.css.deep_view())
                            + e.assets.deep_view());
                        lemma_push_new_concat(
                            f0,
                            seq![e.file@] + e.css.deep_view(),
                            e.assets.deep_view(),
                        );
                        lemma_push_new_concat(f0, seq![e.file@], e.css.deep_view());
                        assert(seq![e.file@].drop_first() =~= Seq::<Seq<char>>::empty());
                        assert(seq![e.file@][0] == e.file@);
                        assert(push_new(push_one(f0, e.file@), Seq::<Seq<char>>::empty())
                            == push_one(f0, e.file@));
                        assert(push_new(f0, seq![e.file@]) == push_one(f0, e.file@));
                        assert(f1 == push_one(f0, e.file@));
                        assert(f2 == push_new(f1, e.css.deep_view()));
                        assert(f3 == push_new(f2, e.assets.deep_view()));
                        assert(push_new(f0, outputs_of(e)) == f3);
                        assert(!vis0.contains(kk));
                        assert(q0[qi as int] == kk);
                        assert(m.entry_for(kk) == e);
                        assert(traversal_files(*m, q0, qi as int, vis0, f0) == traversal_files(
                            *m,
                            q0 + e.imports.deep_view(),
                            qi + 1,
                            vis0.push(kk),
                            push_new(f0, outputs_of(e)),
                        ));
                        assert(vis1 == vis0.push(kk));
                        assert(traversal_files(*m, q1, qi + 1, vis1, f3) == traversal_files(
                            *m,
                            q0,
                            qi as int,
                            vis0,
                            f0,
                        ));
                    }
                    qi = qi + 1;
                },
            }
        }
    }

    proof {
        let vis = visited.deep_view();
        let q = queue.deep_view();
        // the queue is exhausted, so the visited set is closed under imports
        assert forall|a: Seq<char>, b: Seq<char>|
            vis.contains(a) && step_ok(*m, a, b) implies vis.contains(b) by {
            assert(q.contains(b));
            let u = choose|u: int| 0 <= u < q.len() && q[u] == b;
            assert(vis.contains(q[u]));
        }
        assert(vis.contains(q[0]));
        // hence everything reachable was visited, and so exists
        assert forall|x: Seq<char>| reaches(*m, entry_key@, x) implies m.has_key(x) by {
            let p = choose|p: Seq<Seq<char>>| is_import_path_between(*m, p, entry_key@, x);
            lemma_path_closed(*m, vis, p);
            assert(vis.contains(x));
            let w = choose|w: int| 0 <= w < vis.len() && vis[w] == x;
        }
        assert(m.entry_for(entry_key@) == m.entries[ei as int]);
        assert(resolvable(*m, entry_key@));
        // the work queue is exhausted, so the traversal has delivered
        assert(traversal_files(*m, q, qi as int, vis, files.deep_view()) == files.deep_view());
        assert(files.deep_view() == traversal_files(
            *m,
            seq![entry_key@],
            0,
            Seq::<Seq<char>>::empty(),
            Seq::<Seq<char>>::empty(),
        ));
    }
    let ghost loop_files = files.deep_view();
    let ghost vis_final = visited.deep_view();
    files.push(String::from_str("favicon.ico"));
    files.push(String::from_str("index.html"));
    proof {
        let fs = files.deep_view();
        assert(fs =~= loop_files.push("favicon.ico"@).push("index.html"@));
        assert(fs.take(fs.len() - 2) =~= loop_files);
        assert(fs =~= loop_files + seq!["favicon.ico"@, "index.html"@]);
        assert(fs == resolved_file_list(*m, entry_key@));
        assert(entry_css.deep_view() =~= m.entries[ei as int].css.deep_view());
        assert forall|kx: Seq<char>|
            reaches(*m, entry_key@, kx) implies module_outputs_in(*m, kx, loop_files) by {
            let p = choose|p: Seq<Seq<char>>| is_import_path_between(*m, p, entry_key@, kx);
            lemma_path_closed(*m, vis_final, p);
            let w = choose|w: int| 0 <= w < vis_final.len() && vis_final[w] == kx;
            assert(module_outputs_in(*m, vis_final[w], loop_files));
        }
    }
    Ok(Resolution { files, entry_file, entry_css })
}

} // verus!
