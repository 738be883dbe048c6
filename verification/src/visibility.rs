//! Which files are public: the keys under which that is stored, and the statements that store it.

use vstd::prelude::*;

use crate::paths::{
    components, law_normal_form_of_plain_request, law_normalize_is_stable, law_path_of_names,
    lemma_names, lemma_names_concat, lemma_no_names, names, normalize_path, normalized,
    path_components, path_starts_with, part_views, Component, Part,
};
use crate::sql::{selection, statement, statement_views, truth, ParamView, Statement, StatementView};
use crate::storage::{law_plain_request_follows_its_names, resolved};
use crate::text::{
    cat, join, join_with, lemma_texts_push, replace_char, same, strip_all, strip_all_prefix,
    swapped, texts,
};

verus! {

// ---------------------------------------------------------------------------
// Single paths
// ---------------------------------------------------------------------------

/// The statement that counts the public marks of a path.
pub open spec fn public_query(rel: Seq<char>) -> StatementView {
    statement(
        "SELECT COUNT(*) FROM file_visibilities WHERE file_path=? AND is_public=1"@,
        seq![ParamView::Text(normalized(rel))],
    )
}

/// The statement that counts the public marks of a path.
pub fn is_public_statement(rel: &str) -> (r: Statement)
    ensures
        r@ == public_query(rel@),
{
    let r = Statement::new("SELECT COUNT(*) FROM file_visibilities WHERE file_path=? AND is_public=1").text(
        normalize_path(rel).as_str(),
    );
    assert(r@ =~= public_query(rel@));
    r
}

/// A count of public marks, missing if the database failed, makes a path public.
pub open spec fn marked(count: Option<i64>) -> bool {
    match count {
        Some(n) => n > 0,
        None => false,
    }
}

/// Whether a count of public marks, missing if the database failed, makes a path public.
pub fn is_public(count: Option<i64>) -> (r: bool)
    ensures
        r == marked(count),
        r == (count matches Some(n) && n > 0),
{
    match count {
        Some(n) => n > 0,
        None => false,
    }
}

/// The statement that marks a path.
pub open spec fn upsert(rel: Seq<char>, public: bool) -> StatementView {
    statement(
        "INSERT INTO file_visibilities (file_path,is_public) VALUES (?,?) ON CONFLICT(file_path) DO UPDATE SET is_public=excluded.is_public"@,
        seq![ParamView::Text(normalized(rel)), truth(public)],
    )
}

/// The statement that marks a path.
pub fn upsert_visibility(rel: &str, public: bool) -> (r: Statement)
    ensures
        r@ == upsert(rel@, public),
{
    let r = Statement::new(
        "INSERT INTO file_visibilities (file_path,is_public) VALUES (?,?) ON CONFLICT(file_path) DO UPDATE SET is_public=excluded.is_public",
    ).text(normalize_path(rel).as_str()).flag(public);
    assert(r@ =~= upsert(rel@, public));
    r
}

/// A mark is looked up under the key that it was set under: it is found for the path that was
/// marked, and for another exactly if the two have one normal form.
pub proof fn law_marks_are_found_again(rel: Seq<char>, other: Seq<char>, public: bool)
    ensures
        upsert(rel, public).params[0] == public_query(rel).params[0],
        upsert(rel, public).params[0] == public_query(other).params[0] <==> normalized(rel) == normalized(
            other,
        ),
        public ==> upsert(rel, public).params[1] == ParamView::Int(1),
        !public ==> upsert(rel, public).params[1] == ParamView::Int(0),
{
}

// ---------------------------------------------------------------------------
// Trees
// ---------------------------------------------------------------------------

/// The values that select a path and everything below it.
pub open spec fn tree_params(rel: Seq<char>) -> Seq<ParamView> {
    seq![ParamView::Text(normalized(rel)), ParamView::Text(normalized(rel) + "/%"@)]
}

/// The statement that forgets the marks of a path and of everything below it.
pub open spec fn delete_tree(rel: Seq<char>) -> StatementView {
    statement(
        "DELETE FROM file_visibilities WHERE file_path=? OR file_path LIKE ?"@,
        tree_params(rel),
    )
}

/// The statement that forgets the marks of a path and of everything below it.
pub fn delete_visibility_tree(rel: &str) -> (r: Statement)
    ensures
        r@ == delete_tree(rel@),
{
    let n = normalize_path(rel);
    let pat = cat(n.as_str(), "/%");
    let r = Statement::new("DELETE FROM file_visibilities WHERE file_path=? OR file_path LIKE ?").text(
        n.as_str(),
    ).text(pat.as_str());
    assert(r@ =~= delete_tree(rel@));
    r
}

/// The statement that reads the marks of a path and of everything below it.
pub open spec fn select_tree(rel: Seq<char>) -> StatementView {
    statement(
        "SELECT file_path,is_public FROM file_visibilities WHERE file_path=? OR file_path LIKE ?"@,
        tree_params(rel),
    )
}

/// The statement that reads the marks of a path and of everything below it.
pub fn visibility_tree(rel: &str) -> (r: Statement)
    ensures
        r@ == select_tree(rel@),
{
    let n = normalize_path(rel);
    let pat = cat(n.as_str(), "/%");
    let r = Statement::new(
        "SELECT file_path,is_public FROM file_visibilities WHERE file_path=? OR file_path LIKE ?",
    ).text(n.as_str()).text(pat.as_str());
    assert(r@ =~= select_tree(rel@));
    r
}

/// The path that `old` has after `src` has become `dst`.
pub open spec fn rebased(old: Seq<char>, src: Seq<char>, dst: Seq<char>) -> Seq<char> {
    if old == src {
        dst
    } else {
        dst + strip_all(old, src)
    }
}

/// The path that `old` has after `src` has become `dst`.
fn rebase(old: &str, src: &str, dst: &str) -> (r: String)
    ensures
        r@ == rebased(old@, src@, dst@),
{
    if same(old, src) {
        dst.to_owned()
    } else {
        cat(dst, strip_all_prefix(old, src).as_str())
    }
}

/// What is at or below the old path keeps its place relative to the new one, unless the old path
/// stands at the start of that place again.
pub proof fn law_rebase_keeps_the_place(src: Seq<char>, dst: Seq<char>, place: Seq<char>)
    requires
        src.len() > 0,
        !src.is_prefix_of(place),
    ensures
        rebased(src + place, src, dst) == dst + place,
{
    let old = src + place;
    assert(old.subrange(0, src.len() as int) =~= src);
    assert(src.is_prefix_of(old));
    assert(old.skip(src.len() as int) =~= place);
    assert(strip_all(place, src) == place);
    assert(strip_all(old, src) == place);
    if old == src {
        assert(place =~= Seq::<char>::empty());
        assert(dst + place =~= dst);
    }
}

/// The statements that give what was copied the marks of what it was copied from: one for each
/// mark, in order.
pub open spec fn copies(src: Seq<char>, dst: Seq<char>, marks: Seq<(String, i64)>) -> Seq<StatementView> {
    marks.map_values(
        |m: (String, i64)| upsert(rebased(m.0@, normalized(src), normalized(dst)), m.1 != 0),
    )
}

/// The statements that give what was copied the marks of what it was copied from.
pub fn copy_visibility(src: &str, dst: &str, marks: &Vec<(String, i64)>) -> (r: Vec<Statement>)
    ensures
        statement_views(r@) == copies(src@, dst@, marks@),
{
    let sn = normalize_path(src);
    let dn = normalize_path(dst);
    let mut out: Vec<Statement> = Vec::new();
    let mut i: usize = 0;
    while i < marks.len()
        invariant
            i <= marks@.len(),
            sn@ == normalized(src@),
            dn@ == normalized(dst@),
            out@.len() == i,
            forall|j: int|
                0 <= j < i ==> (#[trigger] out@[j])@ == upsert(
                    rebased(marks@[j].0@, normalized(src@), normalized(dst@)),
                    marks@[j].1 != 0,
                ),
        decreases marks.len() - i,
    {
        let newp = rebase(marks[i].0.as_str(), sn.as_str(), dn.as_str());
        out.push(upsert_visibility(newp.as_str(), marks[i].1 != 0));
        i = i + 1;
    }
    assert(statement_views(out@) =~= copies(src@, dst@, marks@));
    out
}

/// The statements that hand the marks of what was moved on: those of a copy, then the removal of
/// the old marks.
pub open spec fn migration(src: Seq<char>, dst: Seq<char>, marks: Seq<(String, i64)>) -> Seq<StatementView> {
    copies(src, dst, marks).push(delete_tree(src))
}

/// The statements that hand the marks of what was moved on: those of a copy, then the removal of
/// the old marks.
pub fn migrate_visibility(src: &str, dst: &str, marks: &Vec<(String, i64)>) -> (r: Vec<Statement>)
    ensures
        statement_views(r@) == migration(src@, dst@, marks@),
        statement_views(r@) == copies(src@, dst@, marks@).push(delete_tree(src@)),
{
    let mut out = copy_visibility(src, dst, marks);
    let ghost was = out@;
    out.push(delete_visibility_tree(src));
    assert(statement_views(out@) =~= statement_views(was).push(delete_tree(src@)));
    out
}

// ---------------------------------------------------------------------------
// Keys of files on disk
// ---------------------------------------------------------------------------

/// The names among components.
pub open spec fn part_names(parts: Seq<Part>) -> Seq<Seq<char>>
    decreases parts.len(),
{
    if parts.len() == 0 {
        Seq::<Seq<char>>::empty()
    } else {
        match parts.last() {
            Part::Name(n) => part_names(parts.drop_last()).push(n),
            _ => part_names(parts.drop_last()),
        }
    }
}

/// The request path of a file on disk below the root: the names after those of the root.
pub open spec fn key_below(root: Seq<char>, path: Seq<char>) -> Seq<char> {
    swapped(
        seq!['/'] + join(part_names(components(path).skip(components(root).len() as int)), '/'),
        '\\',
        '/',
    )
}

/// The request path of a file on disk, if it is below the root.
pub fn relative_key(root: &str, path: &str) -> (r: Option<String>)
    ensures
        match r {
            Some(k) => components(root@).is_prefix_of(components(path@)) && k@ == key_below(root@, path@),
            None => !components(root@).is_prefix_of(components(path@)),
        },
{
    if !path_starts_with(path, root) {
        return None;
    }
    let base = path_components(root);
    let comps = path_components(path);
    let ghost all = components(path@);
    let n: usize = base.len();
    let mut names: Vec<String> = Vec::new();
    let mut i: usize = n;
    proof {
        assert(part_views(base@).len() == base@.len());
        assert(part_views(comps@).len() == comps@.len());
        assert(all.subrange(n as int, n as int) =~= Seq::<Part>::empty());
        assert(texts(names@) =~= part_names(all.subrange(n as int, n as int)));
    }
    while i < comps.len()
        invariant
            all == part_views(comps@),
            n <= i <= comps@.len(),
            texts(names@) == part_names(all.subrange(n as int, i as int)),
        decreases comps.len() - i,
    {
        proof {
            let t = all.subrange(n as int, i + 1);
            assert(t.drop_last() =~= all.subrange(n as int, i as int));
            assert(t.last() == comps@[i as int]@);
        }
        match &comps[i] {
            Component::Name(name) => {
                proof {
                    lemma_texts_push(names@, *name);
                }
                names.push(name.clone());
            },
            _ => {},
        }
        i = i + 1;
    }
    assert(all.subrange(n as int, all.len() as int) =~= all.skip(n as int));
    let tail = join_with(&names, '/');
    let mut s: String = String::new();
    s.push('/');
    s.append(tail.as_str());
    assert(s@ =~= seq!['/'] + join(texts(names@), '/'));
    Some(replace_char(s.as_str(), '\\', '/'))
}

/// The statements that mark files on disk.
pub open spec fn publishing(root: Seq<char>, paths: Seq<Seq<char>>) -> Seq<StatementView> {
    paths.map_values(|p: Seq<char>| upsert(key_below(root, p), true))
}

/// The statements that mark files on disk public; nothing if one of them is not below the root.
pub fn mark_public(root: &str, paths: &Vec<String>) -> (r: Option<Vec<Statement>>)
    ensures
        match r {
            Some(v) => (forall|i: int|
                0 <= i < paths@.len() ==> components(root@).is_prefix_of(
                    components((#[trigger] paths@[i])@),
                )) && statement_views(v@) == publishing(root@, texts(paths@)),
            None => exists|i: int|
                0 <= i < paths@.len() && !components(root@).is_prefix_of(
                    components((#[trigger] paths@[i])@),
                ),
        },
{
    let mut out: Vec<Statement> = Vec::new();
    let mut i: usize = 0;
    while i < paths.len()
        invariant
            i <= paths@.len(),
            out@.len() == i,
            forall|j: int|
                0 <= j < i ==> components(root@).is_prefix_of(components((#[trigger] paths@[j])@)),
            forall|j: int|
                0 <= j < i ==> (#[trigger] out@[j])@ == upsert(key_below(root@, paths@[j]@), true),
        decreases paths.len() - i,
    {
        match relative_key(root, paths[i].as_str()) {
            Some(k) => {
                out.push(upsert_visibility(k.as_str(), true));
            },
            None => {
                return None;
            },
        }
        i = i + 1;
    }
    assert(statement_views(out@) =~= publishing(root@, texts(paths@)));
    Some(out)
}

/// The names among components that are all names.
pub proof fn lemma_part_names(ns: Seq<Seq<char>>)
    ensures
        part_names(ns.map_values(|n: Seq<char>| Part::Name(n))) == ns,
    decreases ns.len(),
{
    let parts = ns.map_values(|n: Seq<char>| Part::Name(n));
    if ns.len() > 0 {
        lemma_part_names(ns.drop_last());
        assert(parts.drop_last() =~= ns.drop_last().map_values(|n: Seq<char>| Part::Name(n)));
        assert(ns.drop_last().push(ns.last()) =~= ns);
    } else {
        assert(part_names(parts) =~= ns);
    }
}

/// Marking the file that a request without backslashes leads to makes the request's own path
/// public: the mark is stored under the key that is looked up for it.
pub proof fn law_published_path_is_public(root: Seq<char>, rel: Seq<char>)
    requires
        root.len() > 0,
        !rel.contains('\\'),
    ensures
        key_below(root, resolved(root, rel)) == normalized(rel),
        upsert(key_below(root, resolved(root, rel)), true).params[0] == public_query(rel).params[0],
{
    let ns = names(rel);
    law_plain_request_follows_its_names(root, rel);
    law_normal_form_of_plain_request(rel);
    law_normalize_is_stable(rel);
    lemma_part_names(ns);
    let c = components(root);
    assert(components(resolved(root, rel)).skip(c.len() as int) =~= ns.map_values(
        |n: Seq<char>| Part::Name(n),
    ));
}

// ---------------------------------------------------------------------------
// The table of marks
// ---------------------------------------------------------------------------

/// A table of marks after a statement that marks a path has been carried out: the path in its first
/// value has the mark in its second, whether or not it had one before.
pub open spec fn after_mark(marks: Map<Seq<char>, bool>, s: StatementView) -> Map<Seq<char>, bool> {
    marks.insert(s.params[0]->Text_0, s.params[1] == truth(true))
}

/// A table of marks after some such statements, one after the other.
pub open spec fn after_marks(marks: Map<Seq<char>, bool>, ss: Seq<StatementView>) -> Map<Seq<char>, bool>
    decreases ss.len(),
{
    if ss.len() == 0 {
        marks
    } else {
        after_mark(after_marks(marks, ss.drop_last()), ss.last())
    }
}

/// What may have become of a table of marks after a statement that forgets a tree: no mark is new or
/// other than it was, and those of the path in its first value, and of what the pattern in its second
/// starts with, are gone. The pattern may match more.
pub open spec fn forgotten(before: Map<Seq<char>, bool>, after: Map<Seq<char>, bool>, s: StatementView) -> bool {
    &&& after.submap_of(before)
    &&& !after.dom().contains(s.params[0]->Text_0)
    &&& forall|key: Seq<char>| #[trigger]
        after.dom().contains(key) ==> !s.params[1]->Text_0.drop_last().is_prefix_of(key)
}

/// A path is public by a table of marks: the statement that asks for it finds a mark.
pub open spec fn public_in(marks: Map<Seq<char>, bool>, rel: Seq<char>) -> bool {
    let key = public_query(rel).params[0]->Text_0;
    marks.dom().contains(key) && marks[key]
}

/// Marking a path decides whether that path is public, and the paths with the same normal form, and
/// no other.
pub proof fn law_a_mark_decides_its_path(
    marks: Map<Seq<char>, bool>,
    rel: Seq<char>,
    public: bool,
    other: Seq<char>,
)
    ensures
        public_in(after_mark(marks, upsert(rel, public)), other) == if normalized(other) == normalized(
            rel,
        ) {
            public
        } else {
            public_in(marks, other)
        },
{
}

/// Some file on disk among those marked has the key of a path.
pub open spec fn among(root: Seq<char>, paths: Seq<Seq<char>>, rel: Seq<char>) -> bool {
    exists|i: int|
        0 <= i < paths.len() && normalized(key_below(root, #[trigger] paths[i])) == normalized(rel)
}

/// After files on disk have been marked, a path is public if it is that of one of them, and otherwise
/// if it was public before: what comes into a folder later is not.
pub proof fn law_marked_files_are_public(
    marks: Map<Seq<char>, bool>,
    root: Seq<char>,
    paths: Seq<Seq<char>>,
    rel: Seq<char>,
)
    ensures
        public_in(after_marks(marks, publishing(root, paths)), rel) <==> among(root, paths, rel) || public_in(
            marks,
            rel,
        ),
    decreases paths.len(),
{
    let ss = publishing(root, paths);
    if paths.len() > 0 {
        let front = paths.drop_last();
        let last = paths.last();
        law_marked_files_are_public(marks, root, front, rel);
        assert(ss.drop_last() =~= publishing(root, front));
        assert(ss.last() == upsert(key_below(root, last), true));
        law_a_mark_decides_its_path(
            after_marks(marks, publishing(root, front)),
            key_below(root, last),
            true,
            rel,
        );
        if among(root, front, rel) {
            let i = choose|i: int|
                0 <= i < front.len() && normalized(key_below(root, #[trigger] front[i])) == normalized(rel);
            assert(paths[i] == front[i]);
        }
        if among(root, paths, rel) {
            let i = choose|i: int|
                0 <= i < paths.len() && normalized(key_below(root, #[trigger] paths[i])) == normalized(rel);
            if i < front.len() {
                assert(front[i] == paths[i]);
            }
        }
        assert(paths[paths.len() - 1] == last);
    }
}

/// A request without backslashes for a file that was marked is one for a public file.
pub proof fn law_published_file_is_public(
    marks: Map<Seq<char>, bool>,
    root: Seq<char>,
    paths: Seq<Seq<char>>,
    rel: Seq<char>,
    i: int,
)
    requires
        root.len() > 0,
        !rel.contains('\\'),
        0 <= i < paths.len(),
        components(paths[i]) == components(resolved(root, rel)),
    ensures
        public_in(after_marks(marks, publishing(root, paths)), rel),
{
    law_published_path_is_public(root, rel);
    law_normal_form_of_plain_request(rel);
    law_normalize_is_stable(rel);
    assert(key_below(root, paths[i]) == key_below(root, resolved(root, rel)));
    law_marked_files_are_public(marks, root, paths, rel);
}

proof fn lemma_join_concat(a: Seq<Seq<char>>, b: Seq<Seq<char>>)
    requires
        a.len() > 0,
        b.len() > 0,
    ensures
        join(a + b, '/') == join(a, '/').push('/') + join(b, '/'),
    decreases b.len(),
{
    let ab = a + b;
    assert(ab.last() == b.last());
    assert(ab.drop_last() =~= a + b.drop_last());
    if b.len() == 1 {
        assert(a + b.drop_last() =~= a);
        assert(join(b, '/') == b.last());
    } else {
        lemma_join_concat(a, b.drop_last());
        assert(join(ab, '/') =~= join(a, '/').push('/') + join(b, '/'));
    }
}

/// After the marks of a path have been forgotten, neither it nor anything below it is public, if it is
/// not the root and neither holds a backslash.
pub proof fn law_forgotten_tree_is_not_public(
    before: Map<Seq<char>, bool>,
    after: Map<Seq<char>, bool>,
    rel: Seq<char>,
    below: Seq<char>,
)
    requires
        forgotten(before, after, delete_tree(rel)),
        !rel.contains('\\'),
        !below.contains('\\'),
        names(rel).len() > 0,
        names(rel).is_prefix_of(names(below)),
    ensures
        !public_in(after, below),
{
    law_normal_form_of_plain_request(rel);
    law_normal_form_of_plain_request(below);
    let a = names(rel);
    let b = names(below).skip(a.len() as int);
    let n = normalized(rel);
    reveal_strlit("/%");
    assert(names(below) =~= a + b);
    assert((n + "/%"@).drop_last() =~= n.push('/'));
    if b.len() == 0 {
        assert(names(below) =~= a);
    } else {
        lemma_join_concat(a, b);
        assert(normalized(below) =~= n.push('/') + join(b, '/'));
        assert(normalized(below).subrange(0, n.len() as int + 1) =~= n.push('/'));
        assert(n.push('/').is_prefix_of(normalized(below)));
    }
}

/// A statement on a tree selects a key: it is the first value, or it starts with the second without the
/// `%` at its end.
pub open spec fn selects(s: StatementView, key: Seq<char>) -> bool {
    key == s.params[0]->Text_0 || s.params[1]->Text_0.drop_last().is_prefix_of(key)
}

/// A plain path and its normal form have the same names.
proof fn lemma_normal_form_names(p: Seq<char>)
    requires
        !p.contains('\\'),
    ensures
        names(normalized(p)) == names(p),
        normalized(p) == seq!['/'] + join(names(p), '/'),
{
    law_normal_form_of_plain_request(p);
    lemma_names(p);
    let ns = names(p);
    if ns.len() > 0 {
        law_path_of_names(ns);
    } else {
        let e = Seq::<char>::empty();
        lemma_no_names();
        assert(seq!['/'] + join(ns, '/') =~= e + seq!['/'] + e);
        lemma_names_concat(e, e);
        assert(names(normalized(p)) =~= ns);
    }
}

/// The statements that read and that forget the marks of a path select the same keys: that of the path
/// and those of everything below it, and no other, if the path is not the root and no backslash is held.
pub proof fn law_tree_is_what_lies_below(rel: Seq<char>, other: Seq<char>)
    requires
        !rel.contains('\\'),
        !other.contains('\\'),
        names(rel).len() > 0,
    ensures
        selects(select_tree(rel), normalized(other)) <==> names(rel).is_prefix_of(names(other)),
        selects(delete_tree(rel), normalized(other)) <==> names(rel).is_prefix_of(names(other)),
        select_tree(rel).params.len() == 2,
        select_tree(rel).params[0] == ParamView::Text(normalized(rel)),
        select_tree(rel).params[1]->Text_0.last() == '%',
        delete_tree(rel).params == select_tree(rel).params,
{
    let n = normalized(rel);
    let k = normalized(other);
    let a = names(rel);
    lemma_normal_form_names(rel);
    lemma_normal_form_names(other);
    reveal_strlit("/%");
    assert((n + "/%"@).drop_last() =~= n.push('/'));
    assert((n + "/%"@).last() == '%');
    if a.is_prefix_of(names(other)) {
        let b = names(other).skip(a.len() as int);
        assert(names(other) =~= a + b);
        if b.len() == 0 {
            assert(names(other) =~= a);
        } else {
            lemma_join_concat(a, b);
            assert(k =~= n.push('/') + join(b, '/'));
            assert(k.subrange(0, n.len() as int + 1) =~= n.push('/'));
        }
    }
    if n.push('/').is_prefix_of(k) {
        let t = k.skip(n.len() as int + 1);
        assert(k =~= n + seq!['/'] + t) by {
            assert(k.subrange(0, n.len() as int + 1) == n.push('/'));
            assert(k =~= k.subrange(0, n.len() as int + 1) + t);
        }
        lemma_names_concat(n, t);
        assert((a + names(t)).subrange(0, a.len() as int) =~= a);
    }
}

/// Where two plain paths are put together, so are the names in the normal form.
proof fn lemma_normal_form_below(dir: Seq<char>, tail: Seq<char>)
    requires
        !dir.contains('\\'),
        !tail.contains('\\'),
    ensures
        !(dir + seq!['/'] + tail).contains('\\'),
        names(dir + seq!['/'] + tail) == names(dir) + names(tail),
        normalized(dir + seq!['/'] + tail) == seq!['/'] + join(names(dir) + names(tail), '/'),
{
    let p = dir + seq!['/'] + tail;
    assert forall|i: int| 0 <= i < p.len() implies p[i] != '\\' by {
        if i < dir.len() {
            assert(p[i] == dir[i]);
        } else if i > dir.len() {
            assert(p[i] == tail[i - dir.len() - 1]);
        }
    }
    lemma_names_concat(dir, tail);
    lemma_normal_form_names(p);
}

/// The normal form of a plain path holds no backslash.
proof fn lemma_normal_form_plain(p: Seq<char>)
    ensures
        !normalized(p).contains('\\'),
{
    let q = seq!['/'] + join(names(p), '/');
    assert forall|i: int| 0 <= i < normalized(p).len() implies normalized(p)[i] != '\\' by {
        assert(normalized(p)[i] == swapped(q, '\\', '/')[i]);
    }
}

/// A mark of what lies at or below a path becomes one with the same flag at the same place below the new
/// path, unless the old path stands at the start of that place again: one statement for each mark, in
/// order.
pub proof fn law_marks_follow_what_is_copied(
    src: Seq<char>,
    dst: Seq<char>,
    marks: Seq<(String, i64)>,
    i: int,
    tail: Seq<char>,
)
    requires
        !src.contains('\\'),
        !dst.contains('\\'),
        !tail.contains('\\'),
        names(src).len() > 0,
        0 <= i < marks.len(),
        marks[i].0@ == normalized(src + seq!['/'] + tail),
        !normalized(src).is_prefix_of(normalized(tail)),
    ensures
        copies(src, dst, marks).len() == marks.len(),
        copies(src, dst, marks)[i].params == seq![
            ParamView::Text(normalized(dst + seq!['/'] + tail)),
            ParamView::Int(
                if marks[i].1 != 0 {
                    1
                } else {
                    0
                },
            ),
        ],
{
    let s = normalized(src);
    let d = normalized(dst);
    let k = marks[i].0@;
    let t = names(tail);
    let j = normalized(tail);
    lemma_normal_form_below(src, tail);
    lemma_normal_form_below(dst, tail);
    lemma_normal_form_names(src);
    lemma_normal_form_names(dst);
    lemma_normal_form_names(tail);
    lemma_normal_form_plain(dst);
    let new = rebased(k, s, d);
    if t.len() == 0 {
        assert(names(src) + t =~= names(src));
        assert(names(dst) + t =~= names(dst));
        assert(k == s);
        law_normalize_is_stable(dst);
        lemma_normal_form_names(d);
        assert(normalized(new) == normalized(dst + seq!['/'] + tail));
    } else {
        lemma_join_concat(names(src), t);
        assert(k =~= s + j);
        law_rebase_keeps_the_place(s, d, j);
        assert(new == d + j);
        let jj = join(t, '/');
        assert(d + j =~= d + seq!['/'] + jj);
        lemma_normal_form_plain(tail);
        assert(j.skip(1) =~= jj);
        assert(!jj.contains('\\')) by {
            assert forall|x: int| 0 <= x < jj.len() implies jj[x] != '\\' by {
                assert(jj[x] == j[x + 1]);
            }
        }
        lemma_normal_form_below(d, jj);
        lemma_names(tail);
        law_path_of_names(t);
        assert(normalized(new) == normalized(dst + seq!['/'] + tail));
    }
    assert(copies(src, dst, marks)[i] == upsert(new, marks[i].1 != 0));
    assert(copies(src, dst, marks)[i].params =~= seq![
        ParamView::Text(normalized(dst + seq!['/'] + tail)),
        ParamView::Int(
            if marks[i].1 != 0 {
                1
            } else {
                0
            },
        ),
    ]);
}

/// Moving copies the marks and then forgets those of the old path, by the values that they were read by.
pub proof fn law_move_is_copy_and_forget(src: Seq<char>, dst: Seq<char>, marks: Seq<(String, i64)>)
    ensures
        migration(src, dst, marks).len() == marks.len() + 1,
        migration(src, dst, marks).drop_last() == copies(src, dst, marks),
        migration(src, dst, marks).last() == delete_tree(src),
        migration(src, dst, marks).last().params == select_tree(src).params,
{
    assert(migration(src, dst, marks).drop_last() =~= copies(src, dst, marks));
}

/// What a table holds under a key after some statements is what the last of them that names the key has
/// stored.
proof fn lemma_last_mark_counts(marks: Map<Seq<char>, bool>, ss: Seq<StatementView>, i: int)
    requires
        0 <= i < ss.len(),
        forall|j: int| i < j < ss.len() ==> (#[trigger] ss[j]).params[0]->Text_0 != ss[i].params[0]->Text_0,
    ensures
        after_marks(marks, ss).dom().contains(ss[i].params[0]->Text_0),
        after_marks(marks, ss)[ss[i].params[0]->Text_0] == (ss[i].params[1] == ParamView::Int(1)),
    decreases ss.len(),
{
    let front = ss.drop_last();
    if i < front.len() {
        assert forall|j: int| i < j < front.len() implies (#[trigger] front[j]).params[0]->Text_0
            != front[i].params[0]->Text_0 by {
            assert(front[j] == ss[j]);
            assert(front[i] == ss[i]);
        }
        lemma_last_mark_counts(marks, front, i);
        assert(ss[ss.len() - 1].params[0]->Text_0 != ss[i].params[0]->Text_0);
    }
}

/// After the marks of a path were copied, what lies below the new path is public exactly if what lies at
/// the same place below the old one is marked public.
pub proof fn law_copied_files_are_as_public(
    table: Map<Seq<char>, bool>,
    src: Seq<char>,
    dst: Seq<char>,
    marks: Seq<(String, i64)>,
    i: int,
    tail: Seq<char>,
)
    requires
        !src.contains('\\'),
        !dst.contains('\\'),
        !tail.contains('\\'),
        names(src).len() > 0,
        0 <= i < marks.len(),
        marks[i].0@ == normalized(src + seq!['/'] + tail),
        !normalized(src).is_prefix_of(normalized(tail)),
        forall|j: int|
            i < j < marks.len() ==> (#[trigger] copies(src, dst, marks)[j]).params[0] != copies(
                src,
                dst,
                marks,
            )[i].params[0],
    ensures
        public_in(after_marks(table, copies(src, dst, marks)), dst + seq!['/'] + tail) == (marks[i].1 != 0),
{
    let ss = copies(src, dst, marks);
    law_marks_follow_what_is_copied(src, dst, marks, i, tail);
    assert forall|j: int| i < j < ss.len() implies (#[trigger] ss[j]).params[0]->Text_0
        != ss[i].params[0]->Text_0 by {
        assert(ss[j].params[0] != ss[i].params[0]);
        assert(ss[j].params[0] is Text);
    }
    lemma_last_mark_counts(table, ss, i);
}

/// Whatever a path is marked as, a mark of it decides whether a path is public by the normal form alone.
pub proof fn law_marks_go_by_the_normal_form(
    marks: Map<Seq<char>, bool>,
    rel: Seq<char>,
    other: Seq<char>,
    public: bool,
)
    requires
        !rel.contains('\\'),
        !other.contains('\\'),
    ensures
        names(rel) == names(other) ==> public_in(after_mark(marks, upsert(rel, public)), other) == public,
        names(rel) != names(other) ==> public_in(after_mark(marks, upsert(rel, public)), other) == public_in(
            marks,
            other,
        ),
{
    lemma_normal_form_names(rel);
    lemma_normal_form_names(other);
    law_a_mark_decides_its_path(marks, rel, public, other);
}

/// One mark is enough to make a path public, and without a count it is not.
pub proof fn law_one_mark_is_enough(n: i64)
    ensures
        marked(Some(n)) <==> n >= 1,
        !marked(None),
{
}

/// A mark is stored in the two columns of its table, and replaces the mark that the path has.
pub proof fn law_marks_are_replaced(rel: Seq<char>, public: bool)
    ensures
        upsert(rel, public).sql == "INSERT INTO "@ + "file_visibilities"@ + " (file_path,is_public)"@
            + " VALUES (?,?)"@ + " ON CONFLICT(file_path) DO UPDATE SET is_public=excluded.is_public"@,
        upsert(rel, public).params == seq![
            ParamView::Text(normalized(rel)),
            ParamView::Int(
                if public {
                    1
                } else {
                    0
                },
            ),
        ],
{
    reveal_strlit("INSERT INTO ");
    reveal_strlit("file_visibilities");
    reveal_strlit(" (file_path,is_public)");
    reveal_strlit(" VALUES (?,?)");
    reveal_strlit(" ON CONFLICT(file_path) DO UPDATE SET is_public=excluded.is_public");
    reveal_strlit(
        "INSERT INTO file_visibilities (file_path,is_public) VALUES (?,?) ON CONFLICT(file_path) DO UPDATE SET is_public=excluded.is_public",
    );
    assert(upsert(rel, public).sql =~= "INSERT INTO "@ + "file_visibilities"@ + " (file_path,is_public)"@
        + " VALUES (?,?)"@ + " ON CONFLICT(file_path) DO UPDATE SET is_public=excluded.is_public"@);
}

/// Marks are looked up by the path in their table: those that are public for a single path, all of them for a
/// path and what is like the pattern of its tree.
pub proof fn law_marks_are_looked_up(rel: Seq<char>)
    ensures
        public_query(rel).sql == selection("COUNT(*)"@, "file_visibilities"@, "file_path"@)
            + " AND is_public=1"@,
        public_query(rel).params == seq![ParamView::Text(normalized(rel))],
        select_tree(rel).sql == selection("file_path,is_public"@, "file_visibilities"@, "file_path"@)
            + " OR file_path LIKE ?"@,
        delete_tree(rel).sql == "DELETE FROM "@ + "file_visibilities"@ + " WHERE "@ + "file_path"@ + "=?"@
            + " OR file_path LIKE ?"@,
{
    reveal_strlit("SELECT ");
    reveal_strlit("COUNT(*)");
    reveal_strlit("file_path,is_public");
    reveal_strlit(" FROM ");
    reveal_strlit("DELETE FROM ");
    reveal_strlit("file_visibilities");
    reveal_strlit(" WHERE ");
    reveal_strlit("file_path");
    reveal_strlit("=?");
    reveal_strlit(" AND is_public=1");
    reveal_strlit(" OR file_path LIKE ?");
    reveal_strlit("SELECT COUNT(*) FROM file_visibilities WHERE file_path=? AND is_public=1");
    reveal_strlit("SELECT file_path,is_public FROM file_visibilities WHERE file_path=? OR file_path LIKE ?");
    reveal_strlit("DELETE FROM file_visibilities WHERE file_path=? OR file_path LIKE ?");
    assert(public_query(rel).sql =~= selection("COUNT(*)"@, "file_visibilities"@, "file_path"@)
        + " AND is_public=1"@);
    assert(select_tree(rel).sql =~= selection("file_path,is_public"@, "file_visibilities"@, "file_path"@)
        + " OR file_path LIKE ?"@);
    assert(delete_tree(rel).sql =~= "DELETE FROM "@ + "file_visibilities"@ + " WHERE "@ + "file_path"@ + "=?"@
        + " OR file_path LIKE ?"@);
}

} // verus!
