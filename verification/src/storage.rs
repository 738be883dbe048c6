//! The storage root and the paths that requests reach below it.

use vstd::prelude::*;

use crate::paths::{
    absolute, components, danger, is_danger_path, join_path, joined, law_normal_form_is_absolute,
    law_normal_form_of_plain_request, lemma_joined_below, lemma_joined_components, lemma_names,
    lemma_names_concat, lemma_names_of_trimmed, lemma_ordinary_parts, names, normalize_path,
    normalized, ordinary, path_components, path_starts_with, rest_parts, Component, Part,
};
use crate::text::{
    equals, join, lead, lemma_lead, lemma_lead_is, lemma_split_join, split, trim_start,
    trim_start_char,
};

verus! {

/// Why a path is not served.
#[derive(Debug, PartialEq, Eq, Structural, Clone, Copy)]
pub enum PathError {
    /// It leads out of the storage root.
    Traversal,
    /// It lies in a virtual file system.
    Denied,
}

impl PathError {
    /// The message for the client.
    pub fn message(&self) -> (r: String)
        ensures
            r@ == (match *self {
                PathError::Traversal => "invalid path: path traversal detected"@,
                PathError::Denied => "access denied: virtual filesystem path"@,
            }),
    {
        match *self {
            PathError::Traversal => "invalid path: path traversal detected".to_owned(),
            PathError::Denied => "access denied: virtual filesystem path".to_owned(),
        }
    }
}

/// The files below a root directory.
pub struct FileManager {
    pub root: String,
}

/// Where a request path lies on disk.
pub open spec fn resolved(root: Seq<char>, rel: Seq<char>) -> Seq<char> {
    joined(root, trim_start(normalized(rel), '/'))
}

/// Trimming leaves no leading slash.
pub proof fn lemma_trim_start_relative(s: Seq<char>)
    ensures
        !absolute(trim_start(s, '/')),
{
    lemma_lead_is(s, equals('/'));
    let n = lead(s, equals('/')) as int;
    if n < s.len() {
        assert(s.skip(n)[0] == s[n]);
    }
}

/// The path on disk of whatever a request asks for starts with the components of the root. What
/// follows them may still be `..` where the request holds a backslash.
pub proof fn law_resolved_below_root(root: Seq<char>, rel: Seq<char>)
    ensures
        components(root).is_prefix_of(components(resolved(root, rel))),
{
    lemma_trim_start_relative(normalized(rel));
    lemma_joined_below(root, trim_start(normalized(rel), '/'));
}

/// A request without backslashes lies where its names lead from the root; `.` and `..` lead
/// nowhere.
pub proof fn law_plain_request_follows_its_names(root: Seq<char>, rel: Seq<char>)
    requires
        root.len() > 0,
        !rel.contains('\\'),
    ensures
        components(resolved(root, rel)) == components(root) + names(rel).map_values(
            |n: Seq<char>| Part::Name(n),
        ),
{
    let q = normalized(rel);
    let ns = names(rel);
    let j = join(ns, '/');
    law_normal_form_of_plain_request(rel);
    lemma_names(rel);
    lemma_trim_start_relative(q);
    if ns.len() > 0 {
        lemma_split_join(ns, '/');
        assert(ordinary(ns[0]));
        assert(!ns[0].contains('/'));
        assert(ns[0][0] != '/');
        lemma_join_start(ns);
        assert(q[0] == '/' && q[1] == j[0]);
        lemma_lead(q, equals('/'), 1);
        assert(trim_start(q, '/') =~= j);
        lemma_ordinary_parts(ns);
    } else {
        assert(q =~= seq!['/']);
        lemma_lead(q, equals('/'), 1);
        assert(trim_start(q, '/') =~= Seq::<char>::empty());
        let e = seq![Seq::<char>::empty()];
        assert(split(Seq::<char>::empty(), '/') =~= e);
        reveal_with_fuel(rest_parts, 2);
        assert(e.drop_last() =~= Seq::<Seq<char>>::empty());
        assert(rest_parts(e) =~= ns.map_values(|n: Seq<char>| Part::Name(n)));
    }
    lemma_joined_components(root, trim_start(q, '/'));
}

/// A request for what is in a folder lies below the folder, at the names asked for, if neither
/// holds a backslash.
pub proof fn law_requests_go_down(root: Seq<char>, dir: Seq<char>, tail: Seq<char>)
    requires
        root.len() > 0,
        !dir.contains('\\'),
        !tail.contains('\\'),
    ensures
        components(resolved(root, dir + "/"@ + tail)) == components(resolved(root, dir)) + names(
            tail,
        ).map_values(|n: Seq<char>| Part::Name(n)),
{
    reveal_strlit("/");
    let p = dir + "/"@ + tail;
    assert("/"@ =~= seq!['/']);
    lemma_names_concat(dir, tail);
    assert forall|i: int| 0 <= i < p.len() implies p[i] != '\\' by {
        if i < dir.len() {
            assert(p[i] == dir[i]);
        } else if i > dir.len() {
            assert(p[i] == tail[i - dir.len() - 1]);
        }
    }
    law_plain_request_follows_its_names(root, p);
    law_plain_request_follows_its_names(root, dir);
    let name = |n: Seq<char>| Part::Name(n);
    assert((names(dir) + names(tail)).map_values(name) =~= names(dir).map_values(name) + names(
        tail,
    ).map_values(name));
}

/// Trimming a normal form leaves its names, and adds no backslash.
pub proof fn lemma_trimmed_normal_form(p: Seq<char>)
    ensures
        names(trim_start(normalized(p), '/')) == names(normalized(p)),
        !trim_start(normalized(p), '/').contains('\\'),
{
    let q = normalized(p);
    let t = trim_start(q, '/');
    lemma_names_of_trimmed(q);
    law_normal_form_is_absolute(p);
    lemma_lead_is(q, equals('/'));
    let k = lead(q, equals('/')) as int;
    assert forall|i: int| 0 <= i < t.len() implies t[i] != '\\' by {
        assert(t[i] == q[k + i]);
    }
}

/// A joined text starts with its first piece.
pub proof fn lemma_join_start(pieces: Seq<Seq<char>>)
    requires
        pieces.len() > 0,
        pieces[0].len() > 0,
    ensures
        join(pieces, '/').len() > 0,
        join(pieces, '/')[0] == pieces[0][0],
    decreases pieces.len(),
{
    if pieces.len() > 1 {
        assert(pieces.drop_last()[0] == pieces[0]);
        lemma_join_start(pieces.drop_last());
    }
}

impl FileManager {
    /// The files below `root`.
    pub fn new(root: String) -> (r: FileManager)
        ensures
            r.root == root,
    {
        FileManager { root }
    }

    /// Moves to another root.
    pub fn set_root(&mut self, root: String)
        ensures
            final(self).root == root,
    {
        self.root = root;
    }

    /// The root.
    pub fn root(&self) -> (r: String)
        ensures
            r@ == self.root@,
    {
        self.root.clone()
    }

    /// Where a request path lies on disk. The check against leaving the root never fires.
    pub fn abs_path(&self, rel: &str) -> (r: Result<String, PathError>)
        ensures
            r matches Ok(p) && p@ == resolved(self.root@, rel@),
    {
        let norm = normalize_path(rel);
        let sub = trim_start_char(norm.as_str(), '/');
        let abs = join_path(self.root.as_str(), sub.as_str());
        proof {
            law_resolved_below_root(self.root@, rel@);
        }
        let rc = path_components(self.root.as_str());
        let whole = rc.len() == 1 && matches!(rc[0], Component::Root);
        if !whole && !path_starts_with(abs.as_str(), self.root.as_str()) {
            return Err(PathError::Traversal);
        }
        Ok(abs)
    }

    /// Where a request path lies on disk, unless that is in a virtual file system.
    pub fn safe_abs_path(&self, rel: &str) -> (r: Result<String, PathError>)
        ensures
            match r {
                Ok(p) => p@ == resolved(self.root@, rel@) && !danger(p@),
                Err(e) => e == PathError::Denied && danger(resolved(self.root@, rel@)),
            },
    {
        match self.abs_path(rel) {
            Ok(abs) => {
                if is_danger_path(abs.as_str()) {
                    return Err(PathError::Denied);
                }
                Ok(abs)
            },
            Err(e) => Err(e),
        }
    }
}

} // verus!
