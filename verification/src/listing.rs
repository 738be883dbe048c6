//! Directory listings, searches and what is shown of a file.

use vstd::prelude::*;
use vstd::utf8::is_ascii_chars;

use crate::paths::{
    base_name, base_name_of, components, danger, is_danger_path, law_normal_form_is_absolute,
    law_normal_form_of_plain_request, lemma_filter_all, lemma_join_chars, lemma_names_concat,
    lemma_names_one, lemma_no_names, lemma_swapped_clean, names, normalize_path, normalized,
    ordinary, Part,
};
use crate::sql::{param_views, statement, Param, ParamView, Statement, StatementView};
use crate::storage::{law_plain_request_follows_its_names, resolved};
use crate::text::{
    ascii_lowered, cat3, contains, join, join_with, lemma_split_join, lower, lowered, occurs,
    occurs_at, same, starts_with, texts,
};
use crate::time::{representable, rfc3339, rfc3339_text};
use crate::types::{FileInfo, SearchResult};
use crate::visibility::{key_below, lemma_part_names, relative_key};

verus! {

// ---------------------------------------------------------------------------
// One file
// ---------------------------------------------------------------------------

/// What the file system says of a file: its kind, its length, when it was last modified, and its
/// mode.
#[derive(Debug, Clone, Copy)]
pub struct FileMeta {
    pub is_dir: bool,
    pub len: u64,
    pub modified: (i64, u32),
    pub mode: u32,
}

impl FileMeta {
    /// The modification time can be written.
    pub open spec fn wf(self) -> bool {
        representable(self.modified.0, self.modified.1)
    }
}

/// What is shown of a file, in terms of texts.
#[verifier::ext_equal]
pub struct FileInfoView {
    pub name: Seq<char>,
    pub path: Seq<char>,
    pub is_dir: bool,
    pub size: u64,
    pub mod_time: Seq<char>,
    pub is_public: bool,
    pub mode: u32,
}

impl View for FileInfo {
    type V = FileInfoView;

    open spec fn view(&self) -> FileInfoView {
        FileInfoView {
            name: self.name@,
            path: self.path@,
            is_dir: self.is_dir,
            size: self.size,
            mod_time: self.mod_time@,
            is_public: self.is_public,
            mode: self.mode,
        }
    }
}

/// The contents of a listing.
pub open spec fn info_views(v: Seq<FileInfo>) -> Seq<FileInfoView> {
    v.map_values(|f: FileInfo| f@)
}

/// What is shown of a file under a name and a path. A folder has no size.
pub open spec fn info(name: Seq<char>, path: Seq<char>, md: FileMeta, is_public: bool) -> FileInfoView {
    FileInfoView {
        name,
        path,
        is_dir: md.is_dir,
        size: if md.is_dir {
            0
        } else {
            md.len
        },
        mod_time: rfc3339_text(md.modified.0, md.modified.1),
        is_public,
        mode: md.mode,
    }
}

/// What is shown of a file under a name and a path.
fn make_info(name: String, path: String, md: &FileMeta, is_public: bool) -> (r: FileInfo)
    requires
        md.wf(),
    ensures
        r@ == info(name@, path@, *md, is_public),
{
    let size: u64 = if md.is_dir {
        0
    } else {
        md.len
    };
    let mod_time = rfc3339(md.modified.0, md.modified.1);
    FileInfo { name, path, is_dir: md.is_dir, size, mod_time, is_public, mode: md.mode }
}

/// What is shown of the file that a request names.
pub open spec fn info_of(rel: Seq<char>, md: FileMeta, is_public: bool) -> FileInfoView {
    info(base_name(rel), normalized(rel), md, is_public)
}

/// What is shown of the file that a request names.
pub fn file_info(rel: &str, md: &FileMeta, is_public: bool) -> (r: FileInfo)
    requires
        md.wf(),
    ensures
        r@ == info_of(rel@, *md, is_public),
        r@ == info(base_name(rel@), normalized(rel@), *md, is_public),
{
    make_info(base_name_of(rel), normalize_path(rel), md, is_public)
}

// ---------------------------------------------------------------------------
// What of a folder is listed
// ---------------------------------------------------------------------------

/// An entry of a folder: its path on disk and its name.
pub struct DirEntry {
    pub path: String,
    pub name: String,
}

/// An entry that is listed: its position in the folder, its path on disk, and its request path.
pub struct Candidate {
    pub index: usize,
    pub path: String,
    pub child: String,
}

/// An entry that is listed, in terms of texts.
#[verifier::ext_equal]
pub struct CandidateView {
    pub index: int,
    pub path: Seq<char>,
    pub child: Seq<char>,
}

impl View for Candidate {
    type V = CandidateView;

    open spec fn view(&self) -> CandidateView {
        CandidateView { index: self.index as int, path: self.path@, child: self.child@ }
    }
}

/// The contents of a list of candidates.
pub open spec fn candidate_views(v: Seq<Candidate>) -> Seq<CandidateView> {
    v.map_values(|c: Candidate| c@)
}

/// An entry is listed if it is in no virtual file system, and hidden ones only where the settings
/// say so.
pub open spec fn shown(e: DirEntry, show_hidden: bool) -> bool {
    !danger(e.path@) && (show_hidden || !"."@.is_prefix_of(e.name@))
}

/// The request path of an entry of the folder `rel`.
pub open spec fn child_path(rel: Seq<char>, name: Seq<char>) -> Seq<char> {
    normalized(normalized(rel) + "/"@ + name)
}

/// The entries that are listed, in the order of the folder.
pub open spec fn candidates(
    rel: Seq<char>,
    show_hidden: bool,
    entries: Seq<DirEntry>,
) -> Seq<CandidateView>
    decreases entries.len(),
{
    if entries.len() == 0 {
        Seq::<CandidateView>::empty()
    } else {
        let front = candidates(rel, show_hidden, entries.drop_last());
        let e = entries.last();
        if shown(e, show_hidden) {
            front.push(
                CandidateView {
                    index: entries.len() - 1,
                    path: e.path@,
                    child: child_path(rel, e.name@),
                },
            )
        } else {
            front
        }
    }
}

/// The entries of the folder `rel` that are listed, in the order of the folder.
pub fn select_entries(rel: &str, show_hidden: bool, entries: &Vec<DirEntry>) -> (r: Vec<Candidate>)
    ensures
        candidate_views(r@) == candidates(rel@, show_hidden, entries@),
{
    let base = normalize_path(rel);
    let mut out: Vec<Candidate> = Vec::new();
    let mut i: usize = 0;
    assert(candidate_views(out@) =~= candidates(rel@, show_hidden, entries@.take(0)));
    while i < entries.len()
        invariant
            i <= entries@.len(),
            base@ == normalized(rel@),
            candidate_views(out@) == candidates(rel@, show_hidden, entries@.take(i as int)),
        decreases entries.len() - i,
    {
        let e = &entries[i];
        proof {
            let t = entries@.take(i + 1);
            assert(t.drop_last() =~= entries@.take(i as int));
            assert(t.last() == entries@[i as int]);
        }
        if !is_danger_path(e.path.as_str()) && (show_hidden || !starts_with(e.name.as_str(), ".")) {
            let ghost was = out@;
            let child = normalize_path(cat3(base.as_str(), "/", e.name.as_str()).as_str());
            let c = Candidate { index: i, path: e.path.clone(), child };
            out.push(c);
            assert(candidate_views(out@) =~= candidate_views(was).push(c@));
        }
        i = i + 1;
    }
    assert(entries@.take(entries@.len() as int) =~= entries@);
    out
}

/// An entry is listed exactly if it may be shown; what is listed is an entry under its own path.
pub proof fn law_listing_is_complete(rel: Seq<char>, show_hidden: bool, entries: Seq<DirEntry>)
    ensures
        forall|k: int|
            0 <= k < candidates(rel, show_hidden, entries).len() ==> {
                let c = #[trigger] candidates(rel, show_hidden, entries)[k];
                &&& 0 <= c.index < entries.len()
                &&& shown(entries[c.index], show_hidden)
                &&& c.path == entries[c.index].path@
                &&& c.child == child_path(rel, entries[c.index].name@)
            },
        forall|i: int|
            0 <= i < entries.len() && shown(#[trigger] entries[i], show_hidden) ==> exists|k: int|
                0 <= k < candidates(rel, show_hidden, entries).len() && (#[trigger] candidates(
                    rel,
                    show_hidden,
                    entries,
                )[k]).index == i,
    decreases entries.len(),
{
    if entries.len() > 0 {
        let front = entries.drop_last();
        let was = candidates(rel, show_hidden, front);
        let now = candidates(rel, show_hidden, entries);
        law_listing_is_complete(rel, show_hidden, front);
        assert forall|k: int| 0 <= k < now.len() implies {
            let c = #[trigger] now[k];
            &&& 0 <= c.index < entries.len()
            &&& shown(entries[c.index], show_hidden)
            &&& c.path == entries[c.index].path@
            &&& c.child == child_path(rel, entries[c.index].name@)
        } by {
            if k < was.len() {
                assert(now[k] == was[k]);
                assert(front[was[k].index] == entries[was[k].index]);
            }
        }
        assert forall|i: int| 0 <= i < entries.len() && shown(#[trigger] entries[i], show_hidden) implies exists|
            k: int,
        |
            0 <= k < now.len() && (#[trigger] now[k]).index == i by {
            if i < front.len() {
                assert(front[i] == entries[i]);
                let k = choose|k: int| 0 <= k < was.len() && (#[trigger] was[k]).index == i;
                assert(now[k] == was[k]);
            } else {
                assert(now[was.len() as int].index == i);
            }
        }
    }
}

/// The path that is shown of an entry leads to that entry, if neither it nor the folder holds a
/// backslash.
pub proof fn law_listed_path_leads_to_its_entry(root: Seq<char>, rel: Seq<char>, name: Seq<char>)
    requires
        root.len() > 0,
        !rel.contains('\\'),
        ordinary(name),
        !name.contains('/'),
        !name.contains('\\'),
    ensures
        components(resolved(root, child_path(rel, name))) == components(resolved(root, rel)).push(
            Part::Name(name),
        ),
{
    reveal_strlit("/");
    let q = normalized(rel);
    let p = q + "/"@ + name;
    assert("/"@ =~= seq!['/']);
    law_normal_form_is_absolute(rel);
    law_normal_form_of_plain_request(rel);
    lemma_names_concat(q, name);
    lemma_names_one(name);
    assert forall|i: int| 0 <= i < p.len() implies p[i] != '\\' by {
        if i < q.len() {
            assert(p[i] == q[i]);
        } else if i > q.len() {
            assert(p[i] == name[i - q.len() - 1]);
        }
    }
    law_normal_form_of_plain_request(p);
    law_normal_form_is_absolute(p);
    law_plain_request_follows_its_names(root, normalized(p));
    law_plain_request_follows_its_names(root, rel);
    let part = |n: Seq<char>| Part::Name(n);
    assert((names(rel) + seq![name]).map_values(part) =~= names(rel).map_values(part).push(
        Part::Name(name),
    ));
}

/// The statement that asks which of the listed paths are public.
pub open spec fn visible_query(children: Seq<Seq<char>>) -> StatementView {
    statement(
        "SELECT file_path FROM file_visibilities WHERE is_public=1 AND file_path IN ("@ + join(
            Seq::new(children.len(), |i: int| "?"@),
            ',',
        ) + ")"@,
        children.map_values(|c: Seq<char>| ParamView::Text(c)),
    )
}

/// The request paths of the candidates.
pub open spec fn children(c: Seq<CandidateView>) -> Seq<Seq<char>> {
    c.map_values(|x: CandidateView| x.child)
}

/// The statement that asks which of the listed paths are public; none is needed for an empty list.
pub fn visible_statement(cands: &Vec<Candidate>) -> (r: Option<Statement>)
    ensures
        match r {
            Some(s) => cands@.len() > 0 && s@ == visible_query(children(candidate_views(cands@))),
            None => cands@.len() == 0,
        },
{
    if cands.len() == 0 {
        return None;
    }
    let ghost cs = children(candidate_views(cands@));
    let mut marks: Vec<String> = Vec::new();
    let mut params: Vec<Param> = Vec::new();
    let mut i: usize = 0;
    while i < cands.len()
        invariant
            i <= cands@.len(),
            cs == children(candidate_views(cands@)),
            marks@.len() == i,
            params@.len() == i,
            forall|j: int| 0 <= j < i ==> (#[trigger] marks@[j])@ == "?"@,
            forall|j: int| 0 <= j < i ==> (#[trigger] params@[j])@ == ParamView::Text(cs[j]),
        decreases cands.len() - i,
    {
        marks.push("?".to_owned());
        params.push(Param::Text(cands[i].child.clone()));
        i = i + 1;
    }
    let sql = cat3(
        "SELECT file_path FROM file_visibilities WHERE is_public=1 AND file_path IN (",
        join_with(&marks, ',').as_str(),
        ")",
    );
    proof {
        assert(texts(marks@) =~= Seq::new(cs.len(), |i: int| "?"@));
        assert(param_views(params@) =~= cs.map_values(|c: Seq<char>| ParamView::Text(c)));
    }
    Some(Statement { sql, params })
}

/// What is shown of the candidates, in their order, without those that the file system says
/// nothing of.
pub open spec fn listing(
    cands: Seq<CandidateView>,
    metas: Seq<Option<FileMeta>>,
    visible: Seq<Seq<char>>,
) -> Seq<FileInfoView>
    decreases cands.len(),
{
    if cands.len() == 0 {
        Seq::<FileInfoView>::empty()
    } else {
        let front = listing(cands.drop_last(), metas.drop_last(), visible);
        let c = cands.last();
        match metas.last() {
            Some(md) => front.push(info(base_name(c.path), c.child, md, visible.contains(c.child))),
            None => front,
        }
    }
}

/// Whether a text is in a list.
fn listed(v: &Vec<String>, s: &str) -> (r: bool)
    ensures
        r == texts(v@).contains(s@),
{
    let mut i: usize = 0;
    while i < v.len()
        invariant
            i <= v@.len(),
            forall|j: int| 0 <= j < i ==> texts(v@)[j] != s@,
        decreases v.len() - i,
    {
        if same(v[i].as_str(), s) {
            assert(texts(v@)[i as int] == s@);
            return true;
        }
        i = i + 1;
    }
    false
}

/// What is shown of a folder: of each candidate what the file system says of it, with the mark of
/// those among the public paths.
pub fn list_dir(
    cands: &Vec<Candidate>,
    metas: &Vec<Option<FileMeta>>,
    visible: &Vec<String>,
) -> (r: Vec<FileInfo>)
    requires
        metas@.len() == cands@.len(),
        forall|i: int| 0 <= i < metas@.len() ==> ((#[trigger] metas@[i]) matches Some(md) ==> md.wf()),
    ensures
        info_views(r@) == listing(candidate_views(cands@), metas@, texts(visible@)),
{
    let mut out: Vec<FileInfo> = Vec::new();
    let ghost cs = candidate_views(cands@);
    let ghost vs = texts(visible@);
    let mut i: usize = 0;
    assert(info_views(out@) =~= listing(cs.take(0), metas@.take(0), vs));
    while i < cands.len()
        invariant
            i <= cands@.len(),
            metas@.len() == cands@.len(),
            cs == candidate_views(cands@),
            vs == texts(visible@),
            forall|i: int|
                0 <= i < metas@.len() ==> ((#[trigger] metas@[i]) matches Some(md) ==> md.wf()),
            info_views(out@) == listing(cs.take(i as int), metas@.take(i as int), vs),
        decreases cands.len() - i,
    {
        let c = &cands[i];
        proof {
            assert(cs.take(i + 1).drop_last() =~= cs.take(i as int));
            assert(metas@.take(i + 1).drop_last() =~= metas@.take(i as int));
            assert(cs.take(i + 1).last() == c@);
            assert(metas@.take(i + 1).last() == metas@[i as int]);
        }
        match &metas[i] {
            Some(md) => {
                let ghost was = out@;
                let public = listed(visible, c.child.as_str());
                let f = make_info(base_name_of(c.path.as_str()), c.child.clone(), md, public);
                out.push(f);
                assert(info_views(out@) =~= info_views(was).push(f@));
            },
            None => {},
        }
        i = i + 1;
    }
    proof {
        assert(cs.take(cs.len() as int) =~= cs);
        assert(metas@.take(metas@.len() as int) =~= metas@);
    }
    out
}

/// The same file once more.
fn copy_info(f: &FileInfo) -> (r: FileInfo)
    ensures
        r@ == f@,
{
    FileInfo {
        name: f.name.clone(),
        path: f.path.clone(),
        is_dir: f.is_dir,
        size: f.size,
        mod_time: f.mod_time.clone(),
        is_public: f.is_public,
        mode: f.mode,
    }
}

/// The public files of a listing, in their order.
pub open spec fn public_ones(v: Seq<FileInfoView>) -> Seq<FileInfoView> {
    v.filter(|f: FileInfoView| f.is_public)
}

/// The public files of a listing, in their order.
pub fn only_public(v: &Vec<FileInfo>) -> (r: Vec<FileInfo>)
    ensures
        info_views(r@) == public_ones(info_views(v@)),
        info_views(r@) == info_views(v@).filter(|f: FileInfoView| f.is_public),
{
    let ghost all = info_views(v@);
    let ghost keep = |f: FileInfoView| f.is_public;
    let mut out: Vec<FileInfo> = Vec::new();
    let mut i: usize = 0;
    proof {
        reveal_with_fuel(Seq::filter, 1);
        assert(info_views(out@) =~= all.take(0).filter(keep));
    }
    while i < v.len()
        invariant
            i <= v@.len(),
            all == info_views(v@),
            keep == (|f: FileInfoView| f.is_public),
            info_views(out@) == all.take(i as int).filter(keep),
        decreases v.len() - i,
    {
        proof {
            reveal_with_fuel(Seq::filter, 1);
            assert(all.take(i + 1).drop_last() =~= all.take(i as int));
            assert(all.take(i + 1).last() == v@[i as int]@);
        }
        if v[i].is_public {
            let ghost was = out@;
            let f = copy_info(&v[i]);
            out.push(f);
            assert(info_views(out@) =~= info_views(was).push(f@));
        }
        i = i + 1;
    }
    assert(all.take(all.len() as int) =~= all);
    out
}

/// A folder in the tree of folders.
pub struct DirNode {
    pub name: String,
    pub path: String,
}

/// The names and paths of folders.
pub open spec fn node_views(v: Seq<DirNode>) -> Seq<(Seq<char>, Seq<char>)> {
    v.map_values(|d: DirNode| (d.name@, d.path@))
}

/// The folders of a listing, in their order.
pub open spec fn dirs(v: Seq<FileInfoView>) -> Seq<(Seq<char>, Seq<char>)>
    decreases v.len(),
{
    if v.len() == 0 {
        Seq::<(Seq<char>, Seq<char>)>::empty()
    } else if v.last().is_dir {
        dirs(v.drop_last()).push((v.last().name, v.last().path))
    } else {
        dirs(v.drop_last())
    }
}

/// The folders of a listing, in their order.
pub fn list_dir_tree(v: &Vec<FileInfo>) -> (r: Vec<DirNode>)
    ensures
        node_views(r@) == dirs(info_views(v@)),
{
    let ghost all = info_views(v@);
    let mut out: Vec<DirNode> = Vec::new();
    let mut i: usize = 0;
    assert(node_views(out@) =~= dirs(all.take(0)));
    while i < v.len()
        invariant
            i <= v@.len(),
            all == info_views(v@),
            node_views(out@) == dirs(all.take(i as int)),
        decreases v.len() - i,
    {
        proof {
            assert(all.take(i + 1).drop_last() =~= all.take(i as int));
            assert(all.take(i + 1).last() == v@[i as int]@);
        }
        if v[i].is_dir {
            let ghost was = out@;
            let d = DirNode { name: v[i].name.clone(), path: v[i].path.clone() };
            out.push(d);
            assert(node_views(out@) =~= node_views(was).push((d.name@, d.path@)));
        }
        i = i + 1;
    }
    assert(all.take(all.len() as int) =~= all);
    out
}

// ---------------------------------------------------------------------------
// Searching
// ---------------------------------------------------------------------------

/// How many hits a search gives at most.
pub const MOST_HITS: usize = 200;

/// A file that a search comes by: its path on disk, its name and its kind.
pub struct Found {
    pub path: String,
    pub name: String,
    pub is_dir: bool,
}

/// A hit, in terms of texts.
#[verifier::ext_equal]
pub struct HitView {
    pub name: Seq<char>,
    pub path: Seq<char>,
    pub is_dir: bool,
}

impl View for SearchResult {
    type V = HitView;

    open spec fn view(&self) -> HitView {
        HitView { name: self.name@, path: self.path@, is_dir: self.is_dir }
    }
}

/// The contents of a list of hits.
pub open spec fn hit_views(v: Seq<SearchResult>) -> Seq<HitView> {
    v.map_values(|h: SearchResult| h@)
}

/// A name is a hit if it holds the word, upper and lower case being the same.
pub open spec fn hit(name: Seq<char>, word: Seq<char>) -> bool {
    occurs(lowered(name), lowered(word))
}

/// The first hits among the files, in their order.
pub open spec fn hits(root: Seq<char>, word: Seq<char>, found: Seq<Found>) -> Seq<HitView>
    decreases found.len(),
{
    if found.len() == 0 {
        Seq::<HitView>::empty()
    } else {
        let front = hits(root, word, found.drop_last());
        let f = found.last();
        if front.len() < MOST_HITS && hit(f.name@, word) {
            front.push(HitView { name: f.name@, path: key_below(root, f.path@), is_dir: f.is_dir })
        } else {
            front
        }
    }
}

/// A search that looks at one file after the other.
pub struct Search {
    root: String,
    word: String,
    hits: Vec<SearchResult>,
}

impl Search {
    /// The root below which the search looks.
    pub closed spec fn root_view(self) -> Seq<char> {
        self.root@
    }

    /// The word, in lower case.
    pub closed spec fn word_view(self) -> Seq<char> {
        self.word@
    }

    /// The hits so far.
    pub closed spec fn hits_view(self) -> Seq<HitView> {
        hit_views(self.hits@)
    }

    /// A search for a word.
    pub fn new(root: String, word: &str) -> (r: Search)
        ensures
            r.root_view() == root@,
            r.word_view() == lowered(word@),
            r.hits_view() == Seq::<HitView>::empty(),
    {
        let r = Search { root, word: lower(word), hits: Vec::new() };
        assert(hit_views(r.hits@) =~= Seq::<HitView>::empty());
        r
    }

    /// Whether the search has as many hits as it gives.
    pub fn full(&self) -> (r: bool)
        ensures
            r == (self.hits_view().len() >= MOST_HITS),
    {
        self.hits.len() >= MOST_HITS
    }

    /// Looks at one more file. A file that is not below the root is no hit.
    pub fn look(&mut self, f: &Found)
        ensures
            final(self).root_view() == old(self).root_view(),
            final(self).word_view() == old(self).word_view(),
            final(self).hits_view() == if old(self).hits_view().len() < MOST_HITS && occurs(
                lowered(f.name@),
                old(self).word_view(),
            ) && components(old(self).root_view()).is_prefix_of(
                components(f.path@),
            ) {
                old(self).hits_view().push(
                    HitView {
                        name: f.name@,
                        path: key_below(old(self).root_view(), f.path@),
                        is_dir: f.is_dir,
                    },
                )
            } else {
                old(self).hits_view()
            },
    {
        if self.hits.len() >= MOST_HITS {
            return;
        }
        if contains(lower(f.name.as_str()).as_str(), self.word.as_str()) {
            match relative_key(self.root.as_str(), f.path.as_str()) {
                Some(path) => {
                    let ghost was = self.hits@;
                    let h = SearchResult { name: f.name.clone(), path, is_dir: f.is_dir };
                    self.hits.push(h);
                    assert(hit_views(self.hits@) =~= hit_views(was).push(h@));
                },
                None => {},
            }
        }
    }

    /// The hits.
    pub fn finish(self) -> (r: Vec<SearchResult>)
        ensures
            hit_views(r@) == self.hits_view(),
    {
        self.hits
    }
}

/// The path that is shown of a hit leads to that file, if its names below the root hold no
/// backslash.
pub proof fn law_hit_path_leads_to_its_file(root: Seq<char>, ns: Seq<Seq<char>>, path: Seq<char>)
    requires
        root.len() > 0,
        components(path) == components(root) + ns.map_values(|n: Seq<char>| Part::Name(n)),
        forall|i: int|
            0 <= i < ns.len() ==> ordinary(#[trigger] ns[i]) && !ns[i].contains('/') && !ns[i].contains('\\'),
    ensures
        components(resolved(root, key_below(root, path))) == components(path),
{
    let parts = ns.map_values(|n: Seq<char>| Part::Name(n));
    let j = join(ns, '/');
    let k = seq!['/'] + j;
    assert(components(path).skip(components(root).len() as int) =~= parts);
    lemma_part_names(ns);
    lemma_join_chars(ns, '/', '\\');
    assert forall|i: int| 0 <= i < k.len() implies k[i] != '\\' by {
        if i > 0 {
            assert(k[i] == j[i - 1]);
        }
    }
    lemma_swapped_clean(k);
    assert(key_below(root, path) == k);
    lemma_names_concat(Seq::<char>::empty(), j);
    assert(k =~= Seq::<char>::empty() + seq!['/'] + j);
    lemma_no_names();
    if ns.len() > 0 {
        lemma_split_join(ns, '/');
        lemma_filter_all(ns);
    } else {
        assert(j =~= Seq::<char>::empty());
    }
    assert(names(k) =~= ns);
    law_plain_request_follows_its_names(root, k);
}

/// The first hits for a word among the files that a walk below the root comes by, in its order.
pub fn search_files(root: &str, word: &str, found: &Vec<Found>) -> (r: Vec<SearchResult>)
    requires
        forall|i: int|
            0 <= i < found@.len() ==> components(root@).is_prefix_of(
                components((#[trigger] found@[i]).path@),
            ),
    ensures
        hit_views(r@) == hits(root@, word@, found@),
        r@.len() <= MOST_HITS,
{
    let mut s = Search::new(root.to_owned(), word);
    let mut i: usize = 0;
    assert(s.hits_view() =~= hits(root@, word@, found@.take(0)));
    while i < found.len()
        invariant
            i <= found@.len(),
            forall|i: int|
                0 <= i < found@.len() ==> components(root@).is_prefix_of(
                    components((#[trigger] found@[i]).path@),
                ),
            s.root_view() == root@,
            s.word_view() == lowered(word@),
            s.hits_view() == hits(root@, word@, found@.take(i as int)),
            s.hits_view().len() <= MOST_HITS,
        decreases found.len() - i,
    {
        proof {
            assert(found@.take(i + 1).drop_last() =~= found@.take(i as int));
            assert(found@.take(i + 1).last() == found@[i as int]);
        }
        s.look(&found[i]);
        i = i + 1;
    }
    assert(found@.take(found@.len() as int) =~= found@);
    s.finish()
}

// ---------------------------------------------------------------------------
// Laws
// ---------------------------------------------------------------------------

/// A file is hidden by a dot at the start of its name, and only by that. Where hidden files are shown,
/// every file is, but for those in a virtual file system, which never are.
pub proof fn law_dot_files_are_hidden(e: DirEntry)
    ensures
        shown(e, true) <==> !danger(e.path@),
        shown(e, false) <==> !danger(e.path@) && !(e.name@.len() > 0 && e.name@[0] == '.'),
{
    reveal_strlit(".");
    let d = "."@;
    if e.name@.len() > 0 && e.name@[0] == '.' {
        assert(e.name@.subrange(0, 1) =~= d);
    }
    if d.is_prefix_of(e.name@) {
        assert(e.name@.subrange(0, 1)[0] == d[0]);
    }
}

/// A listing has the order of the folder.
pub proof fn law_listing_keeps_the_order(rel: Seq<char>, show_hidden: bool, entries: Seq<DirEntry>)
    ensures
        forall|k: int, l: int|
            0 <= k < l < candidates(rel, show_hidden, entries).len() ==> (#[trigger] candidates(
                rel,
                show_hidden,
                entries,
            )[k]).index < (#[trigger] candidates(rel, show_hidden, entries)[l]).index,
    decreases entries.len(),
{
    let now = candidates(rel, show_hidden, entries);
    if entries.len() > 0 {
        let front = entries.drop_last();
        let was = candidates(rel, show_hidden, front);
        law_listing_keeps_the_order(rel, show_hidden, front);
        law_listing_is_complete(rel, show_hidden, front);
        assert forall|k: int, l: int| 0 <= k < l < now.len() implies (#[trigger] now[k]).index < (
        #[trigger] now[l]).index by {
            assert(now[k] == was[k]);
            if l < was.len() {
                assert(now[l] == was[l]);
            }
        }
    }
}

/// How many of the files the file system says something of.
pub open spec fn known(metas: Seq<Option<FileMeta>>) -> nat
    decreases metas.len(),
{
    if metas.len() == 0 {
        0
    } else {
        known(metas.drop_last()) + if metas.last() is Some {
            1nat
        } else {
            0nat
        }
    }
}

/// Each candidate that the file system says something of is shown, in order, and no other: with its own
/// request path, the last name of its path on disk, its kind, its length unless it is a folder, its time
/// and its mode, and as public exactly if its request path is among the public ones.
pub proof fn law_each_file_is_shown_as_it_is(
    cands: Seq<CandidateView>,
    metas: Seq<Option<FileMeta>>,
    visible: Seq<Seq<char>>,
)
    requires
        cands.len() == metas.len(),
    ensures
        listing(cands, metas, visible).len() == known(metas),
        forall|i: int|
            0 <= i < metas.len() && (#[trigger] metas[i]) is Some ==> {
                let k = known(metas.take(i)) as int;
                let f = listing(cands, metas, visible)[k];
                let md = metas[i]->0;
                &&& 0 <= k < listing(cands, metas, visible).len()
                &&& f.path == cands[i].child
                &&& f.name == base_name(cands[i].path)
                &&& f.is_dir == md.is_dir
                &&& !md.is_dir ==> f.size == md.len
                &&& md.is_dir ==> f.size == 0
                &&& f.mod_time == rfc3339_text(md.modified.0, md.modified.1)
                &&& f.mode == md.mode
                &&& f.is_public <==> visible.contains(cands[i].child)
            },
    decreases metas.len(),
{
    let now = listing(cands, metas, visible);
    if metas.len() > 0 {
        let front = metas.drop_last();
        let was = listing(cands.drop_last(), front, visible);
        law_each_file_is_shown_as_it_is(cands.drop_last(), front, visible);
        assert forall|i: int| 0 <= i < metas.len() && (#[trigger] metas[i]) is Some implies {
            let k = known(metas.take(i)) as int;
            let f = now[k];
            let md = metas[i]->0;
            &&& 0 <= k < now.len()
            &&& f.path == cands[i].child
            &&& f.name == base_name(cands[i].path)
            &&& f.is_dir == md.is_dir
            &&& !md.is_dir ==> f.size == md.len
            &&& md.is_dir ==> f.size == 0
            &&& f.mod_time == rfc3339_text(md.modified.0, md.modified.1)
            &&& f.mode == md.mode
            &&& f.is_public <==> visible.contains(cands[i].child)
        } by {
            if i < front.len() {
                assert(front[i] == metas[i]);
                assert(front.take(i) =~= metas.take(i));
                let k = known(metas.take(i)) as int;
                assert(0 <= k < was.len());
                assert(now[k] == was[k]);
            } else {
                assert(metas.take(i) =~= front);
            }
        }
    }
}

/// The question which listed paths are public is asked of each of them, in order, and of no other.
pub proof fn law_each_listed_path_is_asked_for(cs: Seq<Seq<char>>)
    ensures
        visible_query(cs).params.len() == cs.len(),
        forall|i: int|
            0 <= i < cs.len() ==> #[trigger] visible_query(cs).params[i] == ParamView::Text(cs[i]),
{
}

/// The folders of a listing are those of its parts, one after the other; a folder is shown by its name
/// and path, and anything else is left out.
pub proof fn law_tree_shows_folders(a: Seq<FileInfoView>, f: FileInfoView, b: Seq<FileInfoView>)
    ensures
        dirs(a + b) == dirs(a) + dirs(b),
        f.is_dir ==> dirs(seq![f]) == seq![(f.name, f.path)],
        !f.is_dir ==> dirs(seq![f]).len() == 0,
        dirs(Seq::<FileInfoView>::empty()).len() == 0,
    decreases b.len(),
{
    reveal_with_fuel(dirs, 2);
    let e = Seq::<FileInfoView>::empty();
    assert(seq![f].drop_last() =~= e);
    assert(f.is_dir ==> dirs(seq![f]) =~= seq![(f.name, f.path)]);
    if b.len() == 0 {
        assert(a + b =~= a);
        assert(dirs(a) + dirs(b) =~= dirs(a));
    } else {
        law_tree_shows_folders(a, f, b.drop_last());
        assert((a + b).drop_last() =~= a + b.drop_last());
        assert((a + b).last() == b.last());
        assert(dirs(a + b) =~= dirs(a) + dirs(b));
    }
}

/// How many files have the word in their name.
pub open spec fn matches_in(word: Seq<char>, found: Seq<Found>) -> nat
    decreases found.len(),
{
    if found.len() == 0 {
        0
    } else {
        matches_in(word, found.drop_last()) + if hit(found.last().name@, word) {
            1nat
        } else {
            0nat
        }
    }
}

/// A search gives the first two hundred files with the word in their name, in the order in which it has
/// come by them, each with its name, its kind and its path below the root; all of them, if there are no
/// more.
pub proof fn law_search_gives_the_first_hits(root: Seq<char>, word: Seq<char>, found: Seq<Found>)
    ensures
        matches_in(word, found) <= 200 ==> hits(root, word, found).len() == matches_in(word, found),
        matches_in(word, found) > 200 ==> hits(root, word, found).len() == 200,
        forall|i: int|
            0 <= i < found.len() && hit((#[trigger] found[i]).name@, word) && matches_in(word, found.take(i))
                < 200 ==> {
                let k = matches_in(word, found.take(i)) as int;
                let h = hits(root, word, found)[k];
                &&& 0 <= k < hits(root, word, found).len()
                &&& h.name == found[i].name@
                &&& h.is_dir == found[i].is_dir
                &&& h.path == key_below(root, found[i].path@)
            },
    decreases found.len(),
{
    let now = hits(root, word, found);
    if found.len() > 0 {
        let front = found.drop_last();
        let was = hits(root, word, front);
        law_search_gives_the_first_hits(root, word, front);
        assert forall|i: int|
            0 <= i < found.len() && hit((#[trigger] found[i]).name@, word) && matches_in(word, found.take(i))
                < 200 implies {
            let k = matches_in(word, found.take(i)) as int;
            let h = now[k];
            &&& 0 <= k < now.len()
            &&& h.name == found[i].name@
            &&& h.is_dir == found[i].is_dir
            &&& h.path == key_below(root, found[i].path@)
        } by {
            if i < front.len() {
                assert(front[i] == found[i]);
                assert(front.take(i) =~= found.take(i));
                let k = matches_in(word, found.take(i)) as int;
                assert(now[k] == was[k]);
            } else {
                assert(found.take(i) =~= front);
            }
        }
    }
}

/// Of ASCII texts, a name is a hit exactly if the word stands somewhere in it, capital letters being the
/// same as small ones.
pub proof fn law_search_ignores_case(name: Seq<char>, word: Seq<char>)
    requires
        is_ascii_chars(name),
        is_ascii_chars(word),
    ensures
        hit(name, word) <==> exists|i: int|
            0 <= i <= name.len() - word.len() && #[trigger] ascii_lowered(
                name.subrange(i, i + word.len()),
            ) == ascii_lowered(word),
{
    let n = lowered(name);
    let w = lowered(word);
    assert(n.len() == name.len() && w.len() == word.len());
    assert forall|i: int| 0 <= i <= name.len() - word.len() implies n.subrange(i, i + w.len())
        == #[trigger] ascii_lowered(name.subrange(i, i + word.len())) by {
        assert(n.subrange(i, i + w.len()) =~= ascii_lowered(name.subrange(i, i + word.len())));
    }
    if hit(name, word) {
        let i = choose|i: int| occurs_at(n, w, i);
        assert(ascii_lowered(name.subrange(i, i + word.len())) == ascii_lowered(word));
    }
    if exists|i: int|
        0 <= i <= name.len() - word.len() && #[trigger] ascii_lowered(name.subrange(i, i + word.len()))
            == ascii_lowered(word) {
        let i = choose|i: int|
            0 <= i <= name.len() - word.len() && #[trigger] ascii_lowered(name.subrange(i, i + word.len()))
                == ascii_lowered(word);
        assert(occurs_at(n, w, i));
    }
}

/// What is shown of a single file is what a listing shows of it: under its normal path, with its kind, its
/// length unless it is a folder, its time, its mode and its mark.
pub proof fn law_single_file_is_shown_as_it_is(rel: Seq<char>, md: FileMeta, is_public: bool)
    ensures
        info_of(rel, md, is_public).path == normalized(rel),
        info_of(rel, md, is_public).name == base_name(rel),
        info_of(rel, md, is_public).is_dir == md.is_dir,
        !md.is_dir ==> info_of(rel, md, is_public).size == md.len,
        md.is_dir ==> info_of(rel, md, is_public).size == 0,
        info_of(rel, md, is_public).mod_time == rfc3339_text(md.modified.0, md.modified.1),
        info_of(rel, md, is_public).mode == md.mode,
        info_of(rel, md, is_public).is_public == is_public,
{
}

/// Of a listing the public files are kept, as they are and in their order, and no other.
pub proof fn law_public_files_are_kept(a: Seq<FileInfoView>, f: FileInfoView, b: Seq<FileInfoView>)
    ensures
        public_ones(a + b) == public_ones(a) + public_ones(b),
        f.is_public ==> public_ones(seq![f]) == seq![f],
        !f.is_public ==> public_ones(seq![f]).len() == 0,
        public_ones(Seq::<FileInfoView>::empty()).len() == 0,
{
    let keep = |f: FileInfoView| f.is_public;
    Seq::filter_distributes_over_add(a, b, keep);
    reveal_with_fuel(Seq::filter, 2);
    assert(seq![f].drop_last() =~= Seq::<FileInfoView>::empty());
    if f.is_public {
        assert(public_ones(seq![f]) =~= seq![f]);
    }
}

/// What is listed, selected or found is seen with all that it holds, each at its position.
pub proof fn law_listings_are_seen(
    f: Seq<FileInfo>,
    c: Seq<Candidate>,
    d: Seq<DirNode>,
    h: Seq<SearchResult>,
    i: int,
)
    ensures
        info_views(f).len() == f.len(),
        0 <= i < f.len() ==> {
            let v = info_views(f)[i];
            &&& v.name == f[i].name@
            &&& v.path == f[i].path@
            &&& v.is_dir == f[i].is_dir
            &&& v.size == f[i].size
            &&& v.mod_time == f[i].mod_time@
            &&& v.is_public == f[i].is_public
            &&& v.mode == f[i].mode
        },
        candidate_views(c).len() == c.len(),
        0 <= i < c.len() ==> {
            let v = candidate_views(c)[i];
            &&& v.index == c[i].index
            &&& v.path == c[i].path@
            &&& v.child == c[i].child@
        },
        node_views(d).len() == d.len(),
        0 <= i < d.len() ==> node_views(d)[i].0 == d[i].name@ && node_views(d)[i].1 == d[i].path@,
        hit_views(h).len() == h.len(),
        0 <= i < h.len() ==> {
            let v = hit_views(h)[i];
            &&& v.name == h[i].name@
            &&& v.path == h[i].path@
            &&& v.is_dir == h[i].is_dir
        },
{
}

/// The request paths of candidates stand in their order.
pub proof fn law_children_are_those_of_the_candidates(c: Seq<CandidateView>, i: int)
    requires
        0 <= i < c.len(),
    ensures
        children(c).len() == c.len(),
        children(c)[i] == c[i].child,
{
}

} // verus!
