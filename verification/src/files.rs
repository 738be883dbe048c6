//! Requests on files: where they lead, what they change, and how they are answered.

use vstd::prelude::*;
use vstd::utf8::{
    decode_utf8, encode_utf8, encode_utf8_decode_utf8, encode_utf8_valid_utf8, valid_utf8,
};

use crate::paths::{
    base_name, base_name_of, components, danger, joined, last_name, law_joined_name_is_the_last,
    law_normal_form_is_absolute, law_normal_form_of_plain_request,
    law_parent_lacks_the_last_component, law_path_of_names, lemma_last_name, lemma_names,
    lemma_names_concat, lemma_names_one, lemma_no_names, names, normalize_path, normalized, ordinary,
    parent, parent_of, path_components, part_views, safe_name, Component, Part,
};
use crate::reply::{json_error, outcome, ApiError};
use crate::sql::{statement, ParamView, Statement, StatementView};
use crate::storage::{
    law_plain_request_follows_its_names, law_requests_go_down, law_resolved_below_root,
    lemma_join_start, lemma_trimmed_normal_form, resolved, FileManager, PathError,
};
use crate::text::{
    cat, cat3, equals, from_lossy, join, lemma_join_split, lemma_split_concat, lemma_split_join,
    lemma_split_whole, lemma_texts_push, opt_text, readable, same, split, starts_with, texts, trail,
    trim_end, trim_end_char, trim_start, trim_start_char,
};
use crate::types::{BatchPaths, PathQuery, VisReq};
use crate::visibility::{delete_tree, delete_visibility_tree};

verus! {

// ---------------------------------------------------------------------------
// Where a request leads
// ---------------------------------------------------------------------------

/// What a client is told of a path in a virtual file system.
pub open spec fn denied() -> Seq<char> {
    "access denied: virtual filesystem path"@
}

/// The outcome is the place of a request path on disk, or a refusal with the given status where
/// that is in a virtual file system.
pub open spec fn placed(
    r: Result<String, ApiError>,
    root: Seq<char>,
    rel: Seq<char>,
    status: u16,
) -> bool {
    match r {
        Ok(p) => p@ == resolved(root, rel) && !danger(resolved(root, rel)),
        Err(e) => danger(resolved(root, rel)) && e.says(status, denied()),
    }
}

/// The place of a request path on disk, or a refusal with the given status.
pub fn place(fm: &FileManager, rel: &str, status: u16) -> (r: Result<String, ApiError>)
    ensures
        placed(r, fm.root@, rel@, status),
{
    match fm.safe_abs_path(rel) {
        Ok(p) => Ok(p),
        Err(e) => Err(json_error(status, e.message().as_str())),
    }
}

/// The path of a request, or the one to take where it names none.
pub open spec fn named_or(path: Option<Seq<char>>, default: Seq<char>) -> Seq<char> {
    match path {
        Some(p) => p,
        None => default,
    }
}

/// The path of a request, or the one to take where it names none.
pub fn path_or(path: Option<String>, default: &str) -> (r: String)
    ensures
        r@ == named_or(opt_text(path), default@),
        r@ == (match path {
            Some(p) => p@,
            None => default@,
        }),
{
    match path {
        Some(p) => p,
        None => default.to_owned(),
    }
}

/// The file or folder to delete, or the status and the message of the refusal.
pub open spec fn deletion(root: Seq<char>, path: Option<Seq<char>>) -> Result<Seq<char>, (u16, Seq<char>)> {
    match path {
        None => Err((400, "path is required"@)),
        Some(p) => if p == "/"@ || p.len() == 0 {
            Err((500, "cannot delete root directory"@))
        } else if danger(resolved(root, p)) {
            Err((500, denied()))
        } else {
            Ok(resolved(root, p))
        },
    }
}

/// The file or folder to delete. A missing path is refused, and so is the root.
pub fn delete_file(fm: &FileManager, q: &PathQuery) -> (r: Result<String, ApiError>)
    ensures
        outcome(r) == deletion(fm.root@, opt_text(q.path)),
        match q.path {
            None => r matches Err(e) && e.says(400, "path is required"@),
            Some(p) => if p@ == "/"@ || p@.len() == 0 {
                r matches Err(e) && e.says(500, "cannot delete root directory"@)
            } else {
                placed(r, fm.root@, p@, 500)
            },
        },
{
    match &q.path {
        None => Err(json_error(400, "path is required")),
        Some(p) => {
            if same(p.as_str(), "/") || p.as_str().unicode_len() == 0 {
                return Err(json_error(500, "cannot delete root directory"));
            }
            place(fm, p.as_str(), 500)
        },
    }
}

/// A file to write and the folder to make for it.
pub struct WriteTarget {
    pub path: String,
    pub parent: Option<String>,
}

/// A file is written where its request leads, and the folder to make for it is the one that it lies in;
/// refused where that is in a virtual file system.
pub open spec fn writes(r: Result<WriteTarget, PathError>, root: Seq<char>, rel: Seq<char>) -> bool {
    match place_of(root, rel) {
        Some(p) => r matches Ok(t) && t.path@ == p && opt_text(t.parent) == parent(p),
        None => r == Err::<WriteTarget, PathError>(PathError::Denied),
    }
}

/// Where a file is written, and the folder to make for it.
pub fn write_rel(fm: &FileManager, rel: &str) -> (r: Result<WriteTarget, PathError>)
    ensures
        writes(r, fm.root@, rel@),
        match r {
            Ok(t) => {
                &&& !danger(resolved(fm.root@, rel@))
                &&& t.path@ == resolved(fm.root@, rel@)
                &&& opt_text(t.parent) == parent(resolved(fm.root@, rel@))
            },
            Err(e) => e == PathError::Denied && danger(resolved(fm.root@, rel@)),
        },
{
    match fm.safe_abs_path(rel) {
        Ok(path) => {
            let parent = parent_of(path.as_str());
            Ok(WriteTarget { path, parent })
        },
        Err(e) => Err(e),
    }
}

/// The two places of a move or copy, unless one of them is refused.
pub open spec fn transfer(root: Seq<char>, src: Seq<char>, dst: Seq<char>) -> Option<(Seq<char>, Seq<char>)> {
    match (place_of(root, src), place_of(root, dst)) {
        (Some(s), Some(d)) => Some((s, d)),
        _ => None,
    }
}

/// The two places of a move or copy; the source is refused first.
pub fn transfer_paths(fm: &FileManager, src: &str, dst: &str) -> (r: Result<(String, String), ApiError>)
    ensures
        match transfer(fm.root@, src@, dst@) {
            Some(t) => r matches Ok(p) && (p.0@, p.1@) == t,
            None => r is Err,
        },
        match r {
            Ok((s, d)) => {
                &&& s@ == resolved(fm.root@, src@)
                &&& d@ == resolved(fm.root@, dst@)
                &&& !danger(s@)
                &&& !danger(d@)
            },
            Err(e) => {
                &&& danger(resolved(fm.root@, src@)) || danger(resolved(fm.root@, dst@))
                &&& e.says(500, denied())
            },
        },
{
    match place(fm, src, 500) {
        Ok(s) => match place(fm, dst, 500) {
            Ok(d) => Ok((s, d)),
            Err(e) => Err(e),
        },
        Err(e) => Err(e),
    }
}

// ---------------------------------------------------------------------------
// Uploads
// ---------------------------------------------------------------------------

/// A file of an upload: what it is called in a report of failures, and where it goes.
pub struct Upload {
    pub label: String,
    pub rel: String,
}

/// The folder that a request names, the root where it names none.
pub open spec fn folder_or_root(dir: Option<Seq<char>>) -> Seq<char> {
    match dir {
        Some(d) => d,
        None => "/"@,
    }
}

/// A name that may be missing.
pub open spec fn name_or_empty(name: Option<Seq<char>>) -> Seq<char> {
    match name {
        Some(n) => n,
        None => Seq::<char>::empty(),
    }
}

/// The last name of a path, `download` where there is none.
pub open spec fn safe(name: Seq<char>) -> Seq<char> {
    match last_name(name) {
        Some(n) => n,
        None => "download"@,
    }
}

/// The text of an optional name.
fn name_or_empty_of(name: &Option<String>) -> (r: String)
    ensures
        r@ == name_or_empty(opt_text(*name)),
{
    match name {
        Some(n) => n.clone(),
        None => {
            let e = String::new();
            assert(e@ =~= Seq::<char>::empty());
            e
        },
    }
}

/// The folder that a request names, the root where it names none.
fn folder_or_root_of(dir: &Option<String>) -> (r: String)
    ensures
        r@ == folder_or_root(opt_text(*dir)),
{
    match dir {
        Some(d) => d.clone(),
        None => "/".to_owned(),
    }
}

/// Whether a field of a form is one of an upload.
fn is_files(field: &Option<String>) -> (r: bool)
    ensures
        r == (opt_text(*field) == Some("files"@)),
{
    match field {
        Some(f) => same(f.as_str(), "files"),
        None => false,
    }
}

/// What a file of an upload is called in a report, and where it goes.
pub open spec fn upload_view(u: Option<Upload>) -> Option<(Seq<char>, Seq<char>)> {
    match u {
        Some(u) => Some((u.label@, u.rel@)),
        None => None,
    }
}

/// Where a field of a form goes in an upload of files.
pub open spec fn file_upload(
    dir: Option<Seq<char>>,
    field: Option<Seq<char>>,
    file_name: Option<Seq<char>>,
) -> Option<(Seq<char>, Seq<char>)> {
    if field == Some("files"@) {
        let n = name_or_empty(file_name);
        Some((n, folder_or_root(dir) + "/"@ + safe(n)))
    } else {
        None
    }
}

/// Where a field of a form goes in an upload of a folder.
pub open spec fn folder_upload(
    dir: Option<Seq<char>>,
    field: Option<Seq<char>>,
    file_name: Option<Seq<char>>,
) -> Option<(Seq<char>, Seq<char>)> {
    if field == Some("files"@) {
        let n = trim_start(normalized(name_or_empty(file_name)), '/');
        Some((n, folder_or_root(dir) + "/"@ + n))
    } else {
        None
    }
}

/// Where a field of a form goes in an upload of files: into the folder, under the last name of the
/// file's own path. Fields not called `files` go nowhere.
pub fn upload_file(
    q: &PathQuery,
    field: &Option<String>,
    file_name: &Option<String>,
) -> (r: Option<Upload>)
    ensures
        upload_view(r) == file_upload(opt_text(q.path), opt_text(*field), opt_text(*file_name)),
        match r {
            Some(u) => {
                &&& opt_text(*field) == Some("files"@)
                &&& u.label@ == name_or_empty(opt_text(*file_name))
                &&& u.rel@ == folder_or_root(opt_text(q.path)) + "/"@ + safe(
                    name_or_empty(opt_text(*file_name)),
                )
            },
            None => opt_text(*field) != Some("files"@),
        },
{
    if !is_files(field) {
        return None;
    }
    let label = name_or_empty_of(file_name);
    let rel = cat3(folder_or_root_of(&q.path).as_str(), "/", safe_name(label.as_str()).as_str());
    Some(Upload { label, rel })
}

/// Where a field of a form goes in an upload of a folder: into the folder, under the file's own
/// path in its normal form.
pub fn upload_folder(
    q: &PathQuery,
    field: &Option<String>,
    file_name: &Option<String>,
) -> (r: Option<Upload>)
    ensures
        upload_view(r) == folder_upload(opt_text(q.path), opt_text(*field), opt_text(*file_name)),
        match r {
            Some(u) => {
                &&& opt_text(*field) == Some("files"@)
                &&& u.label@ == trim_start(normalized(name_or_empty(opt_text(*file_name))), '/')
                &&& u.rel@ == folder_or_root(opt_text(q.path)) + "/"@ + u.label@
            },
            None => opt_text(*field) != Some("files"@),
        },
{
    if !is_files(field) {
        return None;
    }
    let rel = name_or_empty_of(file_name);
    let label = trim_start_char(normalize_path(rel.as_str()).as_str(), '/');
    let rel = cat3(folder_or_root_of(&q.path).as_str(), "/", label.as_str());
    Some(Upload { label, rel })
}

/// What is called after the last name of a path is called by a name.
pub proof fn lemma_safe_name(name: Seq<char>)
    ensures
        ordinary(safe(name)),
        !safe(name).contains('/'),
        !name.contains('\\') ==> !safe(name).contains('\\'),
        names(safe(name)) == seq![safe(name)],
{
    lemma_last_name(name);
    reveal_strlit("download");
    lemma_names_one(safe(name));
}

/// An uploaded file lands in the folder itself, under the last name of its own path, if neither
/// holds a backslash.
pub proof fn law_upload_lands_in_its_folder(root: Seq<char>, dir: Seq<char>, name: Seq<char>)
    requires
        root.len() > 0,
        !dir.contains('\\'),
        !name.contains('\\'),
    ensures
        components(resolved(root, dir + "/"@ + safe(name))) == components(resolved(root, dir)).push(
            Part::Name(safe(name)),
        ),
{
    lemma_safe_name(name);
    law_requests_go_down(root, dir, safe(name));
    assert(seq![safe(name)].map_values(|n: Seq<char>| Part::Name(n)) =~= seq![Part::Name(safe(name))]);
}

/// The files of an uploaded folder land below the folder they go to, at the names in their own
/// paths, if neither holds a backslash.
pub proof fn law_folder_upload_keeps_its_names(root: Seq<char>, dir: Seq<char>, rel: Seq<char>)
    requires
        root.len() > 0,
        !dir.contains('\\'),
        !rel.contains('\\'),
    ensures
        components(resolved(root, dir + "/"@ + trim_start(normalized(rel), '/'))) == components(
            resolved(root, dir),
        ) + names(rel).map_values(|n: Seq<char>| Part::Name(n)),
{
    law_normal_form_of_plain_request(rel);
    lemma_trimmed_normal_form(rel);
    law_requests_go_down(root, dir, trim_start(normalized(rel), '/'));
}

/// The answer to a request on several files: a status, whether all went well, and what failed.
pub struct BatchReply {
    pub status: u16,
    pub ok: bool,
    pub failed: Vec<String>,
}

/// An answer reports what failed, with the status for a part of it where anything did. It is called a
/// success where nothing failed, and in any case if it is lenient.
pub open spec fn reports(r: BatchReply, failed: Seq<Seq<char>>, lenient: bool) -> bool {
    &&& texts(r.failed@) == failed
    &&& r.ok == (lenient || failed.len() == 0)
    &&& r.status == if failed.len() == 0 {
        200u16
    } else {
        207u16
    }
}

/// The answer to an upload. It is called a success even where some files failed.
pub fn upload_reply(failed: Vec<String>) -> (r: BatchReply)
    ensures
        reports(r, texts(failed@), true),
        r.failed == failed,
        r.ok,
        r.status == if failed@.len() == 0 {
            200u16
        } else {
            207u16
        },
{
    let status: u16 = if failed.len() == 0 {
        200
    } else {
        207
    };
    BatchReply { status, ok: true, failed }
}

/// The answer to another request on several files.
pub fn batch_reply(failed: Vec<String>) -> (r: BatchReply)
    ensures
        reports(r, texts(failed@), false),
        r.failed == failed,
        r.ok == (failed@.len() == 0),
        r.status == if failed@.len() == 0 {
            200u16
        } else {
            207u16
        },
{
    let ok = failed.len() == 0;
    let status: u16 = if ok {
        200
    } else {
        207
    };
    BatchReply { status, ok, failed }
}

// ---------------------------------------------------------------------------
// Several files
// ---------------------------------------------------------------------------

/// One path to delete: as requested, and where it lies unless that is refused.
pub struct DeleteStep {
    pub rel: String,
    pub path: Option<String>,
}

/// The place of a request path, unless it is refused.
pub open spec fn place_of(root: Seq<char>, rel: Seq<char>) -> Option<Seq<char>> {
    if danger(resolved(root, rel)) {
        None
    } else {
        Some(resolved(root, rel))
    }
}

/// The paths to delete and their places. The root is passed over.
pub open spec fn delete_steps(root: Seq<char>, paths: Seq<Seq<char>>) -> Seq<(Seq<char>, Option<Seq<char>>)>
    decreases paths.len(),
{
    if paths.len() == 0 {
        Seq::<(Seq<char>, Option<Seq<char>>)>::empty()
    } else {
        let front = delete_steps(root, paths.drop_last());
        let p = paths.last();
        if p.len() == 0 || p == "/"@ {
            front
        } else {
            front.push((p, place_of(root, p)))
        }
    }
}

/// The contents of a list of steps.
pub open spec fn delete_step_views(v: Seq<DeleteStep>) -> Seq<(Seq<char>, Option<Seq<char>>)> {
    v.map_values(|s: DeleteStep| (s.rel@, opt_text(s.path)))
}

/// The place of a request path, unless it is refused.
fn place_opt(fm: &FileManager, rel: &str) -> (r: Option<String>)
    ensures
        opt_text(r) == place_of(fm.root@, rel@),
{
    match fm.safe_abs_path(rel) {
        Ok(p) => Some(p),
        Err(_) => None,
    }
}

/// The paths to delete, in order, and their places.
pub fn batch_delete(fm: &FileManager, req: &BatchPaths) -> (r: Vec<DeleteStep>)
    ensures
        delete_step_views(r@) == delete_steps(fm.root@, texts(req.paths@)),
{
    let paths = &req.paths;
    let mut out: Vec<DeleteStep> = Vec::new();
    let ghost ts = texts(paths@);
    let mut i: usize = 0;
    assert(delete_step_views(out@) =~= delete_steps(fm.root@, ts.take(0)));
    while i < paths.len()
        invariant
            i <= paths@.len(),
            ts == texts(paths@),
            delete_step_views(out@) == delete_steps(fm.root@, ts.take(i as int)),
        decreases paths.len() - i,
    {
        let p = &paths[i];
        proof {
            assert(ts.take(i + 1).drop_last() =~= ts.take(i as int));
            assert(ts.take(i + 1).last() == p@);
        }
        if p.as_str().unicode_len() > 0 && !same(p.as_str(), "/") {
            let ghost was = out@;
            let step = DeleteStep { rel: p.clone(), path: place_opt(fm, p.as_str()) };
            out.push(step);
            assert(delete_step_views(out@) =~= delete_step_views(was).push(
                (step.rel@, opt_text(step.path)),
            ));
        }
        i = i + 1;
    }
    assert(ts.take(ts.len() as int) =~= ts);
    out
}

/// The paths that could not be placed.
pub open spec fn unplaced(steps: Seq<(Seq<char>, Option<Seq<char>>)>) -> Seq<Seq<char>>
    decreases steps.len(),
{
    if steps.len() == 0 {
        Seq::<Seq<char>>::empty()
    } else if steps.last().1 is None {
        unplaced(steps.drop_last()).push(steps.last().0)
    } else {
        unplaced(steps.drop_last())
    }
}

/// The answer to a deletion of several files. Only a path that was refused counts as failed.
pub fn batch_delete_reply(steps: &Vec<DeleteStep>) -> (r: BatchReply)
    ensures
        reports(r, unplaced(delete_step_views(steps@)), false),
        texts(r.failed@) == unplaced(delete_step_views(steps@)),
        r.ok == (r.failed@.len() == 0),
        r.status == if r.failed@.len() == 0 {
            200u16
        } else {
            207u16
        },
{
    let mut failed: Vec<String> = Vec::new();
    let ghost vs = delete_step_views(steps@);
    let mut i: usize = 0;
    assert(texts(failed@) =~= unplaced(vs.take(0)));
    while i < steps.len()
        invariant
            i <= steps@.len(),
            vs == delete_step_views(steps@),
            texts(failed@) == unplaced(vs.take(i as int)),
        decreases steps.len() - i,
    {
        proof {
            assert(vs.take(i + 1).drop_last() =~= vs.take(i as int));
            assert(vs.take(i + 1).last() == (steps@[i as int].rel@, opt_text(steps@[i as int].path)));
        }
        match &steps[i].path {
            Some(_) => {},
            None => {
                let s = steps[i].rel.clone();
                proof {
                    lemma_texts_push(failed@, s);
                }
                failed.push(s);
            },
        }
        i = i + 1;
    }
    assert(vs.take(vs.len() as int) =~= vs);
    batch_reply(failed)
}

/// One path to move or copy: as requested, and the request path it goes to, unless the target lies
/// in it.
pub struct TransferStep {
    pub src: String,
    pub dst: Option<String>,
}

/// A normal form lies in another, or is it.
pub open spec fn within(target: Seq<char>, src: Seq<char>) -> bool {
    src == target || (src + "/"@).is_prefix_of(target + "/"@)
}

/// Where a path goes when it is moved or copied into the folder `target`.
pub open spec fn transfer_target(target: Seq<char>, src: Seq<char>) -> Option<Seq<char>> {
    let tn = normalized(target);
    let sn = normalized(src);
    if within(tn, sn) {
        None
    } else {
        Some(trim_end(tn, '/') + "/"@ + base_name(sn))
    }
}

/// A path without backslashes is moved or copied, unless the target is what it names or lies in
/// it. (The root names nothing; only itself is refused for it.)
pub proof fn law_no_transfer_into_itself(target: Seq<char>, src: Seq<char>)
    requires
        !target.contains('\\'),
        !src.contains('\\'),
        names(src).len() > 0,
    ensures
        transfer_target(target, src) is None <==> names(src).is_prefix_of(names(target)),
{
    let s = names(src);
    let t = names(target);
    let sn = normalized(src);
    let tn = normalized(target);
    let js = join(s, '/');
    let jt = join(t, '/');
    reveal_strlit("/");
    let sep = "/"@;
    law_normal_form_of_plain_request(src);
    law_normal_form_of_plain_request(target);
    lemma_names(src);
    lemma_names(target);
    lemma_split_join(s, '/');
    assert(ordinary(s[0]));
    lemma_join_start(s);
    if s.is_prefix_of(t) {
        let u = t.skip(s.len() as int);
        assert(t =~= s + u);
        if u.len() > 0 {
            assert forall|i: int| 0 <= i < u.len() implies !(#[trigger] u[i]).contains('/') by {
                assert(u[i] == t[i + s.len()]);
            }
            lemma_split_join(u, '/');
            let x = js.push('/') + join(u, '/');
            lemma_split_concat(js, join(u, '/'), '/');
            lemma_join_split(x, '/');
            assert(jt == x);
            assert((tn + sep).subrange(0, (sn + sep).len() as int) =~= sn + sep);
        } else {
            assert(t =~= s);
        }
    }
    if within(tn, sn) {
        if t.len() > 0 {
            lemma_split_join(t, '/');
        } else {
            assert(tn + sep =~= seq!['/', '/']);
            assert((sn + sep).len() >= 3);
        }
        if sn == tn {
            assert(sn.skip(1) =~= js);
            assert(tn.skip(1) =~= jt);
            assert(t.subrange(0, s.len() as int) =~= s);
        } else {
            let whole = tn + sep;
            let head = sn + sep;
            let rest = whole.skip(head.len() as int);
            assert(whole =~= head + rest);
            if rest.len() == 0 {
                assert(whole.drop_last() =~= tn);
                assert(head.drop_last() =~= sn);
                assert(false);
            }
            let tail = rest.drop_last();
            assert(rest.last() == whole.last());
            assert(tn =~= head + tail) by {
                assert(whole.drop_last() =~= tn);
                assert((head + rest).drop_last() =~= head + tail);
            }
            assert(jt =~= js.push('/') + tail) by {
                assert(tn.skip(1) =~= jt);
                assert((head + tail).skip(1) =~= js.push('/') + tail);
            }
            lemma_split_concat(js, tail, '/');
            assert(t == s + split(tail, '/'));
            assert(t.subrange(0, s.len() as int) =~= s);
        }
    }
}

/// The contents of a list of steps.
pub open spec fn transfer_step_views(v: Seq<TransferStep>) -> Seq<(Seq<char>, Option<Seq<char>>)> {
    v.map_values(|s: TransferStep| (s.src@, opt_text(s.dst)))
}

/// The paths to move or copy, in order, and where each of them goes.
pub open spec fn transfer_steps(target: Option<Seq<char>>, paths: Seq<Seq<char>>) -> Seq<
    (Seq<char>, Option<Seq<char>>),
> {
    paths.map_values(|p: Seq<char>| (p, transfer_target(folder_or_root(target), p)))
}

/// The paths to move or copy, in order, and where each of them goes.
pub fn batch_move_copy(req: &BatchPaths) -> (r: Vec<TransferStep>)
    ensures
        transfer_step_views(r@) == transfer_steps(opt_text(req.target), texts(req.paths@)),
        transfer_step_views(r@) == texts(req.paths@).map_values(
            |p: Seq<char>| (p, transfer_target(folder_or_root(opt_text(req.target)), p)),
        ),
{
    let paths = &req.paths;
    let t = folder_or_root_of(&req.target);
    let tn = normalize_path(t.as_str());
    let mut out: Vec<TransferStep> = Vec::new();
    let mut i: usize = 0;
    while i < paths.len()
        invariant
            i <= paths@.len(),
            t@ == folder_or_root(opt_text(req.target)),
            tn@ == normalized(t@),
            out@.len() == i,
            forall|j: int|
                0 <= j < i ==> (#[trigger] out@[j]).src@ == paths@[j]@ && opt_text(out@[j].dst)
                    == transfer_target(t@, paths@[j]@),
        decreases paths.len() - i,
    {
        let sn = normalize_path(paths[i].as_str());
        let src = paths[i].clone();
        if same(sn.as_str(), tn.as_str()) || starts_with(
            cat(tn.as_str(), "/").as_str(),
            cat(sn.as_str(), "/").as_str(),
        ) {
            out.push(TransferStep { src, dst: None });
        } else {
            let dst = cat3(
                trim_end_char(tn.as_str(), '/').as_str(),
                "/",
                base_name_of(sn.as_str()).as_str(),
            );
            out.push(TransferStep { src, dst: Some(dst) });
        }
        i = i + 1;
    }
    assert(transfer_step_views(out@) =~= texts(paths@).map_values(
        |p: Seq<char>| (p, transfer_target(folder_or_root(opt_text(req.target)), p)),
    ));
    assert(transfer_step_views(out@) =~= transfer_steps(opt_text(req.target), texts(paths@)));
    out
}

/// Some step has no target.
pub open spec fn blocked(steps: Seq<TransferStep>) -> bool {
    exists|i: int| 0 <= i < steps.len() && (#[trigger] steps[i]).dst is None
}

/// The answer to a move or copy of several files, with those that failed. One path that the target
/// lies in spoils the whole request, though the others have been moved or copied.
pub fn batch_transfer_reply(steps: &Vec<TransferStep>, failed: Vec<String>) -> (r: Result<
    BatchReply,
    ApiError,
>)
    ensures
        r is Err <==> blocked(steps@),
        r matches Ok(b) ==> reports(b, texts(failed@), false),
        match r {
            Ok(b) => !blocked(steps@) && b.failed == failed && b.ok == (failed@.len() == 0) && b.status
                == if failed@.len() == 0 {
                200u16
            } else {
                207u16
            },
            Err(e) => blocked(steps@) && e.says(
                400,
                "cannot move/copy a folder into itself or its subdirectory"@,
            ),
        },
{
    let mut i: usize = 0;
    while i < steps.len()
        invariant
            i <= steps@.len(),
            forall|j: int| 0 <= j < i ==> (#[trigger] steps@[j]).dst is Some,
        decreases steps.len() - i,
    {
        if steps[i].dst.is_none() {
            return Err(json_error(400, "cannot move/copy a folder into itself or its subdirectory"));
        }
        i = i + 1;
    }
    Ok(batch_reply(failed))
}

// ---------------------------------------------------------------------------
// Contents and permissions
// ---------------------------------------------------------------------------

/// How many bytes of a file are shown as text.
pub const SHOWN_BYTES: u64 = 2_097_152;

/// How many bytes of a file tell its type.
pub const PROBED_BYTES: usize = 512;

/// The text of a file's first bytes. Of a text, it is that text.
pub fn get_file_content(bytes: &Vec<u8>) -> (r: String)
    ensures
        r@ == readable(bytes@),
        valid_utf8(bytes@) ==> r@ == decode_utf8(bytes@),
        forall|text: Seq<char>| bytes@ == #[trigger] encode_utf8(text) ==> r@ == text,
{
    proof {
        assert forall|text: Seq<char>| bytes@ == #[trigger] encode_utf8(text) implies valid_utf8(bytes@)
            && decode_utf8(bytes@) == text by {
            encode_utf8_valid_utf8(text);
            encode_utf8_decode_utf8(text);
        }
    }
    from_lossy(bytes.as_slice())
}

/// Bytes that are taken for text: none of them is zero.
pub open spec fn textual(bytes: Seq<u8>) -> bool {
    forall|i: int| 0 <= i < bytes.len() ==> #[trigger] bytes[i] != 0
}

/// Whether the first bytes of a file are text, and its type: text is what holds no zero byte.
pub fn detect_file_type(bytes: &Vec<u8>) -> (r: (bool, &'static str))
    ensures
        r.0 == textual(bytes@),
        r.0 == !bytes@.contains(0u8),
        r.1@ == if r.0 {
            "text/plain; charset=utf-8"@
        } else {
            "application/octet-stream"@
        },
{
    let mut i: usize = 0;
    while i < bytes.len()
        invariant
            i <= bytes@.len(),
            forall|j: int| 0 <= j < i ==> bytes@[j] != 0,
        decreases bytes.len() - i,
    {
        if bytes[i] == 0 {
            assert(bytes@[i as int] == 0u8);
            return (false, "application/octet-stream");
        }
        i = i + 1;
    }
    (true, "text/plain; charset=utf-8")
}

/// The permissions in a mode: its last nine bits.
pub open spec fn permissions(mode: u32) -> u32 {
    mode & 0x1ff
}

/// The permissions in a mode: its last nine bits.
pub fn get_permission(mode: u32) -> (r: u32)
    ensures
        r == permissions(mode),
        r == mode % 512,
{
    assert(mode & 0x1ff == mode % 512) by (bit_vector);
    mode & 0x1ff
}

/// The mode that a request sets: 0644 where it names none.
pub open spec fn mode_or_usual(mode: Option<u32>) -> u32 {
    match mode {
        Some(m) => m,
        None => 420,
    }
}

/// The mode that a request sets: 0644 where it names none.
pub fn set_permission(mode: Option<u32>) -> (r: u32)
    ensures
        r == mode_or_usual(mode),
        r == (match mode {
            Some(m) => m,
            None => 420u32,
        }),
{
    match mode {
        Some(m) => m,
        None => 420,
    }
}

// ---------------------------------------------------------------------------
// Public files
// ---------------------------------------------------------------------------

/// What is to be done to make files public or not.
pub enum VisibilityPlan {
    /// Mark everything at or below a place.
    Mark(String),
    /// Forget the marks.
    Forget(Statement),
}

/// A plan to make what a path names public or not.
pub open spec fn plans(
    r: Result<VisibilityPlan, ApiError>,
    root: Seq<char>,
    path: Seq<char>,
    public: bool,
) -> bool {
    match r {
        Ok(VisibilityPlan::Mark(p)) => public && place_of(root, path) == Some(p@),
        Ok(VisibilityPlan::Forget(s)) => !public && s@ == delete_tree(path),
        Err(e) => public && place_of(root, path) is None && e.says(500, denied()),
    }
}

/// What is to be done to make files public or not. Only a place that is marked can be refused.
pub fn set_visibility(fm: &FileManager, req: &VisReq) -> (r: Result<VisibilityPlan, ApiError>)
    ensures
        plans(r, fm.root@, req.path@, req.is_public),
        if req.is_public {
            match r {
                Ok(VisibilityPlan::Mark(p)) => p@ == resolved(fm.root@, req.path@) && !danger(p@),
                Ok(VisibilityPlan::Forget(_)) => false,
                Err(e) => danger(resolved(fm.root@, req.path@)) && e.says(500, denied()),
            }
        } else {
            r matches Ok(VisibilityPlan::Forget(s)) && s@ == delete_tree(req.path@)
        },
{
    if !req.is_public {
        return Ok(VisibilityPlan::Forget(delete_visibility_tree(req.path.as_str())));
    }
    match place(fm, req.path.as_str(), 500) {
        Ok(p) => Ok(VisibilityPlan::Mark(p)),
        Err(e) => Err(e),
    }
}

/// The folder of a public path, if it is not the root itself.
pub open spec fn public_folder(rel: Seq<char>) -> Option<Seq<char>> {
    match parent(rel) {
        Some(p) => if components(p) == seq![Part::Root] {
            None
        } else {
            Some(p)
        },
        None => None,
    }
}

/// The folder of a public path, if it is not the root itself. A path in a public folder is not
/// listed on its own.
pub fn public_parent(rel: &str) -> (r: Option<String>)
    ensures
        opt_text(r) == public_folder(rel@),
{
    match parent_of(rel) {
        Some(p) => {
            let cs = path_components(p.as_str());
            proof {
                assert(part_views(cs@).len() == cs@.len());
                if cs@.len() == 1 {
                    assert(part_views(cs@)[0] == cs@[0]@);
                    if cs@[0] is Root {
                        assert(part_views(cs@) =~= seq![Part::Root]);
                    } else {
                        assert(seq![Part::Root][0] == Part::Root);
                    }
                } else {
                    assert(seq![Part::Root].len() == 1);
                }
            }
            if cs.len() == 1 && matches!(cs[0], Component::Root) {
                None
            } else {
                Some(p)
            }
        },
        None => None,
    }
}

/// The request path that a direct link asks for.
pub open spec fn direct(path: Seq<char>) -> Seq<char> {
    "/"@ + path
}

/// The request path that a direct link asks for.
pub fn raw_path(path: &str) -> (r: String)
    ensures
        r@ == direct(path@),
        r@ == "/"@ + path@,
{
    cat("/", path)
}

/// The place of a path in the list of all public files.
pub open spec fn listed_place(root: Seq<char>, rel: Seq<char>, folder_public: bool) -> Option<Seq<char>> {
    if public_folder(rel) is Some && folder_public {
        None
    } else {
        place_of(root, rel)
    }
}

/// The place of a path in the list of all public files: nothing if its folder is public and lists
/// it, or if the path is refused.
pub fn public_entry(fm: &FileManager, rel: &str, folder_public: bool) -> (r: Option<String>)
    ensures
        opt_text(r) == listed_place(fm.root@, rel@, folder_public),
        opt_text(r) == if public_folder(rel@) is Some && folder_public {
            None
        } else {
            place_of(fm.root@, rel@)
        },
{
    if public_parent(rel).is_some() && folder_public {
        return None;
    }
    place_opt(fm, rel)
}

/// What the public files are listed from.
#[derive(Debug)]
pub enum PublicListing {
    /// All marks.
    Marks,
    /// A folder.
    Folder(String),
}

/// The folder whose public files a request lists, nothing where it lists all that is marked.
pub open spec fn listed_folder(path: Option<Seq<char>>) -> Option<Seq<char>> {
    match path {
        Some(p) => if p == "/"@ {
            None
        } else {
            Some(p)
        },
        None => None,
    }
}

/// What a request for public files lists: all that is marked where it names no path or the root,
/// else the public files in the folder that it names.
pub fn list_public_files(path: Option<String>) -> (r: PublicListing)
    ensures
        match listed_folder(opt_text(path)) {
            Some(p) => r matches PublicListing::Folder(f) && f@ == p,
            None => r is Marks,
        },
        match r {
            PublicListing::Marks => path matches Some(p) ==> p@ == "/"@,
            PublicListing::Folder(f) => f@ != "/"@ && opt_text(path) == Some(f@),
        },
{
    match path {
        Some(p) => {
            if same(p.as_str(), "/") {
                PublicListing::Marks
            } else {
                PublicListing::Folder(p)
            }
        },
        None => PublicListing::Marks,
    }
}

/// The statement that reads all public paths.
pub fn public_paths() -> (r: Statement)
    ensures
        r@ == statement(
            "SELECT file_path FROM file_visibilities WHERE is_public=1"@,
            Seq::<ParamView>::empty(),
        ),
{
    Statement::new("SELECT file_path FROM file_visibilities WHERE is_public=1")
}

/// The statement that forgets the mark of a file that is gone.
pub open spec fn forget(rel: Seq<char>) -> StatementView {
    statement("DELETE FROM file_visibilities WHERE file_path=?"@, seq![ParamView::Text(rel)])
}

/// The statement that forgets the mark of a file that is gone.
pub fn forget_path(rel: &str) -> (r: Statement)
    ensures
        r@ == forget(rel@),
        r@ == statement(
            "DELETE FROM file_visibilities WHERE file_path=?"@,
            seq![ParamView::Text(rel@)],
        ),
{
    let r = Statement::new("DELETE FROM file_visibilities WHERE file_path=?").text(rel);
    assert(r@ =~= statement(
        "DELETE FROM file_visibilities WHERE file_path=?"@,
        seq![ParamView::Text(rel@)],
    ));
    r
}

/// The place of a file that is asked for as public, or the status and the message of the refusal.
pub open spec fn public_outcome(root: Seq<char>, rel: Seq<char>, public: bool) -> Result<
    Seq<char>,
    (u16, Seq<char>),
> {
    if !public {
        Err((403, "not public"@))
    } else {
        match place_of(root, rel) {
            Some(p) => Ok(p),
            None => Err((400, denied())),
        }
    }
}

/// The place of a file that is asked for as public: refused unless it is.
pub fn public_place(fm: &FileManager, rel: &str, public: bool) -> (r: Result<String, ApiError>)
    ensures
        outcome(r) == public_outcome(fm.root@, rel@, public),
        !public ==> (r matches Err(e) && e.says(403, "not public"@)),
        public ==> placed(r, fm.root@, rel@, 400),
{
    if !public {
        return Err(json_error(403, "not public"));
    }
    place(fm, rel, 400)
}

// ---------------------------------------------------------------------------
// Laws
// ---------------------------------------------------------------------------

/// The outcome of placing a request is the same whether it is asked for alone or among others: the
/// place below the root, or none where that lies in a virtual file system.
pub proof fn law_places_agree(r: Result<String, ApiError>, root: Seq<char>, rel: Seq<char>, status: u16)
    requires
        placed(r, root, rel, status),
    ensures
        match r {
            Ok(p) => place_of(root, rel) == Some(p@) && p@ == resolved(root, rel) && components(
                root,
            ).is_prefix_of(components(p@)) && !danger(p@),
            Err(e) => place_of(root, rel) is None && danger(resolved(root, rel)) && e.status == status,
        },
        place_of(root, rel) is None <==> danger(resolved(root, rel)),
        place_of(root, rel) matches Some(p) ==> p == resolved(root, rel) && components(root).is_prefix_of(
            components(p),
        ),
{
    law_resolved_below_root(root, rel);
}

/// How many of the paths name something other than the root.
pub open spec fn deletable(paths: Seq<Seq<char>>) -> nat
    decreases paths.len(),
{
    if paths.len() == 0 {
        0
    } else {
        deletable(paths.drop_last()) + if paths.last().len() > 0 && paths.last() != seq!['/'] {
            1nat
        } else {
            0nat
        }
    }
}

/// Deleting several paths aims at what deleting each of them alone aims at: there is a step for each
/// path but the empty one and the root, in the order of the request, with the place of that path below
/// the root, or none exactly if that place is refused.
pub proof fn law_batch_delete_aims_at_each_path(root: Seq<char>, paths: Seq<Seq<char>>)
    ensures
        delete_steps(root, paths).len() == deletable(paths),
        forall|i: int|
            0 <= i < paths.len() && (#[trigger] paths[i]).len() > 0 && paths[i] != seq!['/'] ==> {
                let k = deletable(paths.take(i)) as int;
                &&& 0 <= k < delete_steps(root, paths).len()
                &&& delete_steps(root, paths)[k].0 == paths[i]
                &&& delete_steps(root, paths)[k].1 == if danger(resolved(root, paths[i])) {
                    None
                } else {
                    Some(resolved(root, paths[i]))
                }
            },
        forall|k: int|
            0 <= k < delete_steps(root, paths).len() ==> ((#[trigger] delete_steps(root, paths)[k]).1 matches Some(
                p,
            ) ==> components(root).is_prefix_of(components(p))),
    decreases paths.len(),
{
    reveal_strlit("/");
    assert("/"@ =~= seq!['/']);
    let steps = delete_steps(root, paths);
    if paths.len() > 0 {
        let front = paths.drop_last();
        let was = delete_steps(root, front);
        law_batch_delete_aims_at_each_path(root, front);
        law_resolved_below_root(root, paths.last());
        assert forall|i: int|
            0 <= i < paths.len() && (#[trigger] paths[i]).len() > 0 && paths[i] != seq!['/'] implies {
            let k = deletable(paths.take(i)) as int;
            &&& 0 <= k < steps.len()
            &&& steps[k].0 == paths[i]
            &&& steps[k].1 == if danger(resolved(root, paths[i])) {
                None
            } else {
                Some(resolved(root, paths[i]))
            }
        } by {
            if i < front.len() {
                assert(front[i] == paths[i]);
                assert(front.take(i) =~= paths.take(i));
            } else {
                assert(paths.take(i) =~= front);
            }
        }
        assert forall|k: int| 0 <= k < steps.len() implies ((#[trigger] steps[k]).1 matches Some(p)
            ==> components(root).is_prefix_of(components(p))) by {
            if k < was.len() {
                assert(steps[k] == was[k]);
            }
        }
    }
}

/// A path is reported as failed exactly if it has no place, and the reports stand in the order of the
/// steps.
pub proof fn law_refused_paths_are_reported(
    a: Seq<(Seq<char>, Option<Seq<char>>)>,
    b: Seq<(Seq<char>, Option<Seq<char>>)>,
    s: (Seq<char>, Option<Seq<char>>),
)
    ensures
        unplaced(a + b) == unplaced(a) + unplaced(b),
        unplaced(seq![s]) == if s.1 is None {
            seq![s.0]
        } else {
            Seq::<Seq<char>>::empty()
        },
        unplaced(Seq::<(Seq<char>, Option<Seq<char>>)>::empty()).len() == 0,
    decreases b.len(),
{
    let none = Seq::<(Seq<char>, Option<Seq<char>>)>::empty();
    reveal_with_fuel(unplaced, 2);
    assert(seq![s].drop_last() =~= none);
    assert(unplaced(seq![s]) =~= if s.1 is None {
        seq![s.0]
    } else {
        Seq::<Seq<char>>::empty()
    });
    if b.len() == 0 {
        assert(a + b =~= a);
        assert(unplaced(a) + unplaced(b) =~= unplaced(a));
    } else {
        law_refused_paths_are_reported(a, b.drop_last(), s);
        assert((a + b).drop_last() =~= a + b.drop_last());
        assert((a + b).last() == b.last());
        assert(unplaced(a + b) =~= unplaced(a) + unplaced(b));
    }
}

/// A path that is moved or copied lands in the target folder itself, under its own last name, if
/// neither holds a backslash.
pub proof fn law_transfer_lands_in_its_target(root: Seq<char>, target: Seq<char>, src: Seq<char>)
    requires
        root.len() > 0,
        !target.contains('\\'),
        !src.contains('\\'),
        names(src).len() > 0,
    ensures
        transfer_target(target, src) matches Some(d) ==> components(resolved(root, d)) == components(
            resolved(root, target),
        ).push(Part::Name(names(src).last())),
{
    let tn = normalized(target);
    let sn = normalized(src);
    let ns = names(src);
    let t = trim_end(tn, '/');
    reveal_strlit("/");
    assert("/"@ =~= seq!['/']);
    law_normal_form_of_plain_request(src);
    law_normal_form_of_plain_request(target);
    law_normal_form_is_absolute(target);
    lemma_names(src);
    assert forall|i: int| 0 <= i < ns.len() implies (#[trigger] ns[i]).len() > 0 && ns[i] != seq!['.']
        && ns[i] != seq!['.', '.'] && !ns[i].contains('/') by {
        assert(ordinary(ns[i]));
    }
    law_path_of_names(ns);
    let n = ns.last();
    assert(n == ns[ns.len() - 1]);
    assert(components(sn).last() == Part::Name(n));
    assert(base_name(sn) == n);
    let d = t + "/"@ + n;
    lemma_trim_end_names(tn);
    assert(!t.contains('\\')) by {
        assert forall|i: int| 0 <= i < t.len() implies t[i] != '\\' by {
            assert(t[i] == tn[i]);
        }
    }
    law_requests_go_down(root, t, n);
    lemma_names_one(n);
    law_plain_request_follows_its_names(root, t);
    law_plain_request_follows_its_names(root, target);
    assert(seq![n].map_values(|n: Seq<char>| Part::Name(n)) =~= seq![Part::Name(n)]);
    assert(components(resolved(root, t)) + seq![Part::Name(n)] =~= components(resolved(root, t)).push(
        Part::Name(n),
    ));
}

/// Trailing slashes hold no names.
proof fn lemma_trim_end_names(s: Seq<char>)
    ensures
        names(trim_end(s, '/')) == names(s),
        trim_end(s, '/').is_prefix_of(s),
        trail(s, equals('/')) <= s.len(),
    decreases s.len(),
{
    let e = Seq::<char>::empty();
    if s.len() > 0 && s.last() == '/' {
        let t = s.drop_last();
        lemma_trim_end_names(t);
        assert(trail(s, equals('/')) == 1 + trail(t, equals('/')));
        assert(trim_end(s, '/') =~= trim_end(t, '/'));
        assert(s =~= t + seq!['/'] + e);
        lemma_names_concat(t, e);
        lemma_no_names();
        assert(names(s) =~= names(t));
        assert(trim_end(s, '/') =~= s.subrange(0, trim_end(s, '/').len() as int));
    } else {
        assert(trim_end(s, '/') =~= s);
        assert(s =~= s.subrange(0, s.len() as int));
    }
}

/// A request that names no folder is one for the root.
pub proof fn law_no_folder_means_the_root(root: Seq<char>, dir: Seq<char>)
    ensures
        folder_or_root(Some(dir)) == dir,
        folder_or_root(None) == seq!['/'],
        names(folder_or_root(None)).len() == 0,
        root.len() > 0 ==> components(resolved(root, folder_or_root(None))) == components(root),
{
    let e = Seq::<char>::empty();
    reveal_strlit("/");
    assert("/"@ =~= seq!['/']);
    assert(seq!['/'] =~= e + seq!['/'] + e);
    lemma_names_concat(e, e);
    lemma_no_names();
    assert(names(seq!['/']) =~= Seq::<Seq<char>>::empty());
    if root.len() > 0 {
        law_plain_request_follows_its_names(root, seq!['/']);
        assert(components(root) + names(seq!['/']).map_values(|n: Seq<char>| Part::Name(n)) =~= components(
            root,
        ));
    }
}

/// An upload is stored under the last name of its own path, whatever folders stand before it, and a
/// plain name under itself.
pub proof fn law_upload_is_called_by_its_last_name(folder: Seq<char>, n: Seq<char>)
    requires
        n.len() > 0,
        n != seq!['.'],
        n != seq!['.', '.'],
        !n.contains('/'),
    ensures
        safe(n) == n,
        folder.len() > 0 ==> safe(joined(folder, n)) == n,
        name_or_empty(Some(n)) == n,
        name_or_empty(None).len() == 0,
{
    law_joined_name_is_the_last(seq!['/'], n);
    lemma_split_whole(n, '/');
    assert(seq![n].drop_first() =~= Seq::<Seq<char>>::empty());
    assert(ordinary(n));
    assert(components(n) =~= seq![Part::Name(n)]);
    if folder.len() > 0 {
        law_joined_name_is_the_last(folder, n);
    }
}

/// The folder of a public path has all its components but the last; what lies in the root has none.
pub proof fn law_public_folder_is_the_folder(rel: Seq<char>)
    ensures
        match public_folder(rel) {
            Some(p) => components(rel).len() > 0 && components(p) == components(rel).drop_last()
                && components(p) != seq![Part::Root],
            None => components(rel).len() == 0 || components(rel) == seq![Part::Root]
                || components(rel).drop_last() == seq![Part::Root],
        },
{
    law_parent_lacks_the_last_component(rel);
}

/// The path that a request names counts, whatever it is; only where it names none, the other one.
pub proof fn law_named_path_counts(path: Seq<char>, default: Seq<char>)
    ensures
        named_or(Some(path), default) == path,
        named_or(None, default) == default,
{
}

/// Deleting is refused for a request that names nothing or the root, with different answers, and for a place
/// in a virtual file system; otherwise it aims at the place of the path, as deleting it among others does.
pub proof fn law_deletion_aims_at_its_path(root: Seq<char>, path: Seq<char>)
    ensures
        deletion(root, None) is Err,
        deletion(root, None)->Err_0.0 == 400,
        path.len() == 0 || path == seq!['/'] ==> deletion(root, Some(path)) is Err && deletion(
            root,
            Some(path),
        )->Err_0.0 == 500,
        path.len() > 0 && path != seq!['/'] && danger(resolved(root, path)) ==> deletion(root, Some(path))
            == Err::<Seq<char>, (u16, Seq<char>)>((500, denied())),
        path.len() > 0 && path != seq!['/'] && !danger(resolved(root, path)) ==> deletion(root, Some(path))
            == Ok::<Seq<char>, (u16, Seq<char>)>(resolved(root, path)),
        path.len() > 0 && path != seq!['/'] ==> delete_steps(root, seq![path]) == seq![
            (
                path,
                match deletion(root, Some(path)) {
                    Ok(p) => Some(p),
                    Err(_) => None,
                },
            ),
        ],
        path.len() == 0 || path == seq!['/'] ==> delete_steps(root, seq![path]).len() == 0,
{
    reveal_strlit("/");
    assert("/"@ =~= seq!['/']);
    reveal_with_fuel(delete_steps, 2);
    assert(seq![path].drop_last() =~= Seq::<Seq<char>>::empty());
    if path.len() > 0 && path != seq!['/'] {
        assert(delete_steps(root, seq![path]) =~= seq![(path, place_of(root, path))]);
    }
}

/// A file is written where its request leads, and the folder made for it is the one that it lies in: its
/// place without the last component.
pub proof fn law_files_are_written_in_their_folder(
    r: Result<WriteTarget, PathError>,
    root: Seq<char>,
    rel: Seq<char>,
)
    requires
        writes(r, root, rel),
    ensures
        r is Err <==> danger(resolved(root, rel)),
        r matches Ok(t) ==> t.path@ == resolved(root, rel) && match opt_text(t.parent) {
            Some(p) => components(p) == components(t.path@).drop_last(),
            None => components(t.path@).len() == 0 || components(t.path@) == seq![Part::Root],
        },
{
    law_parent_lacks_the_last_component(resolved(root, rel));
}

/// A move or copy goes from the place of the one path to the place of the other, and not at all if one of
/// them is refused.
pub proof fn law_transfer_goes_from_one_to_the_other(root: Seq<char>, src: Seq<char>, dst: Seq<char>)
    ensures
        transfer(root, src, dst) is None <==> danger(resolved(root, src)) || danger(resolved(root, dst)),
        transfer(root, src, dst) matches Some(t) ==> t.0 == resolved(root, src) && t.1 == resolved(root, dst),
{
}

/// Only a field called `files` is uploaded. A file goes into the folder under the last name of its path, and
/// one of a folder at all the names of its path, if no backslash is held.
pub proof fn law_uploads_go_into_their_folder(
    root: Seq<char>,
    dir: Seq<char>,
    field: Option<Seq<char>>,
    name: Seq<char>,
)
    requires
        root.len() > 0,
        !dir.contains('\\'),
        !name.contains('\\'),
    ensures
        field != Some("files"@) ==> file_upload(Some(dir), field, Some(name)) is None && folder_upload(
            Some(dir),
            field,
            Some(name),
        ) is None,
        field == Some("files"@) ==> {
            &&& file_upload(Some(dir), field, Some(name)) matches Some(u) && u.0 == name && components(
                resolved(root, u.1),
            ) == components(resolved(root, dir)).push(Part::Name(safe(name)))
            &&& folder_upload(Some(dir), field, Some(name)) matches Some(u) && names(u.0) == names(name)
                && components(resolved(root, u.1)) == components(resolved(root, dir)) + names(
                name,
            ).map_values(|n: Seq<char>| Part::Name(n))
        },
        file_upload(None, field, Some(name)) == file_upload(Some(seq!['/']), field, Some(name)),
        folder_upload(None, field, Some(name)) == folder_upload(Some(seq!['/']), field, Some(name)),
        file_upload(Some(dir), field, None) == file_upload(Some(dir), field, Some(Seq::<char>::empty())),
        folder_upload(Some(dir), field, None) == folder_upload(Some(dir), field, Some(Seq::<char>::empty())),
{
    reveal_strlit("/");
    assert("/"@ =~= seq!['/']);
    law_upload_lands_in_its_folder(root, dir, name);
    law_folder_upload_keeps_its_names(root, dir, name);
    law_normal_form_of_plain_request(name);
    lemma_trimmed_normal_form(name);
}

/// An answer on several files reports exactly what failed. Its status is 200 if nothing did and else 207, and
/// only an upload is called a success in either case.
pub proof fn law_answers_report_what_failed(r: BatchReply, failed: Seq<Seq<char>>, lenient: bool)
    requires
        reports(r, failed, lenient),
    ensures
        texts(r.failed@) == failed,
        r.status == 200 <==> failed.len() == 0,
        r.status == 207 <==> failed.len() > 0,
        lenient ==> r.ok,
        !lenient ==> (r.ok <==> failed.len() == 0),
{
}

/// One path that cannot be moved or copied spoils the request, wherever it stands.
pub proof fn law_one_blocked_path_is_enough(a: Seq<TransferStep>, s: TransferStep, b: Seq<TransferStep>)
    ensures
        blocked(a + b) <==> blocked(a) || blocked(b),
        blocked(seq![s]) <==> s.dst is None,
        !blocked(Seq::<TransferStep>::empty()),
{
    let ab = a + b;
    if blocked(a) {
        let i = choose|i: int| 0 <= i < a.len() && (#[trigger] a[i]).dst is None;
        assert(ab[i] == a[i]);
    }
    if blocked(b) {
        let i = choose|i: int| 0 <= i < b.len() && (#[trigger] b[i]).dst is None;
        assert(ab[i + a.len()] == b[i]);
    }
    if blocked(ab) {
        let i = choose|i: int| 0 <= i < ab.len() && (#[trigger] ab[i]).dst is None;
        if i < a.len() {
            assert(ab[i] == a[i]);
        } else {
            assert(ab[i] == b[i - a.len()]);
        }
    }
    assert(seq![s][0] == s);
}

/// Moving or copying several paths goes through them one by one, in the order of the request.
pub proof fn law_each_path_is_transferred(target: Option<Seq<char>>, paths: Seq<Seq<char>>, i: int)
    requires
        0 <= i < paths.len(),
    ensures
        transfer_steps(target, paths).len() == paths.len(),
        transfer_steps(target, paths)[i].0 == paths[i],
        transfer_steps(target, paths)[i] == transfer_steps(target, seq![paths[i]])[0],
        target matches Some(t) ==> transfer_steps(target, paths)[i].1 == transfer_target(t, paths[i]),
        target is None ==> transfer_steps(target, paths)[i].1 == transfer_target(seq!['/'], paths[i]),
{
    reveal_strlit("/");
    assert("/"@ =~= seq!['/']);
}

/// Bytes are text exactly if none of them is zero, wherever it stands.
pub proof fn law_a_zero_byte_is_no_text(a: Seq<u8>, x: u8, b: Seq<u8>)
    ensures
        textual(a + b) <==> textual(a) && textual(b),
        textual(seq![x]) <==> x != 0,
        textual(Seq::<u8>::empty()),
{
    let ab = a + b;
    if textual(ab) {
        assert forall|i: int| 0 <= i < a.len() implies #[trigger] a[i] != 0 by {
            assert(ab[i] == a[i]);
        }
        assert forall|i: int| 0 <= i < b.len() implies #[trigger] b[i] != 0 by {
            assert(ab[i + a.len()] == b[i]);
        }
    }
    assert(seq![x][0] == x);
}

/// The permissions are the nine bits for reading, writing and execution; what else a mode says does not
/// count. A mode that is set is set as it is given.
pub proof fn law_permissions_are_nine_bits(mode: u32, other: u32)
    ensures
        permissions(mode) == mode % 512,
        mode < 512 ==> permissions(mode) == mode,
        permissions((mode & 0x1ff) | (other & 0xffff_fe00)) == permissions(mode),
        mode_or_usual(Some(mode)) == mode,
        mode_or_usual(None) == 6 * 64 + 4 * 8 + 4,
{
    assert(mode & 0x1ff == mode % 512) by (bit_vector);
    assert(((mode & 0x1ff) | (other & 0xffff_fe00)) & 0x1ff == mode & 0x1ff) by (bit_vector);
}

/// What is to become public is marked at its place, and refused only if that is in a virtual file system;
/// what is no more to be public is forgotten with all that is below it, and never refused.
pub proof fn law_visibility_is_set_or_forgotten(
    r: Result<VisibilityPlan, ApiError>,
    root: Seq<char>,
    path: Seq<char>,
    public: bool,
)
    requires
        plans(r, root, path, public),
    ensures
        r is Err <==> public && danger(resolved(root, path)),
        r matches Ok(p) ==> (p is Mark <==> public),
        r matches Ok(VisibilityPlan::Mark(p)) ==> p@ == resolved(root, path),
        r matches Ok(VisibilityPlan::Forget(s)) ==> s@.params[0] == ParamView::Text(normalized(path)),
{
}

/// A public path is listed on its own unless the folder that it lies in is public: a path of the root always
/// is. It is listed at its place, if that is not refused.
pub proof fn law_public_paths_are_listed_once(root: Seq<char>, rel: Seq<char>)
    ensures
        listed_place(root, rel, false) is Some <==> !danger(resolved(root, rel)),
        listed_place(root, rel, true) is Some <==> !danger(resolved(root, rel)) && public_folder(rel) is None,
        listed_place(root, rel, false) matches Some(p) ==> p == resolved(root, rel),
        listed_place(root, rel, true) matches Some(p) ==> p == resolved(root, rel),
{
}

/// All marks are listed where no path or the root is named, and else the folder that is named.
pub proof fn law_public_folder_is_listed(path: Seq<char>)
    ensures
        listed_folder(None) is None,
        path == seq!['/'] ==> listed_folder(Some(path)) is None,
        path != seq!['/'] ==> listed_folder(Some(path)) == Some(path),
{
    reveal_strlit("/");
    assert("/"@ =~= seq!['/']);
}

/// Nothing that is not public is given as public, and what is public is given at its place.
pub proof fn law_only_public_files_are_given(root: Seq<char>, rel: Seq<char>)
    ensures
        public_outcome(root, rel, false) is Err,
        public_outcome(root, rel, false)->Err_0.0 == 403,
        public_outcome(root, rel, true) is Ok <==> !danger(resolved(root, rel)),
        public_outcome(root, rel, true) matches Ok(p) ==> p == resolved(root, rel),
        public_outcome(root, rel, true) matches Err(e) ==> e.0 == 400,
{
}

/// A file that is gone is forgotten under its own path and no other.
pub proof fn law_gone_files_are_forgotten(rel: Seq<char>)
    ensures
        forget(rel) == statement(
            "DELETE FROM "@ + "file_visibilities"@ + " WHERE "@ + "file_path"@ + "=?"@,
            seq![ParamView::Text(rel)],
        ),
{
    reveal_strlit("DELETE FROM ");
    reveal_strlit("file_visibilities");
    reveal_strlit(" WHERE ");
    reveal_strlit("file_path");
    reveal_strlit("=?");
    reveal_strlit("DELETE FROM file_visibilities WHERE file_path=?");
    assert("DELETE FROM file_visibilities WHERE file_path=?"@ =~= "DELETE FROM "@ + "file_visibilities"@
        + " WHERE "@ + "file_path"@ + "=?"@);
}

/// A direct link asks for the names that stand in it.
pub proof fn law_direct_links_keep_their_names(path: Seq<char>)
    ensures
        names(direct(path)) == names(path),
        path.is_suffix_of(direct(path)),
{
    reveal_strlit("/");
    let e = Seq::<char>::empty();
    assert(direct(path) =~= e + seq!['/'] + path);
    lemma_names_concat(e, path);
    lemma_no_names();
    assert(names(direct(path)) =~= names(path));
    let d = direct(path);
    assert(d.subrange(1, d.len() as int) =~= path);
}

/// A step is seen as the requested path and where it leads, each step at its position, and an upload as its
/// name and where it goes.
pub proof fn law_steps_are_seen(d: Seq<DeleteStep>, t: Seq<TransferStep>, u: Upload, i: int)
    ensures
        delete_step_views(d).len() == d.len(),
        0 <= i < d.len() ==> delete_step_views(d)[i].0 == d[i].rel@,
        0 <= i < d.len() ==> delete_step_views(d)[i].1 == opt_text(d[i].path),
        transfer_step_views(t).len() == t.len(),
        0 <= i < t.len() ==> transfer_step_views(t)[i].0 == t[i].src@,
        0 <= i < t.len() ==> transfer_step_views(t)[i].1 == opt_text(t[i].dst),
        upload_view(Some(u)) == Some((u.label@, u.rel@)),
        upload_view(None) is None,
{
}

} // verus!
