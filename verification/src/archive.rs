//! Packing files into archives and unpacking them.

use vstd::prelude::*;
use vstd::utf8::is_ascii_chars;

use crate::files::{place, place_of, folder_or_root, denied};
use crate::paths::{
    absolute, base_name, base_name_of, components, danger, dot, dot_dot, join_path, joined,
    law_extension_follows_the_last_dot, law_joined_name_is_the_last,
    law_parent_lacks_the_last_component, law_path_of_names, lemma_joined_below,
    lemma_joined_components, lemma_names, lemma_names_concat, lemma_names_one,
    lemma_ordinary_parts, lemma_parts_are_names, names, names_of, ordinary, parent, parent_of, part,
    parts, path_starts_with, rest_parts, stem, stem_of, Part,
};
use crate::reply::{json_error, ApiError};
use crate::storage::{
    law_plain_request_follows_its_names, law_requests_go_down, lemma_join_start, resolved, FileManager,
};
use crate::text::{
    ascii_lowered, cat, cat3, ends_with, join, join_with, lemma_split_join, lemma_split_nonempty,
    lemma_split_whole, lower, lowered, opt_text, same, split, texts,
};
use crate::types::{BatchPaths, CompressReq, DecompressReq};

verus! {

// ---------------------------------------------------------------------------
// What goes into an archive
// ---------------------------------------------------------------------------

/// A file or folder to pack: its place on disk and its name in the archive.
pub struct ArchiveEntry {
    pub path: String,
    pub name: String,
}

/// The contents of a list of entries.
pub open spec fn entry_views(v: Seq<ArchiveEntry>) -> Seq<(Seq<char>, Seq<char>)> {
    v.map_values(|e: ArchiveEntry| (e.path@, e.name@))
}

/// The entries for the requested paths, in order, without those that are refused. An entry is
/// called after the requested path, or after its place on disk.
pub open spec fn entries(root: Seq<char>, paths: Seq<Seq<char>>, by_place: bool) -> Seq<
    (Seq<char>, Seq<char>),
>
    decreases paths.len(),
{
    if paths.len() == 0 {
        Seq::<(Seq<char>, Seq<char>)>::empty()
    } else {
        let front = entries(root, paths.drop_last(), by_place);
        let p = paths.last();
        match place_of(root, p) {
            Some(abs) => front.push(
                (
                    abs,
                    base_name(
                        if by_place {
                            abs
                        } else {
                            p
                        },
                    ),
                ),
            ),
            None => front,
        }
    }
}

/// The entries for the requested paths.
fn collect(fm: &FileManager, paths: &Vec<String>, by_place: bool) -> (r: Vec<ArchiveEntry>)
    ensures
        entry_views(r@) == entries(fm.root@, texts(paths@), by_place),
{
    let mut out: Vec<ArchiveEntry> = Vec::new();
    let ghost ts = texts(paths@);
    let mut i: usize = 0;
    assert(entry_views(out@) =~= entries(fm.root@, ts.take(0), by_place));
    while i < paths.len()
        invariant
            i <= paths@.len(),
            ts == texts(paths@),
            entry_views(out@) == entries(fm.root@, ts.take(i as int), by_place),
        decreases paths.len() - i,
    {
        proof {
            assert(ts.take(i + 1).drop_last() =~= ts.take(i as int));
            assert(ts.take(i + 1).last() == paths@[i as int]@);
        }
        match fm.safe_abs_path(paths[i].as_str()) {
            Ok(path) => {
                let ghost was = out@;
                let name = if by_place {
                    base_name_of(path.as_str())
                } else {
                    base_name_of(paths[i].as_str())
                };
                let e = ArchiveEntry { path, name };
                out.push(e);
                assert(entry_views(out@) =~= entry_views(was).push((e.path@, e.name@)));
            },
            Err(_) => {},
        }
        i = i + 1;
    }
    assert(ts.take(ts.len() as int) =~= ts);
    out
}

/// What a download of several files is called.
pub open spec fn zip_name(filename: Option<Seq<char>>) -> Seq<char> {
    let name = match filename {
        Some(f) => f,
        None => "download"@,
    };
    if ".zip"@.is_suffix_of(lowered(name)) {
        name
    } else {
        name + ".zip"@
    }
}

/// A download of several files: what it is called and what it holds.
pub struct DownloadPlan {
    pub filename: String,
    pub entries: Vec<ArchiveEntry>,
}

/// A download holds what is left of the requested paths; refused if none of them is.
pub open spec fn downloads(
    r: Result<DownloadPlan, ApiError>,
    root: Seq<char>,
    paths: Seq<Seq<char>>,
    filename: Option<Seq<char>>,
) -> bool {
    match r {
        Ok(d) => {
            &&& d.filename@ == zip_name(filename)
            &&& entry_views(d.entries@) == entries(root, paths, false)
            &&& d.entries@.len() > 0
        },
        Err(e) => entries(root, paths, false).len() == 0 && e.says(400, "no valid paths"@),
    }
}

/// A download of several files, refused if none of them is left.
pub fn batch_download(fm: &FileManager, req: BatchPaths) -> (r: Result<DownloadPlan, ApiError>)
    ensures
        downloads(r, fm.root@, texts(req.paths@), opt_text(req.filename)),
        match r {
            Ok(d) => {
                &&& d.filename@ == zip_name(opt_text(req.filename))
                &&& entry_views(d.entries@) == entries(fm.root@, texts(req.paths@), false)
                &&& d.entries@.len() > 0
            },
            Err(e) => entries(fm.root@, texts(req.paths@), false).len() == 0 && e.says(
                400,
                "no valid paths"@,
            ),
        },
{
    let name: String = match req.filename {
        Some(f) => f,
        None => "download".to_owned(),
    };
    let filename = if ends_with(lower(name.as_str()).as_str(), ".zip") {
        name
    } else {
        cat(name.as_str(), ".zip")
    };
    let entries = collect(fm, &req.paths, false);
    assert(entry_views(entries@).len() == entries@.len());
    if entries.len() == 0 {
        return Err(json_error(400, "no valid paths"));
    }
    Ok(DownloadPlan { filename, entries })
}

/// The formats that files are packed in.
#[derive(Debug, PartialEq, Eq, Structural, Clone, Copy)]
pub enum ArchiveFormat {
    Zip,
    Tar,
    TarGz,
}

/// The format that a request names; anything unknown is a zip.
pub open spec fn format_named(format: Option<Seq<char>>) -> ArchiveFormat {
    match format {
        Some(f) => if f == "tar"@ {
            ArchiveFormat::Tar
        } else if f == "tar.gz"@ {
            ArchiveFormat::TarGz
        } else {
            ArchiveFormat::Zip
        },
        None => ArchiveFormat::Zip,
    }
}

/// How the name of an archive ends.
pub open spec fn suffix(format: ArchiveFormat) -> Seq<char> {
    match format {
        ArchiveFormat::Zip => ".zip"@,
        ArchiveFormat::Tar => ".tar"@,
        ArchiveFormat::TarGz => ".tar.gz"@,
    }
}

/// What an archive is called: as requested, with the ending of its format.
pub open spec fn archive_name(output: Option<Seq<char>>, format: ArchiveFormat) -> Seq<char> {
    let name = match output {
        Some(o) => o,
        None => "archive"@,
    };
    if suffix(format).is_suffix_of(name) {
        name
    } else {
        name + suffix(format)
    }
}

/// A packing: the format, what is packed, the archive and the folder to make for it, and what the
/// archive is called.
pub struct CompressPlan {
    pub format: ArchiveFormat,
    pub entries: Vec<ArchiveEntry>,
    pub path: String,
    pub parent: Option<String>,
    pub output: String,
}

/// The format that a request names.
fn format_of(format: &Option<String>) -> (r: ArchiveFormat)
    ensures
        r == format_named(opt_text(*format)),
{
    match format {
        Some(f) => {
            if same(f.as_str(), "tar") {
                ArchiveFormat::Tar
            } else if same(f.as_str(), "tar.gz") {
                ArchiveFormat::TarGz
            } else {
                ArchiveFormat::Zip
            }
        },
        None => ArchiveFormat::Zip,
    }
}

/// How the name of an archive ends.
fn suffix_of(format: ArchiveFormat) -> (r: &'static str)
    ensures
        r@ == suffix(format),
{
    match format {
        ArchiveFormat::Zip => ".zip",
        ArchiveFormat::Tar => ".tar",
        ArchiveFormat::TarGz => ".tar.gz",
    }
}

/// The request path of an archive.
pub open spec fn archive_rel(dir: Option<Seq<char>>, output: Option<Seq<char>>, format: ArchiveFormat) -> Seq<
    char,
> {
    folder_or_root(dir) + "/"@ + archive_name(output, format)
}

/// A packing holds what is left of the requested paths and goes to the place of the archive; refused if
/// none of the paths is left, or if that place is.
pub open spec fn packs(
    r: Result<CompressPlan, ApiError>,
    root: Seq<char>,
    paths: Seq<Seq<char>>,
    format: Option<Seq<char>>,
    output: Option<Seq<char>>,
    dir: Option<Seq<char>>,
) -> bool {
    let f = format_named(format);
    let abs = resolved(root, archive_rel(dir, output, f));
    match r {
        Ok(c) => {
            &&& c.format == f
            &&& entry_views(c.entries@) == entries(root, paths, true)
            &&& c.entries@.len() > 0
            &&& c.path@ == abs
            &&& !danger(abs)
            &&& opt_text(c.parent) == parent(abs)
            &&& c.output@ == archive_name(output, f)
        },
        Err(e) => if entries(root, paths, true).len() == 0 {
            e.says(400, "no valid paths"@)
        } else {
            danger(abs) && e.says(400, denied())
        },
    }
}

/// What is to be done to pack files; refused if none of them is left, or if the archive would lie
/// in a virtual file system.
pub fn compress_files(fm: &FileManager, req: CompressReq) -> (r: Result<CompressPlan, ApiError>)
    ensures
        packs(
            r,
            fm.root@,
            texts(req.paths@),
            opt_text(req.format),
            opt_text(req.output),
            opt_text(req.dir),
        ),
        match r {
            Ok(c) => {
                let rel = archive_rel(opt_text(req.dir), opt_text(req.output), c.format);
                &&& c.format == format_named(opt_text(req.format))
                &&& entry_views(c.entries@) == entries(fm.root@, texts(req.paths@), true)
                &&& c.entries@.len() > 0
                &&& c.path@ == resolved(fm.root@, rel)
                &&& !danger(c.path@)
                &&& opt_text(c.parent) == parent(c.path@)
                &&& c.output@ == archive_name(opt_text(req.output), c.format)
            },
            Err(e) => {
                let rel = archive_rel(
                    opt_text(req.dir),
                    opt_text(req.output),
                    format_named(opt_text(req.format)),
                );
                if entries(fm.root@, texts(req.paths@), true).len() == 0 {
                    e.says(400, "no valid paths"@)
                } else {
                    danger(resolved(fm.root@, rel)) && e.says(400, denied())
                }
            },
        },
{
    let fmt = format_of(&req.format);
    let dir: String = match req.dir {
        Some(d) => d,
        None => "/".to_owned(),
    };
    let name: String = match req.output {
        Some(o) => o,
        None => "archive".to_owned(),
    };
    let output = if ends_with(name.as_str(), suffix_of(fmt)) {
        name
    } else {
        cat(name.as_str(), suffix_of(fmt))
    };
    let entries = collect(fm, &req.paths, true);
    assert(entry_views(entries@).len() == entries@.len());
    if entries.len() == 0 {
        return Err(json_error(400, "no valid paths"));
    }
    match place(fm, cat3(dir.as_str(), "/", output.as_str()).as_str(), 400) {
        Ok(path) => {
            let parent = parent_of(path.as_str());
            Ok(CompressPlan { format: fmt, entries, path, parent, output })
        },
        Err(e) => Err(e),
    }
}

/// What a file system holds under a path, links not followed.
#[derive(Debug, PartialEq, Eq, Structural, Clone, Copy)]
pub enum NodeKind {
    Dir,
    File,
    Other,
}

/// What is to be done with a file or folder that is being packed.
pub enum MemberStep {
    /// Nothing.
    Skip,
    /// Pack what is in the folder, after a member for the folder itself if there is one.
    Descend { member: Option<String> },
    /// Pack the file.
    Add,
    /// Give up.
    Fail,
}

/// The name in an archive of what is in a folder.
pub open spec fn member_of(name: Seq<char>, child: Seq<char>) -> Seq<char> {
    name + "/"@ + child
}

/// The name in an archive of what is in a folder.
pub fn member_name(name: &str, child: &str) -> (r: String)
    ensures
        r@ == member_of(name@, child@),
        r@ == name@ + "/"@ + child@,
{
    cat3(name, "/", child)
}

/// What is to be done with a path that is packed into a zip: what is gone is passed over, and so
/// is what is neither file nor folder; a folder is packed by what is in it alone.
pub fn zip_add_lstat(kind: Option<NodeKind>) -> (r: MemberStep)
    ensures
        match kind {
            Some(NodeKind::Dir) => r matches MemberStep::Descend { member } && member is None,
            Some(NodeKind::File) => r is Add,
            _ => r is Skip,
        },
{
    match kind {
        Some(NodeKind::Dir) => MemberStep::Descend { member: None },
        Some(NodeKind::File) => MemberStep::Add,
        _ => MemberStep::Skip,
    }
}

/// What is to be done with a path that is packed into a tar archive under a name: what is gone ends
/// the packing; a folder is a member of its own, whose name ends in a slash.
pub fn tar_add(kind: Option<NodeKind>, name: &str) -> (r: MemberStep)
    ensures
        match kind {
            Some(NodeKind::Dir) => r matches MemberStep::Descend { member } && opt_text(member) == Some(
                name@ + "/"@,
            ),
            Some(NodeKind::File) => r is Add,
            Some(NodeKind::Other) => r is Skip,
            None => r is Fail,
        },
{
    match kind {
        Some(NodeKind::Dir) => MemberStep::Descend { member: Some(cat(name, "/")) },
        Some(NodeKind::File) => MemberStep::Add,
        Some(NodeKind::Other) => MemberStep::Skip,
        None => MemberStep::Fail,
    }
}

// ---------------------------------------------------------------------------
// What comes out of an archive
// ---------------------------------------------------------------------------

/// The kinds of archives that are unpacked.
#[derive(Debug)]
pub enum ArchiveKind {
    Zip,
    TarGz,
    Tar,
    /// A single compressed file, and what it is called when unpacked.
    Gz(String),
    Unsupported,
}

/// The kind of an archive goes by its name, upper and lower case being the same.
pub open spec fn kind_named(kind: ArchiveKind, path: Seq<char>) -> bool {
    let name = lowered(base_name(path));
    if ".zip"@.is_suffix_of(name) {
        kind is Zip
    } else if ".tar.gz"@.is_suffix_of(name) || ".tgz"@.is_suffix_of(name) {
        kind is TarGz
    } else if ".tar"@.is_suffix_of(name) {
        kind is Tar
    } else if ".gz"@.is_suffix_of(name) {
        kind matches ArchiveKind::Gz(out) && out@ == (match stem(path) {
            Some(s) => s,
            None => Seq::<char>::empty(),
        })
    } else {
        kind is Unsupported
    }
}

/// The kind of an archive.
pub fn archive_kind(path: &str) -> (r: ArchiveKind)
    ensures
        kind_named(r, path@),
{
    let name = lower(base_name_of(path).as_str());
    if ends_with(name.as_str(), ".zip") {
        ArchiveKind::Zip
    } else if ends_with(name.as_str(), ".tar.gz") || ends_with(name.as_str(), ".tgz") {
        ArchiveKind::TarGz
    } else if ends_with(name.as_str(), ".tar") {
        ArchiveKind::Tar
    } else if ends_with(name.as_str(), ".gz") {
        let out: String = match stem_of(path) {
            Some(s) => s,
            None => {
                let e = String::new();
                assert(e@ =~= Seq::<char>::empty());
                e
            },
        };
        ArchiveKind::Gz(out)
    } else {
        ArchiveKind::Unsupported
    }
}

/// The folder that an archive is unpacked to: the requested one, else the one that it is in.
pub open spec fn unpack_dir(path: Seq<char>, dir: Option<Seq<char>>) -> Seq<char> {
    match dir {
        Some(d) => d,
        None => match parent(path) {
            Some(p) => if p.len() == 0 || p == "."@ {
                "/"@
            } else {
                p
            },
            None => "/"@,
        },
    }
}

/// An unpacking: the archive, where to, and its kind.
pub struct DecompressPlan {
    pub path: String,
    pub dest: String,
    pub kind: ArchiveKind,
}

/// An archive is unpacked from its place to that of the folder, by its kind; refused if one of the two
/// places is.
pub open spec fn unpacks(
    r: Result<DecompressPlan, ApiError>,
    root: Seq<char>,
    path: Seq<char>,
    dir: Option<Seq<char>>,
) -> bool {
    let from = resolved(root, path);
    let to = resolved(root, unpack_dir(path, dir));
    match r {
        Ok(d) => {
            &&& d.path@ == from
            &&& d.dest@ == to
            &&& !danger(from)
            &&& !danger(to)
            &&& kind_named(d.kind, from)
        },
        Err(e) => (danger(from) || danger(to)) && e.says(400, denied()),
    }
}

/// What is to be done to unpack an archive.
pub fn decompress_file(fm: &FileManager, req: DecompressReq) -> (r: Result<DecompressPlan, ApiError>)
    ensures
        unpacks(r, fm.root@, req.path@, opt_text(req.dir)),
        match r {
            Ok(d) => {
                &&& d.path@ == resolved(fm.root@, req.path@)
                &&& d.dest@ == resolved(fm.root@, unpack_dir(req.path@, opt_text(req.dir)))
                &&& !danger(d.path@)
                &&& !danger(d.dest@)
                &&& kind_named(d.kind, d.path@)
            },
            Err(e) => {
                &&& danger(resolved(fm.root@, req.path@)) || danger(
                    resolved(fm.root@, unpack_dir(req.path@, opt_text(req.dir))),
                )
                &&& e.says(400, denied())
            },
        },
{
    let abs = match place(fm, req.path.as_str(), 400) {
        Ok(p) => p,
        Err(e) => {
            return Err(e);
        },
    };
    let dest_rel: String = match req.dir {
        Some(d) => d,
        None => match parent_of(req.path.as_str()) {
            Some(p) => {
                if p.as_str().unicode_len() == 0 || same(p.as_str(), ".") {
                    "/".to_owned()
                } else {
                    p
                }
            },
            None => "/".to_owned(),
        },
    };
    match place(fm, dest_rel.as_str(), 400) {
        Ok(dest) => {
            let kind = archive_kind(abs.as_str());
            Ok(DecompressPlan { path: abs, dest, kind })
        },
        Err(e) => Err(e),
    }
}

/// What a client is told of an archive of an unknown kind.
pub fn unsupported() -> (r: ApiError)
    ensures
        r.says(500, "unsupported archive format"@),
{
    json_error(500, "unsupported archive format")
}

/// Where a member of an archive goes: the folder, then the names in the member's own path.
pub open spec fn member_place(dest: Seq<char>, name: Seq<char>) -> Seq<char> {
    joined(dest, join(names(seq!['/'] + name), '/'))
}

/// The permissions of an unpacked file: its own, and its owner can read and write it.
pub open spec fn member_mode(mode: u32) -> u32 {
    (mode & 0x1ff) | 0x180
}

/// What is to be done with a member of an archive.
pub enum ExtractStep {
    /// Nothing.
    Skip,
    /// Make a folder.
    MakeDir(String),
    /// Make the folder of a file, then the file with the given mode.
    Write { path: String, parent: Option<String>, mode: u32 },
}

/// The names of a member's path.
proof fn lemma_member_relative(name: Seq<char>)
    ensures
        !absolute(join(names(seq!['/'] + name), '/')),
{
    let ns = names(seq!['/'] + name);
    lemma_names(seq!['/'] + name);
    if ns.len() > 0 {
        assert(ordinary(ns[0]));
        lemma_join_start(ns);
        assert(!ns[0].contains('/'));
        assert(ns[0][0] != '/');
    }
}

/// Whatever a member of an archive is called, it goes below the folder, by the names in its path
/// alone.
pub proof fn law_members_stay_below(dest: Seq<char>, name: Seq<char>)
    requires
        dest.len() > 0,
    ensures
        components(member_place(dest, name)) == components(dest) + names(seq!['/'] + name).map_values(
            |n: Seq<char>| Part::Name(n),
        ),
{
    let ns = names(seq!['/'] + name);
    let j = join(ns, '/');
    lemma_member_relative(name);
    lemma_joined_components(dest, j);
    lemma_names(seq!['/'] + name);
    if ns.len() > 0 {
        lemma_split_join(ns, '/');
        lemma_ordinary_parts(ns);
    } else {
        let e = seq![Seq::<char>::empty()];
        assert(j =~= Seq::<char>::empty());
        assert(split(j, '/') =~= e);
        reveal_with_fuel(rest_parts, 2);
        assert(e.drop_last() =~= Seq::<Seq<char>>::empty());
        assert(rest_parts(e) =~= ns.map_values(|n: Seq<char>| Part::Name(n)));
    }
}

/// A member of an archive is made at its place: a folder, or a file with its mode and the folder that it
/// lies in.
pub open spec fn extracts(
    r: ExtractStep,
    dest: Seq<char>,
    name: Seq<char>,
    mode: u32,
    is_dir: bool,
) -> bool {
    match r {
        ExtractStep::Skip => false,
        ExtractStep::MakeDir(p) => is_dir && p@ == member_place(dest, name),
        ExtractStep::Write { path, parent: up, mode: m } => {
            &&& !is_dir
            &&& path@ == member_place(dest, name)
            &&& opt_text(up) == parent(path@)
            &&& m == member_mode(mode)
        },
    }
}

/// What is to be done with a member of an archive. The check against leaving the folder never
/// fires.
pub fn safe_extract(dest: &str, name: &str, mode: u32, is_dir: bool) -> (r: ExtractStep)
    ensures
        extracts(r, dest@, name@, mode, is_dir),
        match r {
            ExtractStep::Skip => false,
            ExtractStep::MakeDir(p) => is_dir && p@ == member_place(dest@, name@),
            ExtractStep::Write { path, parent: up, mode: m } => {
                &&& !is_dir
                &&& path@ == member_place(dest@, name@)
                &&& opt_text(up) == parent(path@)
                &&& m == member_mode(mode)
            },
        },
{
    let rooted = cat("/", name);
    proof {
        reveal_strlit("/");
        assert(rooted@ =~= seq!['/'] + name@);
        lemma_member_relative(name@);
        lemma_joined_below(dest@, join(names(rooted@), '/'));
    }
    let ns = names_of(rooted.as_str());
    let clean = join_path(dest, join_with(&ns, '/').as_str());
    if !path_starts_with(clean.as_str(), dest) {
        return ExtractStep::Skip;
    }
    if is_dir {
        return ExtractStep::MakeDir(clean);
    }
    let parent = parent_of(clean.as_str());
    ExtractStep::Write { path: clean, parent, mode: (mode & 0x1ff) | 0x180 }
}

/// Unpacked files have permissions only, and their owner can read and write them.
pub proof fn law_owner_can_use_unpacked_files(mode: u32)
    ensures
        member_mode(mode) <= 0x1ff,
        member_mode(mode) & 0x180 == 0x180,
        member_mode(mode) & 0x7f == mode & 0x7f,
{
    assert(((mode & 0x1ff) | 0x180) <= 0x1ff) by (bit_vector);
    assert(((mode & 0x1ff) | 0x180) & 0x180 == 0x180) by (bit_vector);
    assert(((mode & 0x1ff) | 0x180) & 0x7f == mode & 0x7f) by (bit_vector);
}

// ---------------------------------------------------------------------------
// Laws
// ---------------------------------------------------------------------------

/// How many of the requested paths are not refused.
pub open spec fn packable(root: Seq<char>, paths: Seq<Seq<char>>) -> nat
    decreases paths.len(),
{
    if paths.len() == 0 {
        0
    } else {
        packable(root, paths.drop_last()) + if danger(resolved(root, paths.last())) {
            0nat
        } else {
            1nat
        }
    }
}

/// Packing is complete and in order: there is one entry for each requested path that is not refused,
/// with the place of that path, in the order of the request.
pub proof fn law_packing_is_complete(root: Seq<char>, paths: Seq<Seq<char>>, by_place: bool)
    ensures
        entries(root, paths, by_place).len() == packable(root, paths),
        forall|i: int|
            0 <= i < paths.len() && !danger(resolved(root, #[trigger] paths[i])) ==> {
                let k = packable(root, paths.take(i)) as int;
                &&& 0 <= k < entries(root, paths, by_place).len()
                &&& entries(root, paths, by_place)[k].0 == resolved(root, paths[i])
            },
    decreases paths.len(),
{
    let es = entries(root, paths, by_place);
    if paths.len() > 0 {
        let front = paths.drop_last();
        law_packing_is_complete(root, front, by_place);
        assert forall|i: int| 0 <= i < paths.len() && !danger(resolved(root, #[trigger] paths[i])) implies {
            let k = packable(root, paths.take(i)) as int;
            &&& 0 <= k < es.len()
            &&& es[k].0 == resolved(root, paths[i])
        } by {
            if i < front.len() {
                assert(front[i] == paths[i]);
                assert(front.take(i) =~= paths.take(i));
            } else {
                assert(paths.take(i) =~= front);
            }
        }
    }
}

/// Where no requested path is refused, there are as many entries as paths, and each has the place of
/// its path.
pub proof fn law_unrefused_paths_are_all_packed(root: Seq<char>, paths: Seq<Seq<char>>, by_place: bool)
    requires
        forall|i: int| 0 <= i < paths.len() ==> !danger(resolved(root, #[trigger] paths[i])),
    ensures
        entries(root, paths, by_place).len() == paths.len(),
        forall|i: int|
            0 <= i < paths.len() ==> (#[trigger] entries(root, paths, by_place)[i]).0 == resolved(
                root,
                paths[i],
            ),
    decreases paths.len(),
{
    if paths.len() > 0 {
        let front = paths.drop_last();
        assert forall|i: int| 0 <= i < front.len() implies !danger(resolved(root, #[trigger] front[i])) by {
            assert(front[i] == paths[i]);
        }
        law_unrefused_paths_are_all_packed(root, front, by_place);
        assert(!danger(resolved(root, paths[paths.len() - 1])));
        assert forall|i: int| 0 <= i < paths.len() implies (#[trigger] entries(root, paths, by_place)[i]).0
            == resolved(root, paths[i]) by {
            if i < front.len() {
                assert(entries(root, paths, by_place)[i] == entries(root, front, by_place)[i]);
            }
        }
    }
}

/// Packing the paths of two requests after each other is packing the paths of both.
pub proof fn law_packing_goes_on(root: Seq<char>, a: Seq<Seq<char>>, b: Seq<Seq<char>>, by_place: bool)
    ensures
        entries(root, a + b, by_place) == entries(root, a, by_place) + entries(root, b, by_place),
    decreases b.len(),
{
    if b.len() == 0 {
        assert(a + b =~= a);
        assert(entries(root, a, by_place) + entries(root, b, by_place) =~= entries(root, a, by_place));
    } else {
        law_packing_goes_on(root, a, b.drop_last(), by_place);
        assert((a + b).drop_last() =~= a + b.drop_last());
        assert((a + b).last() == b.last());
        assert(entries(root, a + b, by_place) =~= entries(root, a, by_place) + entries(root, b, by_place));
    }
}

/// A file is called in an archive by the last name of its request, if that holds no backslash and no
/// `..`, whether the name is taken from the request or from the place.
pub proof fn law_member_is_called_by_its_last_name(root: Seq<char>, rel: Seq<char>, by_place: bool)
    requires
        root.len() > 0,
        !rel.contains('\\'),
        !split(rel, '/').contains(dot_dot()),
        names(rel).len() > 0,
        !danger(resolved(root, rel)),
    ensures
        entries(root, seq![rel], by_place) == seq![(resolved(root, rel), names(rel).last())],
{
    let part_of = |n: Seq<char>| Part::Name(n);
    reveal_with_fuel(entries, 2);
    assert(seq![rel].drop_last() =~= Seq::<Seq<char>>::empty());
    law_plain_request_follows_its_names(root, rel);
    let ns = names(rel);
    assert(ns.map_values(part_of).last() == Part::Name(ns.last()));
    assert(components(resolved(root, rel)).last() == Part::Name(ns.last()));
    lemma_parts_of_names(rel);
    assert(components(rel).last() == Part::Name(ns.last()));
    assert(entries(root, seq![rel], by_place) =~= seq![(resolved(root, rel), ns.last())]);
}

/// A path without `..` ends in the last of its names.
proof fn lemma_parts_of_names(rel: Seq<char>)
    requires
        !split(rel, '/').contains(dot_dot()),
        names(rel).len() > 0,
    ensures
        components(rel).len() > 0,
        components(rel).last() == Part::Name(names(rel).last()),
{
    let part_of = |n: Seq<char>| Part::Name(n);
    let pieces = split(rel, '/');
    let rest = pieces.drop_first();
    let f = |x: Seq<char>| ordinary(x);
    lemma_split_nonempty(rel, '/');
    assert(!rest.contains(dot_dot())) by {
        assert forall|i: int| 0 <= i < rest.len() implies rest[i] != dot_dot() by {
            assert(rest[i] == pieces[i + 1]);
        }
    }
    lemma_parts_are_names(rest);
    assert(pieces =~= seq![pieces[0]] + rest);
    Seq::filter_distributes_over_add(seq![pieces[0]], rest, f);
    reveal_with_fuel(Seq::filter, 2);
    assert(seq![pieces[0]].drop_last() =~= Seq::<Seq<char>>::empty());
    let kept = rest.filter(f);
    if kept.len() > 0 {
        assert(rest_parts(rest).last() == Part::Name(kept.last()));
        assert(names(rel).last() == kept.last());
    } else {
        assert(rest_parts(rest).len() == 0);
        assert(names(rel).len() == seq![pieces[0]].filter(f).len());
        assert(ordinary(pieces[0]));
        assert(seq![pieces[0]].filter(f) =~= seq![pieces[0]]);
        assert(names(rel).last() == pieces[0]);
        assert(part(pieces[0], true) == Some(Part::Name(pieces[0])));
        assert(parts(pieces).last() == Part::Name(pieces[0]));
    }
}

/// The ending of an archive is the name of its format behind a dot, and a format that is not known is
/// a zip.
pub proof fn law_archives_end_as_their_format(format: Seq<char>)
    ensures
        format == "zip"@ || format == "tar"@ || format == "tar.gz"@ ==> suffix(format_named(Some(format)))
            == seq!['.'] + format,
        format != "tar"@ && format != "tar.gz"@ ==> suffix(format_named(Some(format))) == ".zip"@,
        suffix(format_named(None)) == ".zip"@,
{
    reveal_strlit("zip");
    reveal_strlit("tar");
    reveal_strlit("tar.gz");
    reveal_strlit(".zip");
    reveal_strlit(".tar");
    reveal_strlit(".tar.gz");
    assert(".zip"@ =~= seq!['.'] + "zip"@);
    assert(".tar"@ =~= seq!['.'] + "tar"@);
    assert(".tar.gz"@ =~= seq!['.'] + "tar.gz"@);
    assert("zip"@[0] != "tar"@[0]);
    assert("tar"@.len() != "tar.gz"@.len());
}

/// An archive is called as requested, with the ending of its format added where it is missing and only
/// there.
pub proof fn law_archive_keeps_its_name(output: Seq<char>, format: ArchiveFormat)
    ensures
        output.is_prefix_of(archive_name(Some(output), format)),
        suffix(format).is_suffix_of(archive_name(Some(output), format)),
        suffix(format).is_suffix_of(output) ==> archive_name(Some(output), format) == output,
        !suffix(format).is_suffix_of(output) ==> archive_name(Some(output), format).len() == output.len()
            + suffix(format).len(),
        archive_name(None, format) == archive_name(Some("archive"@), format),
{
    let s = suffix(format);
    let n = archive_name(Some(output), format);
    assert(n.subrange(0, output.len() as int) =~= output);
    if !s.is_suffix_of(output) {
        assert(n.subrange(n.len() - s.len(), n.len() as int) =~= s);
    }
}

/// A download is called as requested, with `.zip` added where it is missing and only there.
pub proof fn law_download_keeps_its_name(name: Seq<char>)
    requires
        is_ascii_chars(name),
    ensures
        name.is_prefix_of(zip_name(Some(name))),
        ".zip"@.is_suffix_of(ascii_lowered(zip_name(Some(name)))),
        ".zip"@.is_suffix_of(ascii_lowered(name)) ==> zip_name(Some(name)) == name,
        !".zip"@.is_suffix_of(ascii_lowered(name)) ==> zip_name(Some(name)) == name + ".zip"@,
        zip_name(None) == zip_name(Some("download"@)),
{
    reveal_strlit(".zip");
    let z = ".zip"@;
    let n = zip_name(Some(name));
    assert(n.subrange(0, name.len() as int) =~= name);
    if !z.is_suffix_of(ascii_lowered(name)) {
        let l = ascii_lowered(n);
        assert(l.subrange(l.len() - 4, l.len() as int) =~= z);
    }
}

/// An archive lands in the requested folder itself, under its own name.
pub proof fn law_archive_lands_in_its_folder(
    root: Seq<char>,
    dir: Seq<char>,
    output: Option<Seq<char>>,
    format: ArchiveFormat,
)
    requires
        root.len() > 0,
        !dir.contains('\\'),
        ordinary(archive_name(output, format)),
        !archive_name(output, format).contains('/'),
        !archive_name(output, format).contains('\\'),
    ensures
        components(resolved(root, archive_rel(Some(dir), output, format))) == components(
            resolved(root, dir),
        ).push(Part::Name(archive_name(output, format))),
        archive_rel(None, output, format) == archive_rel(Some("/"@), output, format),
{
    let n = archive_name(output, format);
    law_requests_go_down(root, dir, n);
    lemma_names_one(n);
    assert(seq![n].map_values(|n: Seq<char>| Part::Name(n)) =~= seq![Part::Name(n)]);
    assert(components(resolved(root, dir)) + seq![Part::Name(n)] =~= components(resolved(root, dir)).push(
        Part::Name(n),
    ));
}

/// What was packed in a format is unpacked in that format: the kind of an archive goes by the ending
/// that packing has given it.
pub proof fn law_archives_are_unpacked_as_packed(path: Seq<char>, format: ArchiveFormat, kind: ArchiveKind)
    requires
        is_ascii_chars(base_name(path)),
        suffix(format).is_suffix_of(base_name(path)),
        kind_named(kind, path),
    ensures
        match format {
            ArchiveFormat::Zip => kind is Zip,
            ArchiveFormat::Tar => kind is Tar,
            ArchiveFormat::TarGz => kind is TarGz,
        },
{
    reveal_strlit(".zip");
    reveal_strlit(".tar");
    reveal_strlit(".tar.gz");
    reveal_strlit(".tgz");
    reveal_strlit(".gz");
    let b = base_name(path);
    let l = lowered(b);
    let s = suffix(format);
    let x = b.len() - s.len();
    assert(b.subrange(x, b.len() as int) =~= s);
    assert forall|i: int| 0 <= i < s.len() implies l[x + i] == s[i] by {
        assert(b[x + i] == b.subrange(x, b.len() as int)[i]);
    }
    assert(l.subrange(x, l.len() as int) =~= s);
    assert(s.is_suffix_of(l));
    let n = l.len() as int;
    if ".zip"@.is_suffix_of(l) {
        assert(l.subrange(n - 4, n)[3] == ".zip"@[3]);
    }
    if ".tgz"@.is_suffix_of(l) {
        assert(l.subrange(n - 4, n)[3] == ".tgz"@[3]);
        assert(l.subrange(n - 4, n)[1] == ".tgz"@[1]);
    }
    if ".tar.gz"@.is_suffix_of(l) {
        assert(l.subrange(n - 7, n)[6] == ".tar.gz"@[6]);
    }
    assert(l[n - 1] == s.last());
}

/// An archive is unpacked in the requested folder, else in the folder that it lies in.
pub proof fn law_unpacking_goes_beside_the_archive(path: Seq<char>, dir: Seq<char>)
    ensures
        unpack_dir(path, Some(dir)) == dir,
        components(path).len() > 1 && components(path).drop_last() != seq![Part::Cur] ==> components(
            unpack_dir(path, None),
        ) == components(path).drop_last(),
        components(path).len() == 0 || components(path) == seq![Part::Root] ==> unpack_dir(path, None)
            == seq!['/'],
{
    let e = Seq::<char>::empty();
    reveal_strlit("/");
    reveal_strlit(".");
    assert("/"@ =~= seq!['/']);
    assert("."@ =~= seq!['.']);
    law_parent_lacks_the_last_component(path);
    lemma_split_whole(seq!['.'], '/');
    assert(seq![seq!['.']].drop_first() =~= Seq::<Seq<char>>::empty());
    assert(seq!['.'] =~= dot());
    assert(components(seq!['.']) =~= seq![Part::Cur]);
    assert(split(e, '/') =~= seq![e]);
    assert(seq![e].drop_first() =~= Seq::<Seq<char>>::empty());
    assert(components(e) =~= Seq::<Part>::empty());
    if components(path).len() > 1 && components(path).drop_last() != seq![Part::Cur] {
        assert(components(path) != seq![Part::Root]);
        let p = parent(path)->0;
        if p.len() == 0 {
            assert(p =~= e);
        }
    }
}

/// What an archive holds below a folder is unpacked below that folder, under the names that it has in
/// the archive.
pub proof fn law_members_keep_their_names(dest: Seq<char>, folder: Seq<char>, ns: Seq<Seq<char>>)
    requires
        dest.len() > 0,
        ns.len() > 0,
        forall|i: int| 0 <= i < ns.len() ==> ordinary(#[trigger] ns[i]) && !ns[i].contains('/'),
    ensures
        components(member_place(dest, join(ns, '/'))) == components(dest) + ns.map_values(
            |n: Seq<char>| Part::Name(n),
        ),
        components(member_place(dest, folder + seq!['/'] + join(ns, '/'))) == components(
            member_place(dest, folder),
        ) + ns.map_values(|n: Seq<char>| Part::Name(n)),
{
    let part_of = |n: Seq<char>| Part::Name(n);
    let j = join(ns, '/');
    law_path_of_names(ns);
    law_members_stay_below(dest, j);
    law_members_stay_below(dest, folder);
    law_members_stay_below(dest, folder + seq!['/'] + j);
    let f = seq!['/'] + folder;
    assert(seq!['/'] + (folder + seq!['/'] + j) =~= f + seq!['/'] + j);
    lemma_names_concat(f, j);
    assert((names(f) + ns).map_values(part_of) =~= names(f).map_values(part_of) + ns.map_values(part_of));
    assert(components(dest) + (names(f) + ns).map_values(part_of) =~= components(dest) + names(f).map_values(
        part_of,
    ) + ns.map_values(part_of));
}

/// A download holds every requested path that is not refused, and is refused exactly if there is none.
pub proof fn law_download_holds_all(
    r: Result<DownloadPlan, ApiError>,
    root: Seq<char>,
    paths: Seq<Seq<char>>,
    filename: Option<Seq<char>>,
)
    requires
        downloads(r, root, paths, filename),
    ensures
        r is Ok <==> packable(root, paths) > 0,
        r matches Ok(d) ==> d.filename@ == zip_name(filename),
        r matches Err(e) ==> e.status == 400,
        r matches Ok(d) ==> d.entries@.len() == packable(root, paths) && forall|i: int|
            0 <= i < paths.len() && !danger(resolved(root, #[trigger] paths[i])) ==> d.entries@[packable(
                root,
                paths.take(i),
            ) as int].path@ == resolved(root, paths[i]),
{
    law_packing_is_complete(root, paths, false);
    if let Ok(d) = r {
        assert(entry_views(d.entries@).len() == d.entries@.len());
        assert forall|i: int| 0 <= i < paths.len() && !danger(resolved(root, #[trigger] paths[i])) implies d.entries@[packable(
            root,
            paths.take(i),
        ) as int].path@ == resolved(root, paths[i]) by {
            let k = packable(root, paths.take(i)) as int;
            assert(entry_views(d.entries@)[k].0 == d.entries@[k].path@);
        }
    }
}

/// An archive holds every requested path that is not refused, and lies in the folder that is made for it. It
/// is refused exactly if there is no such path, or if its own place is refused.
pub proof fn law_archive_holds_all(
    r: Result<CompressPlan, ApiError>,
    root: Seq<char>,
    paths: Seq<Seq<char>>,
    format: Option<Seq<char>>,
    output: Option<Seq<char>>,
    dir: Option<Seq<char>>,
)
    requires
        packs(r, root, paths, format, output, dir),
    ensures
        packable(root, paths) == 0 ==> r is Err,
        r is Err ==> packable(root, paths) == 0 || danger(
            resolved(root, archive_rel(dir, output, format_named(format))),
        ),
        r is Ok ==> !danger(r->Ok_0.path@),
        r matches Ok(c) ==> c.format == format_named(format) && c.output@ == archive_name(output, c.format),
        r matches Ok(c) ==> c.entries@.len() == packable(root, paths) && forall|i: int|
            0 <= i < paths.len() && !danger(resolved(root, #[trigger] paths[i])) ==> c.entries@[packable(
                root,
                paths.take(i),
            ) as int].path@ == resolved(root, paths[i]),
        r matches Ok(c) ==> suffix(c.format).is_suffix_of(c.output@),
        r matches Ok(c) ==> c.path@ == resolved(root, folder_or_root(dir) + seq!['/'] + c.output@),
        r matches Ok(c) ==> match opt_text(c.parent) {
            Some(p) => components(p) == components(c.path@).drop_last(),
            None => components(c.path@).len() == 0 || components(c.path@) == seq![Part::Root],
        },
{
    reveal_strlit("/");
    assert("/"@ =~= seq!['/']);
    law_packing_is_complete(root, paths, true);
    if let Ok(c) = r {
        assert(entry_views(c.entries@).len() == c.entries@.len());
        assert forall|i: int| 0 <= i < paths.len() && !danger(resolved(root, #[trigger] paths[i])) implies c.entries@[packable(
            root,
            paths.take(i),
        ) as int].path@ == resolved(root, paths[i]) by {
            let k = packable(root, paths.take(i)) as int;
            assert(entry_views(c.entries@)[k].0 == c.entries@[k].path@);
        }
        law_parent_lacks_the_last_component(c.path@);
        law_archive_keeps_its_name(
            match output {
                Some(o) => o,
                None => "archive"@,
            },
            c.format,
        );
    }
}

/// An archive is unpacked from where its request leads to where the folder's request leads, and refused
/// exactly if one of these is.
pub proof fn law_archive_is_unpacked_in_its_folder(
    r: Result<DecompressPlan, ApiError>,
    root: Seq<char>,
    path: Seq<char>,
    dir: Seq<char>,
)
    requires
        unpacks(r, root, path, Some(dir)),
    ensures
        r is Err <==> danger(resolved(root, path)) || danger(resolved(root, dir)),
        r matches Ok(d) ==> d.path@ == resolved(root, path) && d.dest@ == resolved(root, dir),
{
}

/// What is packed from a folder is called below the name of the folder, and unpacked below it.
pub proof fn law_packed_folders_are_unpacked(dest: Seq<char>, name: Seq<char>, child: Seq<char>)
    requires
        dest.len() > 0,
        ordinary(child),
        !child.contains('/'),
    ensures
        components(member_place(dest, member_of(name, child))) == components(member_place(dest, name)).push(
            Part::Name(child),
        ),
        name.is_prefix_of(member_of(name, child)),
        child.is_suffix_of(member_of(name, child)),
        member_of(name, child).len() == name.len() + 1 + child.len(),
{
    reveal_strlit("/");
    assert("/"@ =~= seq!['/']);
    let ns = seq![child];
    law_members_keep_their_names(dest, name, ns);
    assert(join(ns, '/') == child);
    assert(ns.map_values(|n: Seq<char>| Part::Name(n)) =~= seq![Part::Name(child)]);
    assert(components(member_place(dest, name)) + seq![Part::Name(child)] =~= components(
        member_place(dest, name),
    ).push(Part::Name(child)));
    let m = member_of(name, child);
    assert(m.subrange(0, name.len() as int) =~= name);
    assert(m.subrange(m.len() - child.len(), m.len() as int) =~= child);
}

/// A member is never passed over: a folder is made, and a file is written with the folder that it lies in.
pub proof fn law_every_member_is_unpacked(
    r: ExtractStep,
    dest: Seq<char>,
    name: Seq<char>,
    mode: u32,
    is_dir: bool,
)
    requires
        extracts(r, dest, name, mode, is_dir),
        dest.len() > 0,
    ensures
        r is MakeDir <==> is_dir,
        r is Write <==> !is_dir,
        r matches ExtractStep::MakeDir(p) ==> components(p@) == components(dest) + names(
            seq!['/'] + name,
        ).map_values(|n: Seq<char>| Part::Name(n)),
        r matches ExtractStep::Write { path, parent: up, mode: m } ==> {
            &&& components(path@) == components(dest) + names(seq!['/'] + name).map_values(
                |n: Seq<char>| Part::Name(n),
            )
            &&& up matches Some(u) ==> components(u@) == components(path@).drop_last()
            &&& m & 0x180 == 0x180
        },
{
    law_members_stay_below(dest, name);
    law_owner_can_use_unpacked_files(mode);
    law_parent_lacks_the_last_component(member_place(dest, name));
}

/// A single compressed file is unpacked under its name without the ending, if that is written in ASCII and
/// names no archive.
pub proof fn law_compressed_file_loses_its_ending(s: Seq<char>, kind: ArchiveKind)
    requires
        s.len() > 0,
        !s.contains('/'),
        is_ascii_chars(s),
        !".tar"@.is_suffix_of(ascii_lowered(s)),
        kind_named(kind, s + seq!['.', 'g', 'z']),
    ensures
        kind matches ArchiveKind::Gz(out) && out@ == s,
{
    let e = seq!['g', 'z'];
    let n = s + seq!['.', 'g', 'z'];
    reveal_strlit(".zip");
    reveal_strlit(".tar");
    reveal_strlit(".tar.gz");
    reveal_strlit(".tgz");
    reveal_strlit(".gz");
    assert(n =~= s + seq!['.'] + e);
    assert(!n.contains('/')) by {
        assert forall|i: int| 0 <= i < n.len() implies n[i] != '/' by {
            if i < s.len() {
                assert(n[i] == s[i]);
            }
        }
    }
    law_extension_follows_the_last_dot(s, e);
    assert(n != seq!['.'] && n != seq!['.', '.']) by {
        assert(n.len() >= 4);
    }
    law_joined_name_is_the_last(seq!['/'], n);
    assert(base_name(n) == n);
    assert(is_ascii_chars(n)) by {
        assert forall|i: int| 0 <= i < n.len() implies '\0' <= #[trigger] n[i] <= '\u{7f}' by {
            if i < s.len() {
                assert('\0' <= s[i] <= '\u{7f}');
                assert(n[i] == s[i]);
            }
        }
    }
    let l = lowered(n);
    let k = l.len() as int;
    assert(l[k - 1] == 'z' && l[k - 2] == 'g' && l[k - 3] == '.');
    assert(l.subrange(k - 3, k) =~= ".gz"@);
    if ".zip"@.is_suffix_of(l) {
        assert(l.subrange(k - 4, k)[3] == ".zip"@[3]);
    }
    if ".tgz"@.is_suffix_of(l) {
        assert(l.subrange(k - 4, k)[1] == ".tgz"@[1]);
    }
    if ".tar"@.is_suffix_of(l) {
        assert(l.subrange(k - 4, k)[3] == ".tar"@[3]);
    }
    if ".tar.gz"@.is_suffix_of(l) {
        let t = ascii_lowered(s);
        let m = t.len() as int;
        assert(l.subrange(k - 7, k) == ".tar.gz"@);
        assert forall|i: int| 0 <= i < 4 implies t[m - 4 + i] == ".tar"@[i] by {
            assert(l.subrange(k - 7, k)[i] == ".tar.gz"@[i]);
            assert(l[k - 7 + i] == t[m - 4 + i]);
        }
        assert(t.subrange(m - 4, m) =~= ".tar"@);
    }
}

/// An entry is seen as its place and its name in the archive, each entry at its position.
pub proof fn law_entries_are_seen(v: Seq<ArchiveEntry>, i: int)
    requires
        0 <= i < v.len(),
    ensures
        entry_views(v).len() == v.len(),
        entry_views(v)[i].0 == v[i].path@,
        entry_views(v)[i].1 == v[i].name@,
{
}

} // verus!
