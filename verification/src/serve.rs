//! Sending files: their types and the headers that go with them.

use vstd::prelude::*;
use vstd::utf8::is_ascii_chars;

use crate::paths::{
    base_name, base_name_of, components, extension, extension_of, join_path, joined,
};
use crate::reply::{header_texts, json_error, ApiError};
use crate::text::{
    ascii_lowered, cat3, contains, decimal, digits, equals, lead, lemma_lead, lemma_lead_is,
    lemma_split_concat, lemma_split_nonempty, lemma_split_whole, lower, lowered, occurs, occurs_at,
    same, split, split_on, starts_with, texts, trim, trim_start, trim_start_char, trimmed,
};

verus! {

// ---------------------------------------------------------------------------
// Types
// ---------------------------------------------------------------------------

/// The type that `mime_guess` has for a path.
pub uninterp spec fn guessed_mime(path: Seq<char>) -> Seq<char>;

/// `from_path` of `mime_guess` and the first of its guesses, `application/octet-stream` where there
/// is none. The table of types behind it is not spelled out.
#[verifier::external_body]
fn guess_mime(path: &str) -> (r: String)
    ensures
        r@ == guessed_mime(path@),
{
    mime_guess::from_path(path).first_or_octet_stream().to_string()
}

/// The extensions of files that are shown as plain text.
pub open spec fn plain_text_extension(ext: Seq<char>) -> bool {
    ||| ext == "md"@
    ||| ext == "markdown"@
    ||| ext == "yaml"@
    ||| ext == "yml"@
    ||| ext == "toml"@
    ||| ext == "ini"@
    ||| ext == "conf"@
    ||| ext == "env"@
    ||| ext == "log"@
    ||| ext == "sh"@
    ||| ext == "bash"@
    ||| ext == "zsh"@
    ||| ext == "fish"@
    ||| ext == "dockerfile"@
    ||| ext == "go"@
    ||| ext == "py"@
    ||| ext == "rs"@
    ||| ext == "rb"@
    ||| ext == "java"@
    ||| ext == "c"@
    ||| ext == "cpp"@
    ||| ext == "h"@
    ||| ext == "ts"@
    ||| ext == "tsx"@
    ||| ext == "jsx"@
    ||| ext == "vue"@
    ||| ext == "swift"@
    ||| ext == "kt"@
    ||| ext == "lua"@
    ||| ext == "r"@
    ||| ext == "sql"@
    ||| ext == "graphql"@
}

/// The type that an extension has whatever the table of types says.
pub open spec fn overridden(ext: Seq<char>) -> Option<Seq<char>> {
    if plain_text_extension(ext) {
        Some("text/plain; charset=utf-8"@)
    } else if ext == "avif"@ {
        Some("image/avif"@)
    } else if ext == "webp"@ {
        Some("image/webp"@)
    } else {
        None
    }
}

/// The contents of an optional fixed text.
pub open spec fn opt_str(o: Option<&'static str>) -> Option<Seq<char>> {
    match o {
        Some(s) => Some(s@),
        None => None,
    }
}

/// Whether files of an extension are shown as plain text.
fn is_plain_text(ext: &str) -> (r: bool)
    ensures
        r == plain_text_extension(ext@),
{
    same(ext, "md") || same(ext, "markdown") || same(ext, "yaml") || same(ext, "yml") || same(
        ext,
        "toml",
    ) || same(ext, "ini") || same(ext, "conf") || same(ext, "env") || same(ext, "log") || same(
        ext,
        "sh",
    ) || same(ext, "bash") || same(ext, "zsh") || same(ext, "fish") || same(ext, "dockerfile") || same(
        ext,
        "go",
    ) || same(ext, "py") || same(ext, "rs") || same(ext, "rb") || same(ext, "java") || same(ext, "c")
        || same(ext, "cpp") || same(ext, "h") || same(ext, "ts") || same(ext, "tsx") || same(
        ext,
        "jsx",
    ) || same(ext, "vue") || same(ext, "swift") || same(ext, "kt") || same(ext, "lua") || same(
        ext,
        "r",
    ) || same(ext, "sql") || same(ext, "graphql")
}

/// The type that an extension has whatever the table of types says.
pub fn ext_mime_override(ext: &str) -> (r: Option<&'static str>)
    ensures
        opt_str(r) == overridden(ext@),
{
    if is_plain_text(ext) {
        Some("text/plain; charset=utf-8")
    } else if same(ext, "avif") {
        Some("image/avif")
    } else if same(ext, "webp") {
        Some("image/webp")
    } else {
        None
    }
}

/// The extension of a path, in lower case; empty where there is none.
pub open spec fn lower_extension(path: Seq<char>) -> Seq<char> {
    lowered(
        match extension(path) {
            Some(e) => e,
            None => Seq::<char>::empty(),
        },
    )
}

/// The type of a file: that of its extension, else the guess.
pub open spec fn mime(path: Seq<char>) -> Seq<char> {
    match overridden(lower_extension(path)) {
        Some(m) => m,
        None => guessed_mime(path),
    }
}

/// The type of a file.
pub fn mime_of(path: &str) -> (r: String)
    ensures
        r@ == mime(path@),
{
    let ext: String = match extension_of(path) {
        Some(e) => e,
        None => {
            let e = String::new();
            assert(e@ =~= Seq::<char>::empty());
            e
        },
    };
    match ext_mime_override(lower(ext.as_str()).as_str()) {
        Some(m) => m.to_owned(),
        None => guess_mime(path),
    }
}

/// A type that a browser shows by itself.
pub open spec fn previewable(mime: Seq<char>) -> bool {
    ||| "text/"@.is_prefix_of(mime)
    ||| "image/"@.is_prefix_of(mime)
    ||| "audio/"@.is_prefix_of(mime)
    ||| "video/"@.is_prefix_of(mime)
    ||| mime == "application/pdf"@
    ||| mime == "application/json"@
    ||| mime == "application/javascript"@
    ||| mime == "application/x-javascript"@
    ||| mime == "application/xml"@
    ||| mime == "application/xhtml+xml"@
    ||| mime == "application/atom+xml"@
    ||| mime == "application/rss+xml"@
    ||| mime == "application/svg+xml"@
    ||| occurs(mime, "xml"@)
    ||| occurs(mime, "javascript"@)
}

/// Whether a browser shows a type by itself.
pub fn is_browser_previewable(mime: &str) -> (r: bool)
    ensures
        r == previewable(mime@),
{
    if starts_with(mime, "text/") || starts_with(mime, "image/") || starts_with(mime, "audio/")
        || starts_with(mime, "video/") {
        return true;
    }
    same(mime, "application/pdf") || same(mime, "application/json") || same(
        mime,
        "application/javascript",
    ) || same(mime, "application/x-javascript") || same(mime, "application/xml") || same(
        mime,
        "application/xhtml+xml",
    ) || same(mime, "application/atom+xml") || same(mime, "application/rss+xml") || same(
        mime,
        "application/svg+xml",
    ) || contains(mime, "xml") || contains(mime, "javascript")
}

/// A type without its parameters.
pub open spec fn base_mime(mime: Seq<char>) -> Seq<char> {
    trimmed(split(mime, ';')[0])
}

// ---------------------------------------------------------------------------
// Headers
// ---------------------------------------------------------------------------

/// Whether a file is shown or saved: saved where the request says so, or where a browser cannot
/// show it.
pub open spec fn disposition(name: Seq<char>, mime: Seq<char>, attachment: bool) -> Seq<char> {
    (if attachment || !previewable(base_mime(mime)) {
        "attachment"@
    } else {
        "inline"@
    }) + "; filename=\""@ + name + "\""@
}

/// The headers of a file of the given type.
pub open spec fn file_headers(path: Seq<char>, mime: Seq<char>, len: Option<u64>, attachment: bool) -> Seq<
    (Seq<char>, Seq<char>),
> {
    (match len {
        Some(n) => seq![("content-length"@, digits(n as nat))],
        None => Seq::<(Seq<char>, Seq<char>)>::empty(),
    }) + seq![
        ("content-type"@, mime),
        ("content-disposition"@, disposition(base_name(path), mime, attachment)),
        ("x-content-type-options"@, "nosniff"@),
        ("cache-control"@, "public, max-age=3600"@),
    ]
}

/// The headers of a file of the given type.
pub fn headers_for(path: &str, mime: &str, len: Option<u64>, attachment: bool) -> (r: Vec<
    (String, String),
>)
    ensures
        header_texts(r@) == file_headers(path@, mime@, len, attachment),
{
    let pieces = split_on(mime, ';');
    assert(texts(pieces@)[0] == pieces@[0]@);
    let base = trim(pieces[0].as_str());
    let kind = if attachment || !is_browser_previewable(base.as_str()) {
        "attachment"
    } else {
        "inline"
    };
    let mut disp = cat3(kind, "; filename=\"", base_name_of(path).as_str());
    disp.append("\"");
    let mut v: Vec<(String, String)> = Vec::new();
    match len {
        Some(n) => {
            v.push(("content-length".to_owned(), decimal(n)));
        },
        None => {},
    }
    v.push(("content-type".to_owned(), mime.to_owned()));
    v.push(("content-disposition".to_owned(), disp));
    v.push(("x-content-type-options".to_owned(), "nosniff".to_owned()));
    v.push(("cache-control".to_owned(), "public, max-age=3600".to_owned()));
    assert(header_texts(v@) =~= file_headers(path@, mime@, len, attachment));
    v
}

/// What was found at a path: a folder, nothing that can be opened, or a file and its length.
pub enum Probe {
    Dir,
    Missing,
    File(Option<u64>),
}

/// The headers to send what was found with, or the status of the refusal.
pub open spec fn sending(path: Seq<char>, found: Probe, attachment: bool) -> Result<
    Seq<(Seq<char>, Seq<char>)>,
    u16,
> {
    match found {
        Probe::Dir => Err(400),
        Probe::Missing => Err(404),
        Probe::File(len) => Ok(file_headers(path, mime(path), len, attachment)),
    }
}

/// The headers to send a file with; refused if it is a folder or cannot be opened.
pub fn serve_file_path(path: &str, found: Probe, attachment: bool) -> (r: Result<
    Vec<(String, String)>,
    ApiError,
>)
    ensures
        match sending(path@, found, attachment) {
            Ok(h) => r matches Ok(v) && header_texts(v@) == h,
            Err(s) => r matches Err(e) && e.status == s,
        },
        match found {
            Probe::Dir => r matches Err(e) && e.says(
                400,
                "cannot download a directory directly; use batch-download"@,
            ),
            Probe::Missing => r matches Err(e) && e.says(404, "not found"@),
            Probe::File(len) => r matches Ok(v) && header_texts(v@) == file_headers(
                path@,
                mime(path@),
                len,
                attachment,
            ),
        },
{
    match found {
        Probe::Dir => Err(
            json_error(400, "cannot download a directory directly; use batch-download"),
        ),
        Probe::Missing => Err(json_error(404, "not found")),
        Probe::File(len) => Ok(headers_for(path, mime_of(path).as_str(), len, attachment)),
    }
}

/// The headers of a download that was put together in memory.
pub open spec fn bytes_headers(mime: Seq<char>, name: Seq<char>) -> Seq<(Seq<char>, Seq<char>)> {
    seq![
        ("content-type"@, mime),
        ("content-disposition"@, "attachment; filename=\""@ + name + "\""@),
    ]
}

/// The headers of a download that was put together in memory.
pub fn download_bytes(mime: &str, name: &str) -> (r: Vec<(String, String)>)
    ensures
        header_texts(r@) == bytes_headers(mime@, name@),
        header_texts(r@) == seq![
            ("content-type"@, mime@),
            ("content-disposition"@, "attachment; filename=\""@ + name@ + "\""@),
        ],
{
    let mut v: Vec<(String, String)> = Vec::new();
    v.push(("content-type".to_owned(), mime.to_owned()));
    v.push(("content-disposition".to_owned(), cat3("attachment; filename=\"", name, "\"")));
    assert(header_texts(v@) =~= seq![
        ("content-type"@, mime@),
        ("content-disposition"@, "attachment; filename=\""@ + name@ + "\""@),
    ]);
    v
}

// ---------------------------------------------------------------------------
// The pages of the application itself
// ---------------------------------------------------------------------------

/// The type of a page or of what belongs to it.
pub open spec fn asset_mime(ext: Seq<char>) -> Seq<char> {
    if ext == "css"@ {
        "text/css; charset=utf-8"@
    } else if ext == "gif"@ {
        "image/gif"@
    } else if ext == "html"@ {
        "text/html; charset=utf-8"@
    } else if ext == "ico"@ {
        "image/x-icon"@
    } else if ext == "jpeg"@ || ext == "jpg"@ {
        "image/jpeg"@
    } else if ext == "js"@ || ext == "mjs"@ {
        "text/javascript; charset=utf-8"@
    } else if ext == "json"@ || ext == "webmanifest"@ || ext == "map"@ {
        "application/json; charset=utf-8"@
    } else if ext == "png"@ {
        "image/png"@
    } else if ext == "svg"@ {
        "image/svg+xml"@
    } else if ext == "txt"@ {
        "text/plain; charset=utf-8"@
    } else if ext == "wasm"@ {
        "application/wasm"@
    } else if ext == "webp"@ {
        "image/webp"@
    } else if ext == "woff"@ {
        "font/woff"@
    } else if ext == "woff2"@ {
        "font/woff2"@
    } else {
        "application/octet-stream"@
    }
}

/// The type of a page or of what belongs to it, by its extension as it is written.
pub open spec fn page_type(path: Seq<char>) -> Seq<char> {
    asset_mime(
        match extension(path) {
            Some(e) => e,
            None => Seq::<char>::empty(),
        },
    )
}

/// The type of a page or of what belongs to it, by its extension as it is written.
pub fn mime_for_path(path: &str) -> (r: &'static str)
    ensures
        r@ == page_type(path@),
        r@ == asset_mime(
            match extension(path@) {
                Some(e) => e,
                None => Seq::<char>::empty(),
            },
        ),
{
    let ext: String = match extension_of(path) {
        Some(e) => e,
        None => {
            let e = String::new();
            assert(e@ =~= Seq::<char>::empty());
            e
        },
    };
    let e = ext.as_str();
    if same(e, "css") {
        "text/css; charset=utf-8"
    } else if same(e, "gif") {
        "image/gif"
    } else if same(e, "html") {
        "text/html; charset=utf-8"
    } else if same(e, "ico") {
        "image/x-icon"
    } else if same(e, "jpeg") || same(e, "jpg") {
        "image/jpeg"
    } else if same(e, "js") || same(e, "mjs") {
        "text/javascript; charset=utf-8"
    } else if same(e, "json") || same(e, "webmanifest") || same(e, "map") {
        "application/json; charset=utf-8"
    } else if same(e, "png") {
        "image/png"
    } else if same(e, "svg") {
        "image/svg+xml"
    } else if same(e, "txt") {
        "text/plain; charset=utf-8"
    } else if same(e, "wasm") {
        "application/wasm"
    } else if same(e, "webp") {
        "image/webp"
    } else if same(e, "woff") {
        "font/woff"
    } else if same(e, "woff2") {
        "font/woff2"
    } else {
        "application/octet-stream"
    }
}

/// The name of the page that a path asks for: the start page where it names none.
pub open spec fn asset_name(path: Seq<char>) -> Seq<char> {
    let name = trim_start(path, '/');
    if name.len() == 0 {
        "index.html"@
    } else {
        name
    }
}

/// The name of the page that a path asks for.
pub fn static_asset(path: &str) -> (r: String)
    ensures
        r@ == asset_name(path@),
{
    let name = trim_start_char(path, '/');
    if name.as_str().unicode_len() == 0 {
        "index.html".to_owned()
    } else {
        name
    }
}

/// Where a page is looked for: by name among those in memory, then by path on disk, each in turn.
pub struct PageSearch {
    pub names: Vec<String>,
    pub files: Vec<String>,
}

/// Where the page that a path asks for is looked for: by name, then by file.
pub open spec fn page_search(path: Seq<char>) -> (Seq<Seq<char>>, Seq<Seq<char>>) {
    (
        seq![asset_name(path), "index.html"@],
        seq![joined("frontend/dist"@, asset_name(path)), "frontend/dist/index.html"@],
    )
}

/// Where the page that a path asks for is looked for. What is not there is answered with the start
/// page.
pub fn static_fallback(path: &str) -> (r: PageSearch)
    ensures
        (texts(r.names@), texts(r.files@)) == page_search(path@),
        texts(r.names@) == seq![asset_name(path@), "index.html"@],
        texts(r.files@) == seq![
            joined("frontend/dist"@, asset_name(path@)),
            "frontend/dist/index.html"@,
        ],
{
    let name = static_asset(path);
    let mut files: Vec<String> = Vec::new();
    files.push(join_path("frontend/dist", name.as_str()));
    files.push("frontend/dist/index.html".to_owned());
    let mut names: Vec<String> = Vec::new();
    names.push(name);
    names.push("index.html".to_owned());
    assert(texts(names@) =~= seq![asset_name(path@), "index.html"@]);
    assert(texts(files@) =~= seq![
        joined("frontend/dist"@, asset_name(path@)),
        "frontend/dist/index.html"@,
    ]);
    PageSearch { names, files }
}

/// What is shown where there are no pages.
pub fn not_built() -> (r: &'static str)
    ensures
        r@ == "CloudOne frontend is not built. Run `cd frontend && npm run build` before compiling the Rust binary."@,
{
    "CloudOne frontend is not built. Run `cd frontend && npm run build` before compiling the Rust binary."
}

/// The headers of a page or of what belongs to it.
pub fn embedded_frontend_response(mime: &str) -> (r: Vec<(String, String)>)
    ensures
        header_texts(r@) == seq![
            ("content-type"@, mime@),
            ("x-content-type-options"@, "nosniff"@),
        ],
{
    let mut v: Vec<(String, String)> = Vec::new();
    v.push(("content-type".to_owned(), mime.to_owned()));
    v.push(("x-content-type-options".to_owned(), "nosniff".to_owned()));
    assert(header_texts(v@) =~= seq![
        ("content-type"@, mime@),
        ("x-content-type-options"@, "nosniff"@),
    ]);
    v
}

// ---------------------------------------------------------------------------
// Laws
// ---------------------------------------------------------------------------

/// The extensions of source code, configuration and notes.
pub open spec fn text_extensions() -> Seq<Seq<char>> {
    seq![
        "md"@,
        "markdown"@,
        "yaml"@,
        "yml"@,
        "toml"@,
        "ini"@,
        "conf"@,
        "env"@,
        "log"@,
        "sh"@,
        "bash"@,
        "zsh"@,
        "fish"@,
        "dockerfile"@,
        "go"@,
        "py"@,
        "rs"@,
        "rb"@,
        "java"@,
        "c"@,
        "cpp"@,
        "h"@,
        "ts"@,
        "tsx"@,
        "jsx"@,
        "vue"@,
        "swift"@,
        "kt"@,
        "lua"@,
        "r"@,
        "sql"@,
        "graphql"@,
    ]
}

/// Source code, configuration and notes are plain text, the two kinds of images are called by their
/// extension, and no other extension is decided here.
pub proof fn law_extensions_decide_the_type(ext: Seq<char>)
    ensures
        text_extensions().contains(ext) ==> overridden(ext) == Some("text/plain; charset=utf-8"@),
        ext == "avif"@ || ext == "webp"@ ==> overridden(ext) == Some("image/"@ + ext),
        !text_extensions().contains(ext) && ext != "avif"@ && ext != "webp"@ ==> overridden(ext) is None,
{
    let t = text_extensions();
    assert(t[0] == "md"@);
    assert(t[1] == "markdown"@);
    assert(t[2] == "yaml"@);
    assert(t[3] == "yml"@);
    assert(t[4] == "toml"@);
    assert(t[5] == "ini"@);
    assert(t[6] == "conf"@);
    assert(t[7] == "env"@);
    assert(t[8] == "log"@);
    assert(t[9] == "sh"@);
    assert(t[10] == "bash"@);
    assert(t[11] == "zsh"@);
    assert(t[12] == "fish"@);
    assert(t[13] == "dockerfile"@);
    assert(t[14] == "go"@);
    assert(t[15] == "py"@);
    assert(t[16] == "rs"@);
    assert(t[17] == "rb"@);
    assert(t[18] == "java"@);
    assert(t[19] == "c"@);
    assert(t[20] == "cpp"@);
    assert(t[21] == "h"@);
    assert(t[22] == "ts"@);
    assert(t[23] == "tsx"@);
    assert(t[24] == "jsx"@);
    assert(t[25] == "vue"@);
    assert(t[26] == "swift"@);
    assert(t[27] == "kt"@);
    assert(t[28] == "lua"@);
    assert(t[29] == "r"@);
    assert(t[30] == "sql"@);
    assert(t[31] == "graphql"@);
    reveal_strlit("md");
    reveal_strlit("markdown");
    reveal_strlit("yaml");
    reveal_strlit("yml");
    reveal_strlit("toml");
    reveal_strlit("ini");
    reveal_strlit("conf");
    reveal_strlit("env");
    reveal_strlit("log");
    reveal_strlit("sh");
    reveal_strlit("bash");
    reveal_strlit("zsh");
    reveal_strlit("fish");
    reveal_strlit("dockerfile");
    reveal_strlit("go");
    reveal_strlit("py");
    reveal_strlit("rs");
    reveal_strlit("rb");
    reveal_strlit("java");
    reveal_strlit("c");
    reveal_strlit("cpp");
    reveal_strlit("h");
    reveal_strlit("ts");
    reveal_strlit("tsx");
    reveal_strlit("jsx");
    reveal_strlit("vue");
    reveal_strlit("swift");
    reveal_strlit("kt");
    reveal_strlit("lua");
    reveal_strlit("r");
    reveal_strlit("sql");
    reveal_strlit("graphql");
    reveal_strlit("avif");
    reveal_strlit("webp");
    reveal_strlit("image/");
    reveal_strlit("image/avif");
    reveal_strlit("image/webp");
    assert("md"@.len() == 2);
    assert("markdown"@.len() == 8);
    assert("yaml"@.len() == 4 && "yaml"@[0] == 'y');
    assert("yml"@.len() == 3);
    assert("toml"@.len() == 4 && "toml"@[0] == 't');
    assert("ini"@.len() == 3);
    assert("conf"@.len() == 4 && "conf"@[0] == 'c');
    assert("env"@.len() == 3);
    assert("log"@.len() == 3);
    assert("sh"@.len() == 2);
    assert("bash"@.len() == 4 && "bash"@[0] == 'b');
    assert("zsh"@.len() == 3);
    assert("fish"@.len() == 4 && "fish"@[0] == 'f');
    assert("dockerfile"@.len() == 10);
    assert("go"@.len() == 2);
    assert("py"@.len() == 2);
    assert("rs"@.len() == 2);
    assert("rb"@.len() == 2);
    assert("java"@.len() == 4 && "java"@[0] == 'j');
    assert("c"@.len() == 1);
    assert("cpp"@.len() == 3);
    assert("h"@.len() == 1);
    assert("ts"@.len() == 2);
    assert("tsx"@.len() == 3);
    assert("jsx"@.len() == 3);
    assert("vue"@.len() == 3);
    assert("swift"@.len() == 5);
    assert("kt"@.len() == 2);
    assert("lua"@.len() == 3);
    assert("r"@.len() == 1);
    assert("sql"@.len() == 3);
    assert("graphql"@.len() == 7);
    assert("avif"@.len() == 4 && "avif"@[0] == 'a');
    assert("webp"@.len() == 4 && "webp"@[0] == 'w');
    assert("image/"@ + "avif"@ =~= "image/avif"@);
    assert("image/"@ + "webp"@ =~= "image/webp"@);
    if t.contains(ext) {
        let i = choose|i: int| 0 <= i < t.len() && t[i] == ext;
        assert(plain_text_extension(ext));
    }
}

/// The type of a file goes by its extension, in capital letters as in small ones, and where that does not
/// decide it is the guess.
pub proof fn law_type_goes_by_the_extension(path: Seq<char>, ext: Seq<char>)
    requires
        extension(path) == Some(ext),
        is_ascii_chars(ext),
    ensures
        text_extensions().contains(ascii_lowered(ext)) ==> mime(path) == "text/plain; charset=utf-8"@,
        ascii_lowered(ext) == "avif"@ || ascii_lowered(ext) == "webp"@ ==> mime(path) == "image/"@
            + ascii_lowered(ext),
        !text_extensions().contains(ascii_lowered(ext)) && ascii_lowered(ext) != "avif"@ && ascii_lowered(
            ext,
        ) != "webp"@ ==> mime(path) == guessed_mime(path),
{
    law_extensions_decide_the_type(ascii_lowered(ext));
}

/// A file without an extension has the type that is guessed.
pub proof fn law_type_without_extension_is_guessed(path: Seq<char>)
    requires
        extension(path) is None,
    ensures
        mime(path) == guessed_mime(path),
{
    let e = Seq::<char>::empty();
    assert(ascii_lowered(e) =~= e);
    law_extensions_decide_the_type(e);
    let t = text_extensions();
    assert(t[0] == "md"@);
    assert(t[1] == "markdown"@);
    assert(t[2] == "yaml"@);
    assert(t[3] == "yml"@);
    assert(t[4] == "toml"@);
    assert(t[5] == "ini"@);
    assert(t[6] == "conf"@);
    assert(t[7] == "env"@);
    assert(t[8] == "log"@);
    assert(t[9] == "sh"@);
    assert(t[10] == "bash"@);
    assert(t[11] == "zsh"@);
    assert(t[12] == "fish"@);
    assert(t[13] == "dockerfile"@);
    assert(t[14] == "go"@);
    assert(t[15] == "py"@);
    assert(t[16] == "rs"@);
    assert(t[17] == "rb"@);
    assert(t[18] == "java"@);
    assert(t[19] == "c"@);
    assert(t[20] == "cpp"@);
    assert(t[21] == "h"@);
    assert(t[22] == "ts"@);
    assert(t[23] == "tsx"@);
    assert(t[24] == "jsx"@);
    assert(t[25] == "vue"@);
    assert(t[26] == "swift"@);
    assert(t[27] == "kt"@);
    assert(t[28] == "lua"@);
    assert(t[29] == "r"@);
    assert(t[30] == "sql"@);
    assert(t[31] == "graphql"@);
    reveal_strlit("md");
    reveal_strlit("markdown");
    reveal_strlit("yaml");
    reveal_strlit("yml");
    reveal_strlit("toml");
    reveal_strlit("ini");
    reveal_strlit("conf");
    reveal_strlit("env");
    reveal_strlit("log");
    reveal_strlit("sh");
    reveal_strlit("bash");
    reveal_strlit("zsh");
    reveal_strlit("fish");
    reveal_strlit("dockerfile");
    reveal_strlit("go");
    reveal_strlit("py");
    reveal_strlit("rs");
    reveal_strlit("rb");
    reveal_strlit("java");
    reveal_strlit("c");
    reveal_strlit("cpp");
    reveal_strlit("h");
    reveal_strlit("ts");
    reveal_strlit("tsx");
    reveal_strlit("jsx");
    reveal_strlit("vue");
    reveal_strlit("swift");
    reveal_strlit("kt");
    reveal_strlit("lua");
    reveal_strlit("r");
    reveal_strlit("sql");
    reveal_strlit("graphql");
    reveal_strlit("avif");
    reveal_strlit("webp");
    assert(!t.contains(e)) by {
        assert forall|i: int| 0 <= i < t.len() implies t[i].len() > 0 by {}
    }
}

/// A browser shows texts, images, sound and film by itself, PDF and JSON, and whatever is XML or
/// JavaScript; nothing else.
pub proof fn law_browsers_show(mime: Seq<char>)
    ensures
        previewable(mime) <==> {
            ||| "text/"@.is_prefix_of(mime)
            ||| "image/"@.is_prefix_of(mime)
            ||| "audio/"@.is_prefix_of(mime)
            ||| "video/"@.is_prefix_of(mime)
            ||| mime == "application/"@ + "pdf"@
            ||| mime == "application/"@ + "json"@
            ||| occurs(mime, "xml"@)
            ||| occurs(mime, "javascript"@)
        },
{
    reveal_strlit("application/");
    reveal_strlit("pdf");
    reveal_strlit("json");
    reveal_strlit("xml");
    reveal_strlit("javascript");
    reveal_strlit("application/pdf");
    reveal_strlit("application/json");
    reveal_strlit("application/javascript");
    reveal_strlit("application/x-javascript");
    reveal_strlit("application/xml");
    reveal_strlit("application/xhtml+xml");
    reveal_strlit("application/atom+xml");
    reveal_strlit("application/rss+xml");
    reveal_strlit("application/svg+xml");
    assert("application/"@ + "pdf"@ =~= "application/pdf"@);
    assert("application/"@ + "json"@ =~= "application/json"@);
    let j = "javascript"@;
    let x = "xml"@;
    let m = "application/javascript"@;
    assert(m.subrange(12, 22) =~= j);
    assert(occurs_at(m, j, 12));
    let m = "application/x-javascript"@;
    assert(m.subrange(14, 24) =~= j);
    assert(occurs_at(m, j, 14));
    let m = "application/xml"@;
    assert(m.subrange(12, 15) =~= x);
    assert(occurs_at(m, x, 12));
    let m = "application/xhtml+xml"@;
    assert(m.subrange(18, 21) =~= x);
    assert(occurs_at(m, x, 18));
    let m = "application/atom+xml"@;
    assert(m.subrange(17, 20) =~= x);
    assert(occurs_at(m, x, 17));
    let m = "application/rss+xml"@;
    assert(m.subrange(16, 19) =~= x);
    assert(occurs_at(m, x, 16));
    let m = "application/svg+xml"@;
    assert(m.subrange(16, 19) =~= x);
    assert(occurs_at(m, x, 16));
}

/// A file is saved where that is asked for or where a browser cannot show it, and else shown; in any case
/// under its name. The parameters of its type do not matter.
pub proof fn law_files_are_shown_or_saved(name: Seq<char>, base: Seq<char>, params: Seq<char>, attachment: bool)
    requires
        !base.contains(';'),
    ensures
        attachment || !previewable(trimmed(base)) ==> disposition(name, base, attachment)
            == "attachment; filename=\""@ + name + "\""@,
        !attachment && previewable(trimmed(base)) ==> disposition(name, base, attachment)
            == "inline; filename=\""@ + name + "\""@,
        disposition(name, base + seq![';'] + params, attachment) == disposition(name, base, attachment),
{
    reveal_strlit("attachment");
    reveal_strlit("inline");
    reveal_strlit("; filename=\"");
    reveal_strlit("attachment; filename=\"");
    reveal_strlit("inline; filename=\"");
    assert("attachment"@ + "; filename=\""@ =~= "attachment; filename=\""@);
    assert("inline"@ + "; filename=\""@ =~= "inline; filename=\""@);
    lemma_split_whole(base, ';');
    lemma_split_concat(base, params, ';');
    lemma_split_nonempty(params, ';');
    assert(split(base, ';')[0] == base);
    assert(base.push(';') + params =~= base + seq![';'] + params);
    assert(split(base + seq![';'] + params, ';')[0] == base);
}

/// The headers of a file say its type and what to do with it, and its length exactly where that is known.
pub proof fn law_headers_say_what_is_known(path: Seq<char>, mime: Seq<char>, n: u64, attachment: bool)
    ensures
        file_headers(path, mime, Some(n), attachment) == seq![("content-length"@, digits(n as nat))]
            + file_headers(path, mime, None, attachment),
        file_headers(path, mime, None, attachment).len() == 4,
        file_headers(path, mime, None, attachment).contains(("content-type"@, mime)),
        file_headers(path, mime, None, attachment).contains(
            ("content-disposition"@, disposition(base_name(path), mime, attachment)),
        ),
        file_headers(path, mime, None, attachment).contains(("x-content-type-options"@, "nosniff"@)),
        file_headers(path, mime, None, attachment).contains(("cache-control"@, "public, max-age=3600"@)),
{
    let h = file_headers(path, mime, None, attachment);
    assert(h[0] == ("content-type"@, mime));
    assert(h[1] == ("content-disposition"@, disposition(base_name(path), mime, attachment)));
    assert(h[2] == ("x-content-type-options"@, "nosniff"@));
    assert(h[3] == ("cache-control"@, "public, max-age=3600"@));
    assert(file_headers(path, mime, Some(n), attachment) =~= seq![("content-length"@, digits(n as nat))] + h);
}

/// The page that a path asks for is the path without its leading slashes, and the start page where nothing
/// is left.
pub proof fn law_pages_are_found_by_path(path: Seq<char>)
    ensures
        asset_name(seq!['/'] + path) == asset_name(path),
        path.len() > 0 && path[0] != '/' ==> asset_name(path) == path,
        path.len() == 0 ==> asset_name(path) == "index.html"@,
{
    let p = seq!['/'] + path;
    let f = equals('/');
    assert(p[0] == '/');
    assert(p.drop_first() =~= path);
    assert(p.skip(1) =~= path);
    lemma_lead_is(path, f);
    let n = lead(path, f);
    assert forall|i: int| 0 <= i < n + 1 implies f(#[trigger] p[i]) by {
        if i > 0 {
            assert(p[i] == path[i - 1]);
        }
    }
    assert(n < path.len() ==> p[n as int + 1] == path[n as int]);
    lemma_lead(p, f, (n + 1) as nat);
    assert(p.skip(n as int + 1) =~= path.skip(n as int));
    if path.len() > 0 && path[0] != '/' {
        lemma_lead(path, f, 0);
        assert(path.skip(0) =~= path);
    }
}

/// What belongs to a page has the type that its extension names: images and fonts by the extension itself,
/// texts with their encoding. What is unknown is bytes.
pub proof fn law_page_types(ext: Seq<char>)
    ensures
        ext == "gif"@ || ext == "png"@ || ext == "webp"@ || ext == "jpeg"@ ==> asset_mime(ext) == "image/"@
            + ext,
        asset_mime("jpg"@) == asset_mime("jpeg"@),
        ext == "woff"@ || ext == "woff2"@ ==> asset_mime(ext) == "font/"@ + ext,
        ext == "css"@ || ext == "html"@ ==> asset_mime(ext) == "text/"@ + ext + "; charset=utf-8"@,
        asset_mime("txt"@) == "text/plain; charset=utf-8"@,
        asset_mime("js"@) == "text/javascript; charset=utf-8"@,
        asset_mime("mjs"@) == asset_mime("js"@),
        asset_mime("json"@) == "application/json; charset=utf-8"@,
        asset_mime("webmanifest"@) == asset_mime("json"@),
        asset_mime("map"@) == asset_mime("json"@),
        asset_mime("svg"@) == "image/svg+xml"@,
        asset_mime("ico"@) == "image/x-icon"@,
        asset_mime("wasm"@) == "application/wasm"@,
        !seq![
            "css"@, "gif"@, "html"@, "ico"@, "jpeg"@, "jpg"@, "js"@, "mjs"@, "json"@, "webmanifest"@, "map"@,
            "png"@, "svg"@, "txt"@, "wasm"@, "webp"@, "woff"@, "woff2"@,
        ].contains(ext) ==> asset_mime(ext) == "application/octet-stream"@,
{
    reveal_strlit("css");
    reveal_strlit("gif");
    reveal_strlit("html");
    reveal_strlit("ico");
    reveal_strlit("jpeg");
    reveal_strlit("jpg");
    reveal_strlit("js");
    reveal_strlit("mjs");
    reveal_strlit("json");
    reveal_strlit("webmanifest");
    reveal_strlit("map");
    reveal_strlit("png");
    reveal_strlit("svg");
    reveal_strlit("txt");
    reveal_strlit("wasm");
    reveal_strlit("webp");
    reveal_strlit("woff");
    reveal_strlit("woff2");
    reveal_strlit("image/");
    reveal_strlit("font/");
    reveal_strlit("text/");
    reveal_strlit("; charset=utf-8");
    reveal_strlit("text/css; charset=utf-8");
    reveal_strlit("text/html; charset=utf-8");
    reveal_strlit("image/gif");
    reveal_strlit("image/png");
    reveal_strlit("image/webp");
    reveal_strlit("image/jpeg");
    reveal_strlit("font/woff");
    reveal_strlit("font/woff2");
    assert("css"@.len() == 3 && "css"@[0] == 'c');
    assert("gif"@.len() == 3 && "gif"@[0] == 'g');
    assert("html"@.len() == 4 && "html"@[0] == 'h');
    assert("ico"@.len() == 3 && "ico"@[0] == 'i');
    assert("jpeg"@.len() == 4 && "jpeg"@[0] == 'j' && "jpeg"@[1] == 'p');
    assert("jpg"@.len() == 3 && "jpg"@[0] == 'j');
    assert("js"@.len() == 2);
    assert("mjs"@.len() == 3 && "mjs"@[0] == 'm' && "mjs"@[1] == 'j');
    assert("json"@.len() == 4 && "json"@[0] == 'j' && "json"@[1] == 's');
    assert("webmanifest"@.len() == 11);
    assert("map"@.len() == 3 && "map"@[0] == 'm' && "map"@[1] == 'a');
    assert("png"@.len() == 3 && "png"@[0] == 'p');
    assert("svg"@.len() == 3 && "svg"@[0] == 's');
    assert("txt"@.len() == 3 && "txt"@[0] == 't');
    assert("wasm"@.len() == 4 && "wasm"@[0] == 'w' && "wasm"@[1] == 'a');
    assert("webp"@.len() == 4 && "webp"@[0] == 'w' && "webp"@[1] == 'e');
    assert("woff"@.len() == 4 && "woff"@[0] == 'w' && "woff"@[1] == 'o');
    assert("woff2"@.len() == 5);
    assert("image/"@ + "gif"@ =~= "image/gif"@);
    assert("image/"@ + "png"@ =~= "image/png"@);
    assert("image/"@ + "webp"@ =~= "image/webp"@);
    assert("image/"@ + "jpeg"@ =~= "image/jpeg"@);
    assert("font/"@ + "woff"@ =~= "font/woff"@);
    assert("font/"@ + "woff2"@ =~= "font/woff2"@);
    assert("text/"@ + "css"@ + "; charset=utf-8"@ =~= "text/css; charset=utf-8"@);
    assert("text/"@ + "html"@ + "; charset=utf-8"@ =~= "text/html; charset=utf-8"@);
    let t = seq![
        "css"@, "gif"@, "html"@, "ico"@, "jpeg"@, "jpg"@, "js"@, "mjs"@, "json"@, "webmanifest"@, "map"@,
        "png"@, "svg"@, "txt"@, "wasm"@, "webp"@, "woff"@, "woff2"@,
    ];
    assert(t[0] == "css"@);
    assert(t[1] == "gif"@);
    assert(t[2] == "html"@);
    assert(t[3] == "ico"@);
    assert(t[4] == "jpeg"@);
    assert(t[5] == "jpg"@);
    assert(t[6] == "js"@);
    assert(t[7] == "mjs"@);
    assert(t[8] == "json"@);
    assert(t[9] == "webmanifest"@);
    assert(t[10] == "map"@);
    assert(t[11] == "png"@);
    assert(t[12] == "svg"@);
    assert(t[13] == "txt"@);
    assert(t[14] == "wasm"@);
    assert(t[15] == "webp"@);
    assert(t[16] == "woff"@);
    assert(t[17] == "woff2"@);
}

/// A file is sent with the headers of its type and its length; a folder and what cannot be opened are not
/// sent, and the two are told apart.
pub proof fn law_only_files_are_sent(path: Seq<char>, len: Option<u64>, attachment: bool)
    ensures
        sending(path, Probe::Dir, attachment) == Err::<Seq<(Seq<char>, Seq<char>)>, u16>(400),
        sending(path, Probe::Missing, attachment) == Err::<Seq<(Seq<char>, Seq<char>)>, u16>(404),
        sending(path, Probe::File(len), attachment) == Ok::<Seq<(Seq<char>, Seq<char>)>, u16>(
            file_headers(path, mime(path), len, attachment),
        ),
{
}

/// A download from memory is saved under its name, as a file is that is to be saved.
pub proof fn law_downloads_are_saved(mime: Seq<char>, name: Seq<char>)
    ensures
        bytes_headers(mime, name).len() == 2,
        bytes_headers(mime, name).contains(("content-type"@, mime)),
        bytes_headers(mime, name).contains(("content-disposition"@, disposition(name, mime, true))),
{
    let h = bytes_headers(mime, name);
    reveal_strlit("attachment");
    reveal_strlit("; filename=\"");
    reveal_strlit("attachment; filename=\"");
    assert("attachment"@ + "; filename=\""@ =~= "attachment; filename=\""@);
    assert(h[0] == ("content-type"@, mime));
    assert(h[1] == ("content-disposition"@, disposition(name, mime, true)));
}

/// The type of a page goes by its extension, and is unknown without one.
pub proof fn law_page_type_goes_by_the_extension(path: Seq<char>, ext: Seq<char>)
    ensures
        extension(path) == Some(ext) ==> page_type(path) == asset_mime(ext),
        extension(path) is None ==> page_type(path) == "application/octet-stream"@,
{
    let e = Seq::<char>::empty();
    let t = seq![
        "css"@, "gif"@, "html"@, "ico"@, "jpeg"@, "jpg"@, "js"@, "mjs"@, "json"@, "webmanifest"@, "map"@,
        "png"@, "svg"@, "txt"@, "wasm"@, "webp"@, "woff"@, "woff2"@,
    ];
    reveal_strlit("css");
    reveal_strlit("gif");
    reveal_strlit("html");
    reveal_strlit("ico");
    reveal_strlit("jpeg");
    reveal_strlit("jpg");
    reveal_strlit("js");
    reveal_strlit("mjs");
    reveal_strlit("json");
    reveal_strlit("webmanifest");
    reveal_strlit("map");
    reveal_strlit("png");
    reveal_strlit("svg");
    reveal_strlit("txt");
    reveal_strlit("wasm");
    reveal_strlit("webp");
    reveal_strlit("woff");
    reveal_strlit("woff2");
    law_page_types(e);
    assert(forall|i: int| 0 <= i < t.len() ==> t[i].len() > 0);
    assert(!t.contains(e));
}

/// A page is looked for under its own name first and as the start page last, in memory and then in the
/// folder of the pages.
pub proof fn law_pages_are_looked_for(path: Seq<char>)
    ensures
        page_search(path).0.len() == 2,
        page_search(path).0[0] == asset_name(path),
        page_search(path).0[1] == asset_name(Seq::<char>::empty()),
        page_search(path).1.len() == 2,
        components(page_search(path).1[1]) == components(page_search(Seq::<char>::empty()).1[0]),
        page_search(path).1[0] == joined("frontend/dist"@, asset_name(path)),
{
    let e = Seq::<char>::empty();
    law_pages_are_found_by_path(e);
    reveal_strlit("frontend/dist");
    reveal_strlit("index.html");
    reveal_strlit("frontend/dist/index.html");
    let d = "frontend/dist"@;
    assert(d.len() == 13 && d[12] == 't');
    assert("index.html"@[0] == 'i');
    assert(joined(d, "index.html"@) =~= "frontend/dist/index.html"@);
}

} // verus!
