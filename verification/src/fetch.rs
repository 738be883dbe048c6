//! Fetching files from the network: which addresses are allowed, and which are tried in turn.

use vstd::prelude::*;
use vstd::utf8::is_ascii_chars;

use crate::files::{denied, folder_or_root, lemma_safe_name, place, safe};
use crate::net::{
    dotted, is_private_ip, law_dotted_form, lemma_dotted_once, parse_ipv4, private_v4, IpAddr,
};
use crate::paths::{
    components, danger, join_path, joined, lemma_joined_components, lemma_ordinary_parts,
    safe_name, Part,
};
use crate::reply::{json_error, ApiError};
use crate::storage::{resolved, FileManager};
use crate::text::{
    ascii_lowered, cat, cat3, digits, ends_with, law_digits_write_their_number, lemma_split_whole,
    lower, lowered, opt_text, same, same_ignoring_case, texts,
};
use crate::types::FetchReq;

verus! {

// ---------------------------------------------------------------------------
// Addresses
// ---------------------------------------------------------------------------

/// The parts of a URL that matter here: its scheme, its host, and the segments of its path.
pub struct UrlParts {
    pub scheme: String,
    pub host: Option<String>,
    pub segments: Option<Vec<String>>,
}

/// The parts of a URL, in terms of texts.
#[verifier::ext_equal]
pub struct UrlView {
    pub scheme: Seq<char>,
    pub host: Option<Seq<char>>,
    pub segments: Option<Seq<Seq<char>>>,
}

impl View for UrlParts {
    type V = UrlView;

    open spec fn view(&self) -> UrlView {
        UrlView {
            scheme: self.scheme@,
            host: opt_text(self.host),
            segments: match self.segments {
                Some(v) => Some(texts(v@)),
                None => None,
            },
        }
    }
}

/// What a text is as a URL: its scheme, its host and the segments of its path, if it is one with
/// segments; or what is wrong with it.
pub uninterp spec fn url_parsed(text: Seq<char>) -> Result<
    (Seq<char>, Option<Seq<char>>, Option<Seq<Seq<char>>>),
    Seq<char>,
>;

/// The parts in a parsed URL.
pub open spec fn url_view(p: (Seq<char>, Option<Seq<char>>, Option<Seq<Seq<char>>>)) -> UrlView {
    UrlView { scheme: p.0, host: p.1, segments: p.2 }
}

/// `Url::parse` of `url`, with `scheme`, `host_str` and `path_segments` of the result, or the message
/// of the error. A host that is an IPv6 address stands in brackets.
#[verifier::external_body]
fn parse_url(text: &str) -> (r: Result<UrlParts, String>)
    ensures
        match r {
            Ok(u) => url_parsed(text@) matches Ok(p) && u@ == url_view(p),
            Err(m) => url_parsed(text@) == Err::<
                (Seq<char>, Option<Seq<char>>, Option<Seq<Seq<char>>>),
                Seq<char>,
            >(m@),
        },
{
    let u = url::Url::parse(text).map_err(|e| e.to_string())?;
    let host = u.host_str().map(str::to_string);
    let segments = u.path_segments().map(|s| s.map(str::to_string).collect());
    Ok(UrlParts { scheme: u.scheme().to_string(), host, segments })
}

/// A host is the own machine or an IPv4 address that does not belong to the public network.
pub open spec fn internal(host: Seq<char>) -> bool {
    ||| ascii_lowered(host) == ascii_lowered("localhost"@)
    ||| exists|a: Seq<u8>| a.len() == 4 && host == #[trigger] dotted(a) && private_v4(a)
}

/// What is wrong with fetching from a URL, if anything.
pub open spec fn objection(u: UrlView) -> Option<Seq<char>> {
    if u.scheme != "http"@ && u.scheme != "https"@ {
        Some("only http/https URLs are allowed"@)
    } else {
        match u.host {
            Some(h) => if internal(h) {
                Some("requests to private/internal addresses are not allowed"@)
            } else {
                None
            },
            None => Some("missing host"@),
        }
    }
}

/// Whether a host is the own machine or an IPv4 address outside the public network.
fn is_internal(host: &str) -> (r: bool)
    ensures
        r == internal(host@),
{
    if same_ignoring_case(host, "localhost") {
        return true;
    }
    match parse_ipv4(host) {
        Some(a) => {
            proof {
                assert forall|b: Seq<u8>| b.len() == 4 && host@ == #[trigger] dotted(b) implies b == a@ by {
                    lemma_dotted_once(a@, b);
                }
            }
            is_private_ip(IpAddr::V4(a))
        },
        None => false,
    }
}

/// What is wrong with fetching from a URL, if anything.
pub fn check_url(u: &UrlParts) -> (r: Option<String>)
    ensures
        opt_text(r) == objection(u@),
{
    if !same(u.scheme.as_str(), "http") && !same(u.scheme.as_str(), "https") {
        return Some("only http/https URLs are allowed".to_owned());
    }
    match &u.host {
        Some(h) => {
            if is_internal(h.as_str()) {
                Some("requests to private/internal addresses are not allowed".to_owned())
            } else {
                None
            }
        },
        None => Some("missing host".to_owned()),
    }
}

/// What is wrong with fetching from an address, if anything.
pub open spec fn url_objection(text: Seq<char>) -> Option<Seq<char>> {
    match url_parsed(text) {
        Ok(p) => objection(url_view(p)),
        Err(m) => Some(m),
    }
}

/// An address is allowed if it is a URL of the web that does not lead to an internal host.
pub fn validate_public_url(text: &str) -> (r: Result<(), String>)
    ensures
        match r {
            Ok(_) => url_objection(text@) is None,
            Err(m) => url_objection(text@) == Some(m@),
        },
{
    match parse_url(text) {
        Ok(u) => match check_url(&u) {
            Some(m) => Err(m),
            None => Ok(()),
        },
        Err(m) => Err(m),
    }
}

/// The hosts of GitHub.
pub open spec fn github_hosts() -> Seq<Seq<char>> {
    seq![
        "github.com"@,
        "raw.githubusercontent.com"@,
        "objects.githubusercontent.com"@,
        "codeload.github.com"@,
        "releases.githubusercontent.com"@,
        "gist.githubusercontent.com"@,
        "gist.github.com"@,
    ]
}

/// The host is one of a list, or below one of them.
pub open spec fn host_among(host: Seq<char>, hosts: Seq<Seq<char>>) -> bool {
    exists|i: int|
        0 <= i < hosts.len() && (host == #[trigger] hosts[i] || ("."@ + hosts[i]).is_suffix_of(host))
}

/// The host belongs to GitHub.
pub open spec fn github_host(host: Option<Seq<char>>) -> bool {
    match host {
        Some(h) => host_among(lowered(h), github_hosts()),
        None => false,
    }
}

/// Whether a host is the given one or below it.
fn is_host(h: &str, host: &str) -> (r: bool)
    ensures
        r == (h@ == host@ || ("."@ + host@).is_suffix_of(h@)),
{
    same(h, host) || ends_with(h, cat(".", host).as_str())
}

/// Whether a host belongs to GitHub.
pub fn is_github_host(host: &Option<String>) -> (r: bool)
    ensures
        r == github_host(opt_text(*host)),
{
    match host {
        Some(host) => {
            let h = lower(host.as_str());
            let r = is_host(h.as_str(), "github.com") || is_host(h.as_str(), "raw.githubusercontent.com")
                || is_host(h.as_str(), "objects.githubusercontent.com") || is_host(
                h.as_str(),
                "codeload.github.com",
            ) || is_host(h.as_str(), "releases.githubusercontent.com") || is_host(
                h.as_str(),
                "gist.githubusercontent.com",
            ) || is_host(h.as_str(), "gist.github.com");
            proof {
                let hs = github_hosts();
                assert(hs[0] == "github.com"@);
                assert(hs[1] == "raw.githubusercontent.com"@);
                assert(hs[2] == "objects.githubusercontent.com"@);
                assert(hs[3] == "codeload.github.com"@);
                assert(hs[4] == "releases.githubusercontent.com"@);
                assert(hs[5] == "gist.githubusercontent.com"@);
                assert(hs[6] == "gist.github.com"@);
            }
            r
        },
        None => false,
    }
}

/// The address leads to GitHub.
pub open spec fn github(text: Seq<char>) -> bool {
    match url_parsed(text) {
        Ok(p) => github_host(p.1),
        Err(_) => false,
    }
}

/// Whether an address leads to GitHub.
pub fn is_github_url(text: &str) -> (r: bool)
    ensures
        r == github(text@),
{
    match parse_url(text) {
        Ok(u) => is_github_host(&u.host),
        Err(_) => false,
    }
}

// ---------------------------------------------------------------------------
// What is fetched
// ---------------------------------------------------------------------------

/// The addresses to try in turn: the requested one, and for GitHub then three mirrors.
pub open spec fn attempts(url: Seq<char>, is_github: bool) -> Seq<Seq<char>> {
    if is_github {
        seq![
            url,
            "https://gh-proxy.com/"@ + url,
            "https://gh.ddlc.top/"@ + url,
            "https://ghproxy.it/"@ + url,
        ]
    } else {
        seq![url]
    }
}

/// The addresses to try in turn.
pub fn urls_to_try(url: &str, is_github: bool) -> (r: Vec<String>)
    ensures
        texts(r@) == attempts(url@, is_github),
{
    let mut urls: Vec<String> = Vec::new();
    urls.push(url.to_owned());
    if is_github {
        urls.push(cat("https://gh-proxy.com/", url));
        urls.push(cat("https://gh.ddlc.top/", url));
        urls.push(cat("https://ghproxy.it/", url));
    }
    assert(texts(urls@) =~= attempts(url@, is_github));
    urls
}

/// The last segment of a path, if there is one.
pub open spec fn last_segment(segments: Option<Seq<Seq<char>>>) -> Option<Seq<char>> {
    match segments {
        Some(s) => if s.len() > 0 {
            Some(s.last())
        } else {
            None
        },
        None => None,
    }
}

/// The last segment of the path of a URL.
pub fn url_last_segment(u: &UrlParts) -> (r: Option<String>)
    ensures
        opt_text(r) == last_segment(u@.segments),
{
    match &u.segments {
        Some(v) => {
            let n: usize = v.len();
            assert(texts(v@).len() == n);
            if n > 0 {
                Some(v[n - 1].clone())
            } else {
                None
            }
        },
        None => None,
    }
}

/// The name for a file without a requested one: the last segment of the address, if it is a name.
pub open spec fn segment_name(last: Option<Seq<char>>) -> Seq<char> {
    match last {
        Some(s) => if s.len() == 0 || s == "."@ || s == "/"@ {
            "download"@
        } else {
            s
        },
        None => "download"@,
    }
}

/// The name for a file without a requested one.
pub fn name_from_segment(last: Option<String>) -> (r: String)
    ensures
        r@ == segment_name(opt_text(last)),
{
    match last {
        Some(s) => {
            if s.as_str().unicode_len() == 0 || same(s.as_str(), ".") || same(s.as_str(), "/") {
                "download".to_owned()
            } else {
                s
            }
        },
        None => "download".to_owned(),
    }
}

/// The name that a fetched file is asked to have.
pub open spec fn fetch_name(url: Seq<char>, filename: Option<Seq<char>>) -> Seq<char> {
    match filename {
        Some(f) => f,
        None => match url_parsed(url) {
            Ok(p) => segment_name(last_segment(p.2)),
            Err(_) => "download"@,
        },
    }
}

/// A fetch: the folder to make, the file to write, and the addresses to try in turn.
pub struct FetchPlan {
    pub dir: String,
    pub path: String,
    pub urls: Vec<String>,
}

/// A file is fetched into the folder under its name, from the addresses to try; refused if the address is
/// not allowed or the folder is refused.
pub open spec fn fetches(
    r: Result<FetchPlan, ApiError>,
    root: Seq<char>,
    url: Seq<char>,
    dir: Option<Seq<char>>,
    filename: Option<Seq<char>>,
) -> bool {
    let folder = resolved(root, folder_or_root(dir));
    match r {
        Ok(p) => {
            &&& url_objection(url) is None
            &&& p.dir@ == folder
            &&& !danger(folder)
            &&& p.path@ == joined(folder, safe(fetch_name(url, filename)))
            &&& texts(p.urls@) == attempts(url, github(url))
        },
        Err(e) => match url_objection(url) {
            Some(m) => e.says(400, m),
            None => danger(folder) && e.says(400, denied()),
        },
    }
}

/// What is to be done to fetch a file; refused if the address is not allowed, or if the folder lies
/// in a virtual file system.
pub fn fetch_url(fm: &FileManager, req: FetchReq) -> (r: Result<FetchPlan, ApiError>)
    ensures
        fetches(r, fm.root@, req.url@, opt_text(req.dir), opt_text(req.filename)),
        match r {
            Ok(p) => {
                &&& url_objection(req.url@) is None
                &&& p.dir@ == resolved(fm.root@, folder_or_root(opt_text(req.dir)))
                &&& !danger(p.dir@)
                &&& p.path@ == joined(p.dir@, safe(fetch_name(req.url@, opt_text(req.filename))))
                &&& texts(p.urls@) == attempts(req.url@, github(req.url@))
            },
            Err(e) => match url_objection(req.url@) {
                Some(m) => e.says(400, m),
                None => danger(resolved(fm.root@, folder_or_root(opt_text(req.dir)))) && e.says(
                    400,
                    denied(),
                ),
            },
        },
{
    match validate_public_url(req.url.as_str()) {
        Ok(_) => {},
        Err(m) => {
            return Err(json_error(400, m.as_str()));
        },
    }
    let dir_rel: String = match req.dir {
        Some(d) => d,
        None => "/".to_owned(),
    };
    let dir = match place(fm, dir_rel.as_str(), 400) {
        Ok(p) => p,
        Err(e) => {
            return Err(e);
        },
    };
    let name: String = match req.filename {
        Some(f) => f,
        None => match parse_url(req.url.as_str()) {
            Ok(u) => name_from_segment(url_last_segment(&u)),
            Err(_) => "download".to_owned(),
        },
    };
    let path = join_path(dir.as_str(), safe_name(name.as_str()).as_str());
    let urls = urls_to_try(req.url.as_str(), is_github_url(req.url.as_str()));
    Ok(FetchPlan { dir, path, urls })
}

/// A fetched file lands in the folder itself, under the last name of what it is to be called.
pub proof fn law_fetched_file_lands_in_its_folder(dir: Seq<char>, name: Seq<char>)
    requires
        dir.len() > 0,
    ensures
        components(joined(dir, safe(name))) == components(dir).push(Part::Name(safe(name))),
{
    let n = safe(name);
    lemma_safe_name(name);
    lemma_split_whole(n, '/');
    assert(n[0] != '/') by {
        if n[0] == '/' {
            assert(n.contains('/'));
        }
    }
    lemma_joined_components(dir, n);
    lemma_ordinary_parts(seq![n]);
    assert(seq![n].map_values(|n: Seq<char>| Part::Name(n)) =~= seq![Part::Name(n)]);
}

// ---------------------------------------------------------------------------
// One attempt after the other
// ---------------------------------------------------------------------------

/// What came of an attempt.
pub enum FetchEvent {
    /// The request failed, with a message.
    SendFailed(String),
    /// The other side answered with a status that is no success.
    Refused(String),
    /// The file could not be made, with a message.
    CreateFailed(String),
    /// The transfer broke off, with a message.
    BodyFailed(String),
    /// The file is complete.
    Done,
}

/// What is to be done after an attempt.
pub enum FetchStep {
    /// Answer that the file is there.
    Finish,
    /// Answer with a refusal.
    Fail(ApiError),
    /// Try the next address; before that, remove the file that an attempt has left behind.
    Again { remove: bool },
}

/// A fetch under way: the addresses, how many of them have been tried, and what went wrong last.
pub struct FetchRun {
    urls: Vec<String>,
    tried: usize,
    last_err: String,
}

/// A fetch under way, in terms of texts: the addresses, how many of them have been tried, and what went
/// wrong last.
#[verifier::ext_equal]
pub struct RunView {
    pub urls: Seq<Seq<char>>,
    pub tried: nat,
    pub last: Seq<char>,
}

/// An attempt after which no other is made.
pub open spec fn ends(event: FetchEvent) -> bool {
    event is Done || event is CreateFailed
}

/// What went wrong in an attempt at an address.
pub open spec fn complaint(url: Seq<char>, event: FetchEvent, last: Seq<char>) -> Seq<char> {
    match event {
        FetchEvent::SendFailed(m) => "fetch failed ["@ + url + "]: "@ + m@,
        FetchEvent::Refused(status) => "remote returned "@ + status@ + " ["@ + url + "]"@,
        FetchEvent::BodyFailed(m) => m@,
        _ => last,
    }
}

/// A fetch after one more attempt.
pub open spec fn after_attempt(v: RunView, event: FetchEvent) -> RunView {
    if ends(event) {
        v
    } else {
        RunView {
            urls: v.urls,
            tried: v.tried + 1,
            last: complaint(v.urls[v.tried as int], event, v.last),
        }
    }
}

/// A fetch after some attempts, one after the other.
pub open spec fn after_attempts(v: RunView, events: Seq<FetchEvent>) -> RunView
    decreases events.len(),
{
    if events.len() == 0 {
        v
    } else {
        after_attempt(after_attempts(v, events.drop_last()), events.last())
    }
}

/// The address that a fetch tries next, if one is left.
pub open spec fn next_url(v: RunView) -> Option<Seq<char>> {
    if v.tried < v.urls.len() {
        Some(v.urls[v.tried as int])
    } else {
        None
    }
}

impl FetchRun {
    /// What the fetch has come to.
    pub open spec fn run_view(self) -> RunView {
        RunView { urls: self.urls_view(), tried: self.tried_view(), last: self.last_view() }
    }

    /// Not more addresses have been tried than there are.
    pub closed spec fn wf(self) -> bool {
        self.tried <= self.urls@.len()
    }

    /// The addresses.
    pub closed spec fn urls_view(self) -> Seq<Seq<char>> {
        texts(self.urls@)
    }

    /// How many of them have been tried.
    pub closed spec fn tried_view(self) -> nat {
        self.tried as nat
    }

    /// What went wrong last.
    pub closed spec fn last_view(self) -> Seq<char> {
        self.last_err@
    }

    /// A fetch that tries the given addresses in turn.
    pub fn start(urls: Vec<String>) -> (r: FetchRun)
        ensures
            r.wf(),
            r.urls_view() == texts(urls@),
            r.tried_view() == 0,
            r.last_view() == Seq::<char>::empty(),
    {
        let r = FetchRun { urls, tried: 0, last_err: String::new() };
        assert(r.last_err@ =~= Seq::<char>::empty());
        r
    }

    /// The address to try next, or the refusal where all have been tried.
    pub fn next(&self) -> (r: Result<String, ApiError>)
        requires
            self.wf(),
        ensures
            match next_url(self.run_view()) {
                Some(u) => r matches Ok(s) && s@ == u,
                None => r is Err,
            },
            match r {
                Ok(u) => self.tried_view() < self.urls_view().len() && u@ == self.urls_view()[self.tried_view() as int],
                Err(e) => self.tried_view() == self.urls_view().len() && e.says(500, self.last_view()),
            },
    {
        assert(texts(self.urls@).len() == self.urls@.len());
        if self.tried < self.urls.len() {
            Ok(self.urls[self.tried].clone())
        } else {
            Err(json_error(500, self.last_err.as_str()))
        }
    }

    /// Takes note of what came of an attempt. A complete file ends the fetch, and so does one that
    /// could not be made; after anything else the next address is tried. A transfer that broke off
    /// leaves no file.
    pub fn step(&mut self, event: FetchEvent) -> (r: FetchStep)
        requires
            old(self).wf(),
            old(self).tried_view() < old(self).urls_view().len(),
        ensures
            final(self).wf(),
            final(self).run_view() == after_attempt(old(self).run_view(), event),
            r is Again <==> !ends(event),
            r is Finish <==> event is Done,
            r matches FetchStep::Again { remove } ==> (remove <==> event is BodyFailed),
            final(self).urls_view() == old(self).urls_view(),
            match event {
                FetchEvent::Done => {
                    &&& r is Finish
                    &&& final(self).tried_view() == old(self).tried_view()
                    &&& final(self).last_view() == old(self).last_view()
                },
                FetchEvent::CreateFailed(m) => {
                    &&& (r matches FetchStep::Fail(e) && e.says(500, m@))
                    &&& final(self).tried_view() == old(self).tried_view()
                    &&& final(self).last_view() == old(self).last_view()
                },
                FetchEvent::SendFailed(m) => {
                    &&& r == (FetchStep::Again { remove: false })
                    &&& final(self).tried_view() == old(self).tried_view() + 1
                    &&& final(self).last_view() == "fetch failed ["@
                        + old(self).urls_view()[old(self).tried_view() as int] + "]: "@ + m@
                },
                FetchEvent::Refused(status) => {
                    &&& r == (FetchStep::Again { remove: false })
                    &&& final(self).tried_view() == old(self).tried_view() + 1
                    &&& final(self).last_view() == "remote returned "@ + status@ + " ["@
                        + old(self).urls_view()[old(self).tried_view() as int] + "]"@
                },
                FetchEvent::BodyFailed(m) => {
                    &&& r == (FetchStep::Again { remove: true })
                    &&& final(self).tried_view() == old(self).tried_view() + 1
                    &&& final(self).last_view() == m@
                },
            },
    {
        assert(texts(self.urls@).len() == self.urls@.len());
        assert(texts(self.urls@)[self.tried as int] == self.urls@[self.tried as int]@);
        assert(self.tried < self.urls.len());
        match event {
            FetchEvent::Done => FetchStep::Finish,
            FetchEvent::CreateFailed(m) => FetchStep::Fail(json_error(500, m.as_str())),
            FetchEvent::SendFailed(m) => {
                let mut s = cat3("fetch failed [", self.urls[self.tried].as_str(), "]: ");
                s.append(m.as_str());
                self.last_err = s;
                self.tried = self.tried + 1;
                FetchStep::Again { remove: false }
            },
            FetchEvent::Refused(status) => {
                let mut s = cat3("remote returned ", status.as_str(), " [");
                s.append(self.urls[self.tried].as_str());
                s.append("]");
                self.last_err = s;
                self.tried = self.tried + 1;
                FetchStep::Again { remove: false }
            },
            FetchEvent::BodyFailed(m) => {
                self.last_err = m;
                self.tried = self.tried + 1;
                FetchStep::Again { remove: true }
            },
        }
    }
}

// ---------------------------------------------------------------------------
// Laws
// ---------------------------------------------------------------------------

/// The requested address is tried first. A mirror is tried for GitHub alone, over a safe connection, and is
/// asked for the requested address.
pub proof fn law_requested_address_is_tried_first(url: Seq<char>, is_github: bool)
    ensures
        attempts(url, is_github).len() > 0,
        attempts(url, is_github)[0] == url,
        !is_github ==> attempts(url, is_github).len() == 1,
        is_github ==> attempts(url, is_github).len() == 4,
        forall|i: int|
            0 < i < attempts(url, is_github).len() ==> "https://"@.is_prefix_of(
                #[trigger] attempts(url, is_github)[i],
            ) && (seq!['/'] + url).is_suffix_of(attempts(url, is_github)[i]),
        forall|i: int, j: int|
            0 < i < j < attempts(url, is_github).len() ==> #[trigger] attempts(url, is_github)[i]
                != #[trigger] attempts(url, is_github)[j],
{
    reveal_strlit("https://");
    reveal_strlit("https://gh-proxy.com/");
    reveal_strlit("https://gh.ddlc.top/");
    reveal_strlit("https://ghproxy.it/");
    let h = "https://"@;
    let v = attempts(url, is_github);
    let t = seq!['/'] + url;
    if is_github {
        let a = "https://gh-proxy.com/"@;
        let b = "https://gh.ddlc.top/"@;
        let c = "https://ghproxy.it/"@;
        assert(a.len() == 21 && b.len() == 20 && c.len() == 19);
        assert(a.last() == '/' && b.last() == '/' && c.last() == '/');
        assert(v[1].len() == 21 + url.len() && v[2].len() == 20 + url.len() && v[3].len() == 19 + url.len());
        assert forall|i: int| 0 < i < v.len() implies h.is_prefix_of(#[trigger] v[i]) && t.is_suffix_of(v[i]) by {
            let m = if i == 1 {
                a
            } else if i == 2 {
                b
            } else {
                c
            };
            let w = v[i];
            assert(w == m + url);
            assert(m.subrange(0, 8) =~= h);
            assert(w.subrange(0, 8) =~= h);
            assert(w.subrange(w.len() - t.len(), w.len() as int) =~= t);
        }
    }
}

/// A file is fetched over the web alone, and only from a host that is named and not internal.
pub proof fn law_only_the_public_web_is_fetched(u: UrlView)
    ensures
        objection(u) is None <==> {
            &&& u.scheme == "http"@ || u.scheme == "https"@
            &&& u.host matches Some(h) && !internal(h)
        },
{
}

/// The own machine is internal under its name, in capital letters as in small ones, and an IPv4 address
/// exactly if it is private.
pub proof fn law_private_addresses_are_internal(a: Seq<u8>, host: Seq<char>)
    requires
        a.len() == 4,
    ensures
        internal(dotted(a)) <==> private_v4(a),
        ascii_lowered(host) == "localhost"@ ==> internal(host),
{
    reveal_strlit("localhost");
    let l = "localhost"@;
    assert(ascii_lowered(l) =~= l);
    law_dotted_form(a);
    law_digits_write_their_number(a[0] as nat);
    let d = dotted(a);
    assert(d[0] == digits(a[0] as nat)[0]);
    assert(ascii_lowered(d)[0] == d[0]);
    assert(l[0] == 'l');
    assert(ascii_lowered(d) != l);
    if exists|b: Seq<u8>| b.len() == 4 && d == #[trigger] dotted(b) && private_v4(b) {
        let b = choose|b: Seq<u8>| b.len() == 4 && d == #[trigger] dotted(b) && private_v4(b);
        lemma_dotted_once(a, b);
    }
}

/// The host is the given one or one below it.
pub open spec fn at_or_below(host: Seq<char>, domain: Seq<char>) -> bool {
    host == domain || (seq!['.'] + domain).is_suffix_of(host)
}

proof fn lemma_below_below(host: Seq<char>, sub: Seq<char>, domain: Seq<char>)
    requires
        at_or_below(host, sub),
        (seq!['.'] + domain).is_suffix_of(sub),
    ensures
        at_or_below(host, domain),
{
    let d = seq!['.'] + domain;
    let s = seq!['.'] + sub;
    if host != sub {
        let n = host.len() as int;
        let k = sub.len() as int;
        assert(host.subrange(n - s.len(), n) == s);
        assert(sub.subrange(k - d.len(), k) == d);
        assert forall|i: int| 0 <= i < d.len() implies host[n - d.len() + i] == d[i] by {
            assert(d[i] == sub.subrange(k - d.len(), k)[i]);
            assert(sub[k - d.len() + i] == s[k - d.len() + i + 1]);
            assert(host.subrange(n - s.len(), n)[k - d.len() + i + 1] == s[k - d.len() + i + 1]);
        }
        assert(host.subrange(n - d.len(), n) =~= d);
    }
}

/// The hosts of GitHub are `github.com` and all below it, and four of those below `githubusercontent.com`
/// with all below them, in capital letters as in small ones.
pub proof fn law_github_is_its_domains(host: Seq<char>)
    requires
        is_ascii_chars(host),
    ensures
        github_host(Some(host)) <==> {
            ||| at_or_below(ascii_lowered(host), "github.com"@)
            ||| at_or_below(ascii_lowered(host), "raw"@ + ".githubusercontent.com"@)
            ||| at_or_below(ascii_lowered(host), "objects"@ + ".githubusercontent.com"@)
            ||| at_or_below(ascii_lowered(host), "releases"@ + ".githubusercontent.com"@)
            ||| at_or_below(ascii_lowered(host), "gist"@ + ".githubusercontent.com"@)
        },
        !github_host(None),
{
    reveal_strlit(".");
    reveal_strlit("github.com");
    reveal_strlit("raw");
    reveal_strlit("objects");
    reveal_strlit("releases");
    reveal_strlit("gist");
    reveal_strlit(".githubusercontent.com");
    reveal_strlit("raw.githubusercontent.com");
    reveal_strlit("objects.githubusercontent.com");
    reveal_strlit("codeload.github.com");
    reveal_strlit("releases.githubusercontent.com");
    reveal_strlit("gist.githubusercontent.com");
    reveal_strlit("gist.github.com");
    assert("."@ =~= seq!['.']);
    assert("raw"@ + ".githubusercontent.com"@ =~= "raw.githubusercontent.com"@);
    assert("objects"@ + ".githubusercontent.com"@ =~= "objects.githubusercontent.com"@);
    assert("releases"@ + ".githubusercontent.com"@ =~= "releases.githubusercontent.com"@);
    assert("gist"@ + ".githubusercontent.com"@ =~= "gist.githubusercontent.com"@);
    let l = ascii_lowered(host);
    let hs = github_hosts();
    let g = "github.com"@;
    let c = "codeload.github.com"@;
    let t = "gist.github.com"@;
    assert(hs[0] == g);
    assert(hs[1] == "raw.githubusercontent.com"@);
    assert(hs[2] == "objects.githubusercontent.com"@);
    assert(hs[3] == c);
    assert(hs[4] == "releases.githubusercontent.com"@);
    assert(hs[5] == "gist.githubusercontent.com"@);
    assert(hs[6] == t);
    assert(c.subrange(8, 19) =~= seq!['.'] + g);
    assert(t.subrange(4, 15) =~= seq!['.'] + g);
    if at_or_below(l, c) {
        lemma_below_below(l, c, g);
    }
    if at_or_below(l, t) {
        lemma_below_below(l, t, g);
    }
    if github_host(Some(host)) {
        let i = choose|i: int|
            0 <= i < hs.len() && (l == #[trigger] hs[i] || ("."@ + hs[i]).is_suffix_of(l));
        assert(at_or_below(l, hs[i]));
    }
}

/// A fetched file is called as requested; without that by the last segment of the address, unless that is no
/// name.
pub proof fn law_fetched_file_is_called(url: Seq<char>, name: Seq<char>, segments: Seq<Seq<char>>)
    ensures
        fetch_name(url, Some(name)) == name,
        url_parsed(url) matches Ok(p) ==> (p.2 == Some(segments.push(name)) && name.len() > 1 ==> fetch_name(
            url,
            None,
        ) == name),
        url_parsed(url) matches Ok(p) ==> (p.2 == Some(segments.push(name)) && name.len() == 1 && name[0] != '.'
            && name[0] != '/' ==> fetch_name(url, None) == name),
        url_parsed(url) matches Ok(p) ==> (p.2 == Some(segments.push(name)) && (name.len() == 0 || name
            == seq!['.'] || name == seq!['/']) ==> fetch_name(url, None) == "download"@),
        url_parsed(url) matches Ok(p) ==> (p.2 is None ==> fetch_name(url, None) == "download"@),
        url_parsed(url) matches Ok(p) ==> (p.2 == Some(Seq::<Seq<char>>::empty()) ==> fetch_name(url, None)
            == "download"@),
        url_parsed(url) is Err ==> fetch_name(url, None) == "download"@,
{
    reveal_strlit(".");
    reveal_strlit("/");
    assert("."@ =~= seq!['.']);
    assert("/"@ =~= seq!['/']);
    assert(segments.push(name).last() == name);
}

/// A file is fetched exactly if its address is allowed and its folder is not refused. It goes into that
/// folder, and the requested address is tried first.
pub proof fn law_allowed_files_are_fetched(
    r: Result<FetchPlan, ApiError>,
    root: Seq<char>,
    url: Seq<char>,
    dir: Seq<char>,
    filename: Option<Seq<char>>,
)
    requires
        fetches(r, root, url, Some(dir), filename),
        root.len() > 0,
    ensures
        r is Ok <==> url_objection(url) is None && !danger(resolved(root, dir)),
        r matches Ok(p) ==> {
            &&& p.dir@ == resolved(root, dir)
            &&& p.dir@.len() > 0 ==> components(p.path@) == components(p.dir@).push(
                Part::Name(safe(fetch_name(url, filename))),
            )
            &&& p.urls@.len() > 0
            &&& p.urls@[0]@ == url
        },
        r matches Err(e) ==> e.status == 400,
{
    law_requested_address_is_tried_first(url, github(url));
    if let Ok(p) = r {
        assert(texts(p.urls@).len() == p.urls@.len());
        assert(texts(p.urls@)[0] == p.urls@[0]@);
        if p.dir@.len() > 0 {
            law_fetched_file_lands_in_its_folder(p.dir@, fetch_name(url, filename));
        }
    }
}

/// After some attempts that came to nothing, as many addresses have been tried, and the next one is the one
/// behind them; what is told is what went wrong with the last.
pub proof fn law_addresses_are_tried_in_turn(v: RunView, events: Seq<FetchEvent>)
    requires
        forall|i: int|
            0 <= i < events.len() ==> ((#[trigger] events[i]) is SendFailed || events[i] is Refused
                || events[i] is BodyFailed),
    ensures
        after_attempts(v, events).urls == v.urls,
        after_attempts(v, events).tried == v.tried + events.len(),
        events.len() > 0 ==> after_attempts(v, events).last == match events.last() {
            FetchEvent::BodyFailed(m) => m@,
            FetchEvent::SendFailed(m) => "fetch failed ["@ + v.urls[v.tried + events.len() - 1] + "]: "@ + m@,
            FetchEvent::Refused(status) => "remote returned "@ + status@ + " ["@ + v.urls[v.tried
                + events.len() - 1] + "]"@,
            _ => v.last,
        },
    decreases events.len(),
{
    if events.len() > 0 {
        let front = events.drop_last();
        assert forall|i: int| 0 <= i < front.len() implies ((#[trigger] front[i]) is SendFailed || front[i] is Refused
            || front[i] is BodyFailed) by {
            assert(front[i] == events[i]);
        }
        law_addresses_are_tried_in_turn(v, front);
        let e = events[events.len() - 1];
        assert(e is SendFailed || e is Refused || e is BodyFailed);
    }
}

/// The addresses come one after the other: after so many attempts that came to nothing the next one in the
/// list is tried, until none is left. After an attempt that ends the fetch nothing has changed.
pub proof fn law_next_address_is_the_next_in_the_list(v: RunView, events: Seq<FetchEvent>, last: FetchEvent)
    requires
        v.tried == 0,
        forall|i: int|
            0 <= i < events.len() ==> ((#[trigger] events[i]) is SendFailed || events[i] is Refused
                || events[i] is BodyFailed),
    ensures
        events.len() < v.urls.len() ==> next_url(after_attempts(v, events)) == Some(
            v.urls[events.len() as int],
        ),
        events.len() == v.urls.len() ==> next_url(after_attempts(v, events)) is None,
        last is Done || last is CreateFailed ==> after_attempts(v, events.push(last)) == after_attempts(
            v,
            events,
        ),
{
    law_addresses_are_tried_in_turn(v, events);
    assert(events.push(last).drop_last() =~= events);
}

/// The parts of a parsed URL are its scheme, its host and its segments.
pub proof fn law_urls_are_seen(u: UrlParts, p: (Seq<char>, Option<Seq<char>>, Option<Seq<Seq<char>>>))
    ensures
        url_view(p).scheme == p.0,
        url_view(p).host == p.1,
        url_view(p).segments == p.2,
        u@.scheme == u.scheme@,
        u@.host == opt_text(u.host),
        u.segments matches Some(v) ==> u@.segments == Some(texts(v@)),
        u.segments is None ==> u@.segments is None,
{
}

/// An address is objected to exactly if it is no URL or its parts are objected to.
pub proof fn law_addresses_are_checked_by_their_parts(text: Seq<char>)
    ensures
        url_parsed(text) matches Ok(p) ==> url_objection(text) == objection(url_view(p)),
        url_parsed(text) matches Err(m) ==> url_objection(text) == Some(m),
        url_parsed(text) matches Ok(p) ==> github(text) == github_host(p.1),
        url_parsed(text) is Err ==> !github(text),
{
}

} // verus!
