//! Unix paths as text: their components, joining, and the safe forms that requests are
//! turned into.

use vstd::prelude::*;

use crate::text::{
    cat, differs, equals, join, join_with, lead, lemma_join_lists, lemma_join_split, lemma_lead_is,
    lemma_split_concat, lemma_split_join, lemma_split_nonempty, lemma_split_pieces,
    lemma_split_whole, lemma_texts_push, lemma_trail, replace_char, same, slice_text, split,
    split_on, starts_with, swapped, texts, to_chars, trail, trim_start,
};

verus! {

// ---------------------------------------------------------------------------
// Components
// ---------------------------------------------------------------------------

/// A component of a path.
pub enum Component {
    /// The leading `/`.
    Root,
    /// A leading `.`.
    Cur,
    /// `..`
    Up,
    /// Any other name.
    Name(String),
}

/// A component, by its text.
pub enum Part {
    Root,
    Cur,
    Up,
    Name(Seq<char>),
}

impl View for Component {
    type V = Part;

    open spec fn view(&self) -> Part {
        match self {
            Component::Root => Part::Root,
            Component::Cur => Part::Cur,
            Component::Up => Part::Up,
            Component::Name(s) => Part::Name(s@),
        }
    }
}

/// The components by their text.
pub open spec fn part_views(v: Seq<Component>) -> Seq<Part> {
    v.map_values(|c: Component| c@)
}

/// `.`
pub open spec fn dot() -> Seq<char> {
    seq!['.']
}

/// `..`
pub open spec fn dot_dot() -> Seq<char> {
    seq!['.', '.']
}

/// A piece that names a file: not empty, not `.`, not `..`.
pub open spec fn ordinary(piece: Seq<char>) -> bool {
    piece.len() > 0 && piece != dot() && piece != dot_dot()
}

/// The component that a piece stands for; `.` counts only where a path starts with it.
pub open spec fn part(piece: Seq<char>, first: bool) -> Option<Part> {
    if piece.len() == 0 {
        None
    } else if piece == dot() {
        if first {
            Some(Part::Cur)
        } else {
            None
        }
    } else if piece == dot_dot() {
        Some(Part::Up)
    } else {
        Some(Part::Name(piece))
    }
}

/// The components of pieces that do not start a path.
pub open spec fn rest_parts(pieces: Seq<Seq<char>>) -> Seq<Part>
    decreases pieces.len(),
{
    if pieces.len() == 0 {
        Seq::<Part>::empty()
    } else {
        match part(pieces.last(), false) {
            Some(p) => rest_parts(pieces.drop_last()).push(p),
            None => rest_parts(pieces.drop_last()),
        }
    }
}

/// The components of the pieces of a path, but for the root.
pub open spec fn parts(pieces: Seq<Seq<char>>) -> Seq<Part> {
    if pieces.len() == 0 {
        Seq::<Part>::empty()
    } else {
        match part(pieces[0], true) {
            Some(p) => seq![p] + rest_parts(pieces.drop_first()),
            None => rest_parts(pieces.drop_first()),
        }
    }
}

/// Whether a path starts at the root.
pub open spec fn absolute(p: Seq<char>) -> bool {
    p.len() > 0 && p[0] == '/'
}

/// The components of a path. Repeated slashes and inner `.` leave no trace.
pub open spec fn components(p: Seq<char>) -> Seq<Part> {
    if absolute(p) {
        seq![Part::Root] + parts(split(p, '/'))
    } else {
        parts(split(p, '/'))
    }
}

proof fn lemma_rest_parts_concat(a: Seq<Seq<char>>, b: Seq<Seq<char>>)
    ensures
        rest_parts(a + b) == rest_parts(a) + rest_parts(b),
    decreases b.len(),
{
    if b.len() == 0 {
        assert(a + b =~= a);
        assert(rest_parts(a + b) =~= rest_parts(a) + rest_parts(b));
    } else {
        lemma_rest_parts_concat(a, b.drop_last());
        assert((a + b).drop_last() =~= a + b.drop_last());
        assert((a + b).last() == b.last());
        assert(rest_parts(a + b) =~= rest_parts(a) + rest_parts(b));
    }
}

proof fn lemma_rest_parts_one(x: Seq<char>)
    ensures
        rest_parts(seq![x]) == (match part(x, false) {
            Some(p) => seq![p],
            None => Seq::<Part>::empty(),
        }),
{
    reveal_with_fuel(rest_parts, 2);
    assert(seq![x].drop_last() =~= Seq::<Seq<char>>::empty());
    assert(rest_parts(seq![x]) =~= (match part(x, false) {
        Some(p) => seq![p],
        None => Seq::<Part>::empty(),
    }));
}

proof fn lemma_parts_concat(a: Seq<Seq<char>>, b: Seq<Seq<char>>)
    requires
        a.len() > 0,
    ensures
        parts(a + b) == parts(a) + rest_parts(b),
{
    lemma_rest_parts_concat(a.drop_first(), b);
    assert((a + b).drop_first() =~= a.drop_first() + b);
    assert((a + b)[0] == a[0]);
    assert(parts(a + b) =~= parts(a) + rest_parts(b));
}

/// Whether `piece` is `.`.
fn is_dot(piece: &str) -> (r: bool)
    ensures
        r == (piece@ == dot()),
{
    proof {
        reveal_strlit(".");
        assert("."@ =~= dot());
    }
    same(piece, ".")
}

/// Whether `piece` is `..`.
fn is_dot_dot(piece: &str) -> (r: bool)
    ensures
        r == (piece@ == dot_dot()),
{
    proof {
        reveal_strlit("..");
        assert(".."@ =~= dot_dot());
    }
    same(piece, "..")
}

/// Whether `piece` names a file.
pub fn is_ordinary(piece: &str) -> (r: bool)
    ensures
        r == ordinary(piece@),
{
    !piece.is_empty() && !is_dot(piece) && !is_dot_dot(piece)
}

/// Whether a path starts at the root.
pub fn is_absolute(p: &str) -> (r: bool)
    ensures
        r == absolute(p@),
{
    let cs = to_chars(p);
    cs.len() > 0 && cs[0] == '/'
}

/// The component that a piece stands for.
fn component(piece: &str, first: bool) -> (r: Option<Component>)
    ensures
        match part(piece@, first) {
            Some(p) => r matches Some(c) && c@ == p,
            None => r is None,
        },
{
    if piece.is_empty() {
        None
    } else if is_dot(piece) {
        if first {
            Some(Component::Cur)
        } else {
            None
        }
    } else if is_dot_dot(piece) {
        Some(Component::Up)
    } else {
        Some(Component::Name(piece.to_owned()))
    }
}

/// The components of a path.
pub fn path_components(p: &str) -> (r: Vec<Component>)
    ensures
        part_views(r@) == components(p@),
{
    let pieces = split_on(p, '/');
    let mut out: Vec<Component> = Vec::new();
    if is_absolute(p) {
        out.push(Component::Root);
    }
    let ghost base: Seq<Part> = part_views(out@);
    let ghost t: Seq<Seq<char>> = texts(pieces@);
    match component(pieces[0].as_str(), true) {
        Some(c) => out.push(c),
        None => {},
    }
    proof {
        assert(t[0] == pieces@[0]@);
        assert(t.take(1).drop_first() =~= Seq::<Seq<char>>::empty());
        assert(part_views(out@) =~= base + parts(t.take(1)));
    }
    let mut i: usize = 1;
    while i < pieces.len()
        invariant
            1 <= i <= pieces@.len(),
            t == texts(pieces@),
            part_views(out@) == base + parts(t.take(i as int)),
        decreases pieces.len() - i,
    {
        proof {
            assert(t.take(i + 1) =~= t.take(i as int) + seq![t[i as int]]);
            lemma_parts_concat(t.take(i as int), seq![t[i as int]]);
            lemma_rest_parts_one(t[i as int]);
            assert(t[i as int] == pieces@[i as int]@);
        }
        let ghost before = out@;
        match component(pieces[i].as_str(), false) {
            Some(c) => {
                out.push(c);
                assert(part_views(out@) =~= part_views(before).push(c@));
                assert(part_views(out@) =~= base + parts(t.take(i + 1)));
            },
            None => {
                assert(part_views(out@) =~= base + parts(t.take(i + 1)));
            },
        }
        i = i + 1;
    }
    proof {
        assert(t.take(t.len() as int) =~= t);
        if absolute(p@) {
            assert(base =~= seq![Part::Root]);
        } else {
            assert(base =~= Seq::<Part>::empty());
            assert(base + parts(t) =~= parts(t));
        }
    }
    out
}

/// Whether two components are the same.
fn same_component(a: &Component, b: &Component) -> (r: bool)
    ensures
        r == (a@ == b@),
{
    match (a, b) {
        (Component::Root, Component::Root) => true,
        (Component::Cur, Component::Cur) => true,
        (Component::Up, Component::Up) => true,
        (Component::Name(x), Component::Name(y)) => same(x.as_str(), y.as_str()),
        _ => false,
    }
}

/// Whether the path `p` lies, component by component, at or below `base`.
pub fn path_starts_with(p: &str, base: &str) -> (r: bool)
    ensures
        r == components(base@).is_prefix_of(components(p@)),
{
    let a = path_components(p);
    let b = path_components(base);
    let ghost ca = components(p@);
    let ghost cb = components(base@);
    if b.len() > a.len() {
        return false;
    }
    let mut i: usize = 0;
    while i < b.len()
        invariant
            i <= b@.len() <= a@.len(),
            ca == part_views(a@),
            cb == part_views(b@),
            ca == components(p@),
            cb == components(base@),
            forall|j: int| 0 <= j < i ==> ca[j] == cb[j],
        decreases b.len() - i,
    {
        if !same_component(&a[i], &b[i]) {
            assert(ca.subrange(0, cb.len() as int)[i as int] == a@[i as int]@);
            assert(cb[i as int] == b@[i as int]@);
            return false;
        }
        i = i + 1;
    }
    assert(ca.subrange(0, cb.len() as int) =~= cb);
    true
}

// ---------------------------------------------------------------------------
// Joining
// ---------------------------------------------------------------------------

/// `b` seen from `a`: an absolute `b` stands for itself.
pub open spec fn joined(a: Seq<char>, b: Seq<char>) -> Seq<char> {
    if absolute(b) {
        b
    } else if a.len() == 0 || a.last() == '/' {
        a + b
    } else {
        a.push('/') + b
    }
}

/// `b` seen from `a`.
pub fn join_path(a: &str, b: &str) -> (r: String)
    ensures
        r@ == joined(a@, b@),
{
    if is_absolute(b) {
        return b.to_owned();
    }
    let cs = to_chars(a);
    if cs.len() == 0 || cs[cs.len() - 1] == '/' {
        cat(a, b)
    } else {
        let mut s: String = a.to_owned();
        s.push('/');
        s.append(b);
        s
    }
}

/// A relative path joined to a base has the components of the base, then its own.
pub proof fn lemma_joined_components(a: Seq<char>, b: Seq<char>)
    requires
        a.len() > 0,
        !absolute(b),
    ensures
        components(joined(a, b)) == components(a) + rest_parts(split(b, '/')),
{
    let j = joined(a, b);
    lemma_split_nonempty(a, '/');
    assert(j[0] == a[0]);
    if a.last() != '/' {
        lemma_split_concat(a, b, '/');
        lemma_parts_concat(split(a, '/'), split(b, '/'));
        assert(components(j) =~= components(a) + rest_parts(split(b, '/')));
    } else {
        let c = a.drop_last();
        assert(c.push('/') =~= a);
        lemma_split_nonempty(c, '/');
        lemma_split_concat(c, b, '/');
        lemma_parts_concat(split(c, '/'), split(b, '/'));
        let e = seq![Seq::<char>::empty()];
        assert(split(a, '/') =~= split(c, '/') + e);
        lemma_parts_concat(split(c, '/'), e);
        lemma_rest_parts_one(Seq::<char>::empty());
        assert(parts(split(a, '/')) =~= parts(split(c, '/')));
        assert(components(j) =~= components(a) + rest_parts(split(b, '/')));
    }
}

/// Joining a relative path never leaves the base.
pub proof fn lemma_joined_below(a: Seq<char>, b: Seq<char>)
    requires
        !absolute(b),
    ensures
        components(a).is_prefix_of(components(joined(a, b))),
{
    if a.len() > 0 {
        lemma_joined_components(a, b);
        assert(components(joined(a, b)).subrange(0, components(a).len() as int) =~= components(a));
    } else {
        assert(a =~= Seq::<char>::empty());
        let e = seq![Seq::<char>::empty()];
        assert(split(a, '/') =~= e);
        assert(e.drop_first() =~= Seq::<Seq<char>>::empty());
        assert(components(a) =~= Seq::<Part>::empty());
        assert(components(joined(a, b)).subrange(0, 0) =~= components(a));
    }
}

// ---------------------------------------------------------------------------
// The normal form
// ---------------------------------------------------------------------------

/// The names in a path, in order; `.` and `..` are not names.
pub open spec fn names(p: Seq<char>) -> Seq<Seq<char>> {
    split(p, '/').filter(|x: Seq<char>| ordinary(x))
}

/// The normal form of a request path: a slash, then its names with slashes between them, and
/// every backslash turned into a slash.
pub open spec fn normalized(p: Seq<char>) -> Seq<char> {
    swapped(seq!['/'] + join(names(p), '/'), '\\', '/')
}

/// The ordinary pieces among `pieces`.
fn keep_ordinary(pieces: &Vec<String>) -> (r: Vec<String>)
    ensures
        texts(r@) == texts(pieces@).filter(|x: Seq<char>| ordinary(x)),
{
    let mut out: Vec<String> = Vec::new();
    let ghost t = texts(pieces@);
    let ghost f = |x: Seq<char>| ordinary(x);
    let mut i: usize = 0;
    proof {
        reveal_with_fuel(Seq::filter, 1);
        assert(texts(out@) =~= t.take(0).filter(f));
    }
    while i < pieces.len()
        invariant
            i <= pieces@.len(),
            t == texts(pieces@),
            f == (|x: Seq<char>| ordinary(x)),
            texts(out@) == t.take(i as int).filter(f),
        decreases pieces.len() - i,
    {
        proof {
            reveal_with_fuel(Seq::filter, 1);
            assert(t.take(i + 1).drop_last() =~= t.take(i as int));
            assert(t.take(i + 1).last() == pieces@[i as int]@);
        }
        if is_ordinary(pieces[i].as_str()) {
            let s: String = pieces[i].as_str().to_owned();
            proof {
                lemma_texts_push(out@, s);
            }
            out.push(s);
        }
        i = i + 1;
    }
    assert(t.take(t.len() as int) =~= t);
    out
}

/// The names in a path, in order.
pub fn names_of(p: &str) -> (r: Vec<String>)
    ensures
        texts(r@) == names(p@),
{
    let pieces = split_on(p, '/');
    keep_ordinary(&pieces)
}

/// The normal form of a request path.
pub fn normalize_path(p: &str) -> (r: String)
    ensures
        r@ == normalized(p@),
{
    let kept = names_of(p);
    let tail = join_with(&kept, '/');
    let mut s: String = String::new();
    s.push('/');
    s.append(tail.as_str());
    assert(s@ =~= seq!['/'] + join(names(p@), '/'));
    replace_char(s.as_str(), '\\', '/')
}

// ---------------------------------------------------------------------------
// Danger zones and names
// ---------------------------------------------------------------------------

/// `p` is `dir`, or lies below it as text.
pub open spec fn under(p: Seq<char>, dir: Seq<char>) -> bool {
    p == dir || dir.push('/').is_prefix_of(p)
}

/// The virtual file systems that no request may reach.
pub open spec fn danger(p: Seq<char>) -> bool {
    under(p, "/proc"@) || under(p, "/sys"@) || under(p, "/dev"@)
}

/// Whether `p` is `dir` or lies below it.
pub fn is_under(p: &str, dir: &str) -> (r: bool)
    ensures
        r == under(p@, dir@),
{
    if same(p, dir) {
        return true;
    }
    let mut d: String = dir.to_owned();
    d.push('/');
    starts_with(p, d.as_str())
}

/// Whether `p` lies in a virtual file system.
pub fn is_danger_path(p: &str) -> (r: bool)
    ensures
        r == danger(p@),
{
    is_under(p, "/proc") || is_under(p, "/sys") || is_under(p, "/dev")
}

/// The last component, if it is a name.
pub open spec fn last_name(p: Seq<char>) -> Option<Seq<char>> {
    let cs = components(p);
    if cs.len() > 0 {
        match cs.last() {
            Part::Name(n) => Some(n),
            _ => None,
        }
    } else {
        None
    }
}

/// The last component, if it is a name.
pub fn file_name(p: &str) -> (r: Option<String>)
    ensures
        match last_name(p@) {
            Some(n) => r matches Some(s) && s@ == n,
            None => r is None,
        },
{
    let cs = path_components(p);
    let n: usize = cs.len();
    if n == 0 {
        return None;
    }
    assert(components(p@).last() == cs@[n - 1]@);
    match &cs[n - 1] {
        Component::Name(s) => Some(s.as_str().to_owned()),
        _ => None,
    }
}

/// The last name of a path, or nothing.
pub open spec fn base_name(p: Seq<char>) -> Seq<char> {
    match last_name(p) {
        Some(n) => n,
        None => Seq::<char>::empty(),
    }
}

/// The last name of a path, or nothing.
pub fn base_name_of(p: &str) -> (r: String)
    ensures
        r@ == base_name(p@),
{
    match file_name(p) {
        Some(s) => s,
        None => String::new(),
    }
}

/// The name to store an upload under: its last name, or `download`.
pub fn safe_name(name: &str) -> (r: String)
    ensures
        r@ == (match last_name(name@) {
            Some(n) => n,
            None => "download"@,
        }),
{
    match file_name(name) {
        Some(s) => s,
        None => "download".to_owned(),
    }
}

/// What stands before the last dot of a name; a name that starts with its only dot has none.
pub open spec fn dot_position(n: Seq<char>) -> Option<int> {
    let after = trail(n, differs('.')) as int;
    if after < n.len() - 1 {
        Some(n.len() - after - 1)
    } else {
        None
    }
}

/// The extension of a file name, without its dot.
pub open spec fn extension(p: Seq<char>) -> Option<Seq<char>> {
    match last_name(p) {
        Some(n) => match dot_position(n) {
            Some(i) => Some(n.skip(i + 1)),
            None => None,
        },
        None => None,
    }
}

/// A file name without its extension.
pub open spec fn stem(p: Seq<char>) -> Option<Seq<char>> {
    match last_name(p) {
        Some(n) => match dot_position(n) {
            Some(i) => Some(n.take(i)),
            None => Some(n),
        },
        None => None,
    }
}

/// Where the last dot stands that separates an extension.
fn find_dot(cs: &Vec<char>) -> (r: Option<usize>)
    ensures
        match dot_position(cs@) {
            Some(i) => r matches Some(k) && k == i && k < cs@.len(),
            None => r is None,
        },
{
    let mut n: usize = cs.len();
    while n > 0 && cs[n - 1] != '.'
        invariant
            n <= cs@.len(),
            forall|j: int| n <= j < cs@.len() ==> cs@[j] != '.',
        decreases n,
    {
        n = n - 1;
    }
    proof {
        lemma_trail(cs@, differs('.'), (cs@.len() - n) as nat);
    }
    if n > 1 {
        Some(n - 1)
    } else {
        None
    }
}

/// The extension of a path's file name, or nothing.
pub fn extension_of(p: &str) -> (r: Option<String>)
    ensures
        match extension(p@) {
            Some(e) => r matches Some(s) && s@ == e,
            None => r is None,
        },
{
    match file_name(p) {
        Some(name) => {
            let cs = to_chars(name.as_str());
            let n: usize = cs.len();
            match find_dot(&cs) {
                Some(i) => {
                    assert(cs@.subrange(i + 1, cs@.len() as int) =~= cs@.skip(i + 1));
                    Some(slice_text(&cs, i + 1, n))
                },
                None => None,
            }
        },
        None => None,
    }
}

/// A path's file name without its extension, or nothing.
pub fn stem_of(p: &str) -> (r: Option<String>)
    ensures
        match stem(p@) {
            Some(e) => r matches Some(s) && s@ == e,
            None => r is None,
        },
{
    match file_name(p) {
        Some(n) => {
            let cs = to_chars(n.as_str());
            match find_dot(&cs) {
                Some(i) => {
                    assert(cs@.subrange(0, i as int) =~= cs@.take(i as int));
                    Some(slice_text(&cs, 0, i))
                },
                None => Some(n),
            }
        },
        None => None,
    }
}

// ---------------------------------------------------------------------------
// Parents
// ---------------------------------------------------------------------------

/// The last position before `n` whose piece is a component, or -1.
pub open spec fn last_part(pieces: Seq<Seq<char>>, n: int) -> int
    decreases n,
{
    if n <= 0 {
        -1
    } else if part(pieces[n - 1], n == 1) is Some {
        n - 1
    } else {
        last_part(pieces, n - 1)
    }
}

/// The path without its last component; the root and the empty path have no parent.
pub open spec fn parent(p: Seq<char>) -> Option<Seq<char>> {
    let pieces = split(p, '/');
    let k = last_part(pieces, pieces.len() as int);
    let m = last_part(pieces, k);
    if k < 0 {
        None
    } else if m >= 0 {
        Some(join(pieces.take(m + 1), '/'))
    } else if absolute(p) {
        Some(seq!['/'])
    } else {
        Some(Seq::<char>::empty())
    }
}

/// The number of pieces up to and with the last component before `n`; 0 if there is none.
fn parts_until(pieces: &Vec<String>, n: usize) -> (r: usize)
    requires
        n <= pieces@.len(),
    ensures
        r == last_part(texts(pieces@), n as int) + 1,
        r <= n,
{
    let mut i: usize = n;
    while i > 0
        invariant
            i <= n <= pieces@.len(),
            last_part(texts(pieces@), n as int) == last_part(texts(pieces@), i as int),
        decreases i,
    {
        assert(texts(pieces@)[i - 1] == pieces@[i - 1]@);
        if component(pieces[i - 1].as_str(), i == 1).is_some() {
            return i;
        }
        i = i - 1;
    }
    0
}

/// The first `n` strings of `v`.
fn first_of(v: &Vec<String>, n: usize) -> (r: Vec<String>)
    requires
        n <= v@.len(),
    ensures
        texts(r@) == texts(v@).take(n as int),
{
    let mut out: Vec<String> = Vec::new();
    let mut i: usize = 0;
    while i < n
        invariant
            i <= n <= v@.len(),
            texts(out@) == texts(v@).take(i as int),
        decreases n - i,
    {
        let s: String = v[i].as_str().to_owned();
        proof {
            lemma_texts_push(out@, s);
            assert(texts(v@).take(i + 1) =~= texts(v@).take(i as int).push(s@));
        }
        out.push(s);
        i = i + 1;
    }
    out
}

/// The path without its last component.
pub fn parent_of(p: &str) -> (r: Option<String>)
    ensures
        match parent(p@) {
            Some(t) => r matches Some(s) && s@ == t,
            None => r is None,
        },
{
    let pieces = split_on(p, '/');
    let k: usize = parts_until(&pieces, pieces.len());
    if k == 0 {
        return None;
    }
    let m: usize = parts_until(&pieces, k - 1);
    if m > 0 {
        let kept = first_of(&pieces, m);
        Some(join_with(&kept, '/'))
    } else if is_absolute(p) {
        let mut s: String = String::new();
        s.push('/');
        assert(s@ =~= seq!['/']);
        Some(s)
    } else {
        Some(String::new())
    }
}

// ---------------------------------------------------------------------------
// Laws
// ---------------------------------------------------------------------------

pub proof fn lemma_swapped_clean(s: Seq<char>)
    ensures
        !swapped(s, '\\', '/').contains('\\'),
        !s.contains('\\') ==> swapped(s, '\\', '/') == s,
{
    if !s.contains('\\') {
        assert forall|i: int| 0 <= i < s.len() implies s[i] != '\\' by {}
        assert(swapped(s, '\\', '/') =~= s);
    }
}

pub proof fn lemma_join_chars(pieces: Seq<Seq<char>>, c: char, x: char)
    requires
        x != c,
        forall|i: int| 0 <= i < pieces.len() ==> !(#[trigger] pieces[i]).contains(x),
    ensures
        !join(pieces, c).contains(x),
    decreases pieces.len(),
{
    if pieces.len() > 1 {
        let front = pieces.drop_last();
        assert forall|i: int| 0 <= i < front.len() implies !(#[trigger] front[i]).contains(x) by {
            assert(front[i] == pieces[i]);
        }
        lemma_join_chars(front, c, x);
        let a = join(front, c);
        let b = pieces[pieces.len() - 1];
        assert(!b.contains(x));
        assert forall|i: int| 0 <= i < (a.push(c) + b).len() implies (a.push(c) + b)[i] != x by {
            if i < a.len() {
                assert(a[i] != x);
            } else if i > a.len() {
                assert((a.push(c) + b)[i] == b[i - a.len() - 1]);
            }
        }
    } else if pieces.len() == 1 {
        assert(!pieces[0].contains(x));
    }
}

proof fn lemma_split_chars(s: Seq<char>, c: char, x: char)
    requires
        !s.contains(x),
    ensures
        forall|i: int| 0 <= i < split(s, c).len() ==> !(#[trigger] split(s, c)[i]).contains(x),
    decreases s.len(),
{
    if s.len() > 0 {
        let t = s.drop_last();
        assert forall|i: int| 0 <= i < t.len() implies t[i] != x by {
            assert(t[i] == s[i]);
        }
        lemma_split_chars(t, c, x);
        lemma_split_nonempty(t, c);
        let f = split(t, c);
        assert(s[s.len() - 1] != x);
        assert forall|i: int| 0 <= i < split(s, c).len() implies !(#[trigger] split(s, c)[i]).contains(x) by {
            if s.last() == c {
                if i < f.len() {
                    assert(split(s, c)[i] == f[i]);
                }
            } else if i < f.len() - 1 {
                assert(split(s, c)[i] == f[i]);
            } else {
                let l = f[f.len() - 1];
                assert(!l.contains(x));
                assert(split(s, c)[i] == l.push(s.last()));
                assert forall|k: int| 0 <= k < l.push(s.last()).len() implies l.push(s.last())[k] != x by {
                    if k < l.len() {
                        assert(l[k] != x);
                    }
                }
            }
        }
    }
}

/// The names of a path are pieces of it.
pub proof fn lemma_names(p: Seq<char>)
    ensures
        forall|i: int| 0 <= i < names(p).len() ==> ordinary(#[trigger] names(p)[i]),
        forall|i: int| 0 <= i < names(p).len() ==> !(#[trigger] names(p)[i]).contains('/'),
        !p.contains('\\') ==> forall|i: int|
            0 <= i < names(p).len() ==> !(#[trigger] names(p)[i]).contains('\\'),
{
    let f = |x: Seq<char>| ordinary(x);
    let pieces = split(p, '/');
    lemma_split_pieces(p, '/');
    if !p.contains('\\') {
        lemma_split_chars(p, '/', '\\');
    }
    assert forall|i: int| 0 <= i < names(p).len() implies ordinary(#[trigger] names(p)[i])
        && !names(p)[i].contains('/') && (!p.contains('\\') ==> !names(p)[i].contains('\\')) by {
        pieces.lemma_filter_pred(f, i);
        assert(pieces.filter(f).contains(names(p)[i]));
        pieces.lemma_filter_contains_rev(f, names(p)[i]);
        let k = choose|k: int| 0 <= k < pieces.len() && pieces[k] == names(p)[i];
        assert(!pieces[k].contains('/'));
    }
}

pub proof fn lemma_filter_all(pieces: Seq<Seq<char>>)
    ensures
        (forall|i: int| 0 <= i < pieces.len() ==> ordinary(#[trigger] pieces[i])) <==> pieces.filter(
            |x: Seq<char>| ordinary(x),
        ) == pieces,
    decreases pieces.len(),
{
    let f = |x: Seq<char>| ordinary(x);
    reveal_with_fuel(Seq::filter, 1);
    if pieces.len() > 0 {
        let front = pieces.drop_last();
        lemma_filter_all(front);
        front.lemma_filter_len(f);
        if ordinary(pieces.last()) {
            assert(front.filter(f).push(pieces.last()).drop_last() =~= front.filter(f));
            assert(front.push(pieces.last()) =~= pieces);
            assert(forall|i: int| 0 <= i < front.len() ==> front[i] == pieces[i]);
            if forall|i: int| 0 <= i < pieces.len() ==> ordinary(#[trigger] pieces[i]) {
                assert forall|i: int| 0 <= i < front.len() implies ordinary(#[trigger] front[i]) by {
                    assert(ordinary(pieces[i]));
                }
            }
            if front.filter(f) == front {
                assert forall|i: int| 0 <= i < pieces.len() implies ordinary(#[trigger] pieces[i]) by {
                    if i < front.len() {
                        assert(ordinary(front[i]));
                    }
                }
            }
        } else {
            assert(!ordinary(pieces[pieces.len() - 1]));
            assert(pieces.filter(f).len() < pieces.len());
        }
    } else {
        assert(pieces.filter(f) =~= pieces);
    }
}

/// Ordinary pieces are components of their own.
pub proof fn lemma_ordinary_parts(pieces: Seq<Seq<char>>)
    requires
        forall|i: int| 0 <= i < pieces.len() ==> ordinary(#[trigger] pieces[i]),
    ensures
        rest_parts(pieces) == pieces.map_values(|n: Seq<char>| Part::Name(n)),
    decreases pieces.len(),
{
    if pieces.len() > 0 {
        let front = pieces.drop_last();
        assert forall|i: int| 0 <= i < front.len() implies ordinary(#[trigger] front[i]) by {
            assert(front[i] == pieces[i]);
        }
        lemma_ordinary_parts(front);
        assert(ordinary(pieces[pieces.len() - 1]));
    }
    assert(rest_parts(pieces) =~= pieces.map_values(|n: Seq<char>| Part::Name(n)));
}

/// A normal form without empty pieces, `.` and `..`.
pub open spec fn tidy(q: Seq<char>) -> bool {
    ||| q == seq!['/']
    ||| absolute(q) && forall|i: int|
        0 <= i < split(q.skip(1), '/').len() ==> ordinary(#[trigger] split(q.skip(1), '/')[i])
}

/// The normal form starts at the root and holds no backslash.
pub proof fn law_normal_form_is_absolute(p: Seq<char>)
    ensures
        absolute(normalized(p)),
        !normalized(p).contains('\\'),
{
    lemma_swapped_clean(seq!['/'] + join(names(p), '/'));
}

/// What a rooted text without backslashes is normalized to.
proof fn lemma_normalize_clean(t: Seq<char>)
    requires
        !t.contains('\\'),
    ensures
        names(seq!['/'] + t) == names(t),
        normalized(seq!['/'] + t) == seq!['/'] + join(names(t), '/'),
{
    let q = seq!['/'] + t;
    let e = Seq::<char>::empty();
    let f = |x: Seq<char>| ordinary(x);
    assert(q =~= e.push('/') + t);
    lemma_split_concat(e, t, '/');
    assert(split(e, '/') =~= seq![e]);
    Seq::filter_distributes_over_add(seq![e], split(t, '/'), f);
    reveal_with_fuel(Seq::filter, 2);
    assert(seq![e].drop_last() =~= Seq::<Seq<char>>::empty());
    assert(seq![e].filter(f) =~= Seq::<Seq<char>>::empty());
    assert(names(q) =~= names(t));
    lemma_names(t);
    lemma_join_chars(names(t), '/', '\\');
    let j = join(names(t), '/');
    assert forall|i: int| 0 <= i < (seq!['/'] + j).len() implies (seq!['/'] + j)[i] != '\\' by {
        if i > 0 {
            assert((seq!['/'] + j)[i] == j[i - 1]);
        }
    }
    lemma_swapped_clean(seq!['/'] + j);
}

/// Normalizing twice is normalizing once exactly where the first normal form is tidy.
pub proof fn law_normalize_is_stable(p: Seq<char>)
    ensures
        normalized(normalized(p)) == normalized(p) <==> tidy(normalized(p)),
{
    let q = normalized(p);
    law_normal_form_is_absolute(p);
    let t = q.skip(1);
    assert(q =~= seq!['/'] + t);
    assert forall|i: int| 0 <= i < t.len() implies t[i] != '\\' by {
        assert(q[i + 1] != '\\');
    }
    lemma_normalize_clean(t);
    let pieces = split(t, '/');
    lemma_filter_all(pieces);
    lemma_join_split(t, '/');
    let j = join(names(t), '/');
    if normalized(q) == q {
        assert(j =~= normalized(q).skip(1));
        if names(t).len() == 0 {
            assert(t =~= Seq::<char>::empty());
            assert(q =~= seq!['/']);
        } else {
            lemma_names(t);
            lemma_split_join(names(t), '/');
        }
    }
    if q == seq!['/'] {
        assert(t =~= Seq::<char>::empty());
        assert(pieces =~= seq![Seq::<char>::empty()]);
        reveal_with_fuel(Seq::filter, 2);
        assert(pieces.drop_last() =~= Seq::<Seq<char>>::empty());
        assert(names(t) =~= Seq::<Seq<char>>::empty());
        assert(normalized(q) =~= q);
    }
}

/// A request without backslashes has a tidy normal form with the same names.
pub proof fn law_normal_form_of_plain_request(p: Seq<char>)
    requires
        !p.contains('\\'),
    ensures
        tidy(normalized(p)),
        normalized(p) == seq!['/'] + join(names(p), '/'),
        names(normalized(p)) == names(p),
{
    lemma_names(p);
    lemma_join_chars(names(p), '/', '\\');
    let j = join(names(p), '/');
    assert forall|i: int| 0 <= i < (seq!['/'] + j).len() implies (seq!['/'] + j)[i] != '\\' by {
        if i > 0 {
            assert((seq!['/'] + j)[i] == j[i - 1]);
        }
    }
    lemma_swapped_clean(seq!['/'] + j);
    let q = normalized(p);
    assert(q.skip(1) =~= j);
    lemma_normalize_clean(j);
    if names(p).len() == 0 {
        assert(q =~= seq!['/']);
        reveal_with_fuel(Seq::filter, 2);
        assert(j =~= Seq::<char>::empty());
        assert(split(j, '/') =~= seq![Seq::<char>::empty()]);
        assert(split(j, '/').drop_last() =~= Seq::<Seq<char>>::empty());
        assert(names(j) =~= names(p));
    } else {
        lemma_split_join(names(p), '/');
        lemma_filter_all(names(p));
    }
}

/// Leading slashes hold no names.
pub proof fn lemma_names_of_trimmed(s: Seq<char>)
    ensures
        names(trim_start(s, '/')) == names(s),
    decreases s.len(),
{
    if s.len() > 0 && s[0] == '/' {
        let t = s.drop_first();
        lemma_names_of_trimmed(t);
        assert(trim_start(s, '/') =~= trim_start(t, '/')) by {
            assert(lead(s, equals('/')) == 1 + lead(t, equals('/')));
            lemma_lead_is(t, equals('/'));
        }
        lemma_names_concat(Seq::<char>::empty(), t);
        assert(s =~= Seq::<char>::empty() + seq!['/'] + t);
        lemma_no_names();
    } else {
        assert(lead(s, equals('/')) == 0);
        assert(trim_start(s, '/') =~= s);
    }
}

/// Leading slashes stand for no components.
pub proof fn lemma_parts_of_trimmed(s: Seq<char>)
    ensures
        rest_parts(split(trim_start(s, '/'), '/')) == rest_parts(split(s, '/')),
    decreases s.len(),
{
    if s.len() > 0 && s[0] == '/' {
        let e = Seq::<char>::empty();
        let t = s.drop_first();
        lemma_parts_of_trimmed(t);
        assert(trim_start(s, '/') =~= trim_start(t, '/')) by {
            assert(lead(s, equals('/')) == 1 + lead(t, equals('/')));
            lemma_lead_is(t, equals('/'));
        }
        assert(s =~= e.push('/') + t);
        lemma_split_concat(e, t, '/');
        assert(split(e, '/') =~= seq![e]);
        lemma_rest_parts_concat(seq![e], split(t, '/'));
        lemma_rest_parts_one(e);
        assert(rest_parts(split(s, '/')) =~= rest_parts(split(t, '/')));
    } else {
        assert(lead(s, equals('/')) == 0);
        assert(trim_start(s, '/') =~= s);
    }
}

/// Pieces of which none is `..` stand for the names among them.
pub proof fn lemma_parts_are_names(pieces: Seq<Seq<char>>)
    requires
        !pieces.contains(dot_dot()),
    ensures
        rest_parts(pieces) == pieces.filter(|x: Seq<char>| ordinary(x)).map_values(
            |n: Seq<char>| Part::Name(n),
        ),
    decreases pieces.len(),
{
    let f = |x: Seq<char>| ordinary(x);
    let g = |n: Seq<char>| Part::Name(n);
    reveal_with_fuel(Seq::filter, 1);
    if pieces.len() > 0 {
        let front = pieces.drop_last();
        let last = pieces.last();
        assert(pieces[pieces.len() - 1] == last);
        assert forall|i: int| 0 <= i < front.len() implies front[i] != dot_dot() by {
            assert(front[i] == pieces[i]);
        }
        lemma_parts_are_names(front);
        if ordinary(last) {
            assert(front.filter(f).push(last).map_values(g) =~= front.filter(f).map_values(g).push(
                Part::Name(last),
            ));
        }
    } else {
        assert(pieces.filter(f).map_values(g) =~= Seq::<Part>::empty());
    }
}

pub proof fn lemma_no_names()
    ensures
        names(Seq::<char>::empty()) == Seq::<Seq<char>>::empty(),
{
    let e = Seq::<char>::empty();
    reveal_with_fuel(Seq::filter, 2);
    assert(split(e, '/') =~= seq![e]);
    assert(seq![e].drop_last() =~= Seq::<Seq<char>>::empty());
    assert(names(e) =~= Seq::<Seq<char>>::empty());
}

/// A path put together from two has the names of both.
pub proof fn lemma_names_concat(a: Seq<char>, b: Seq<char>)
    ensures
        names(a + seq!['/'] + b) == names(a) + names(b),
{
    let f = |x: Seq<char>| ordinary(x);
    assert(a + seq!['/'] + b =~= a.push('/') + b);
    lemma_split_concat(a, b, '/');
    Seq::filter_distributes_over_add(split(a, '/'), split(b, '/'), f);
}

proof fn lemma_rest_parts_names(pieces: Seq<Seq<char>>)
    ensures
        forall|i: int|
            0 <= i < rest_parts(pieces).len() ==> ((#[trigger] rest_parts(pieces)[i]) matches Part::Name(n)
                ==> ordinary(n) && pieces.contains(n)),
    decreases pieces.len(),
{
    if pieces.len() > 0 {
        let front = pieces.drop_last();
        lemma_rest_parts_names(front);
        assert forall|i: int| 0 <= i < rest_parts(pieces).len() implies ((#[trigger] rest_parts(pieces)[i]) matches Part::Name(
            n,
        ) ==> ordinary(n) && pieces.contains(n)) by {
            if i < rest_parts(front).len() {
                assert(rest_parts(pieces)[i] == rest_parts(front)[i]);
                if let Part::Name(n) = rest_parts(front)[i] {
                    let k = choose|k: int| 0 <= k < front.len() && front[k] == n;
                    assert(pieces[k] == n);
                }
            } else {
                assert(pieces[pieces.len() - 1] == pieces.last());
            }
        }
    }
}

/// The last name of a path is a name.
pub proof fn lemma_last_name(p: Seq<char>)
    ensures
        last_name(p) matches Some(n) ==> {
            &&& ordinary(n)
            &&& !n.contains('/')
            &&& !p.contains('\\') ==> !n.contains('\\')
        },
{
    let pieces = split(p, '/');
    lemma_split_nonempty(p, '/');
    lemma_split_pieces(p, '/');
    if !p.contains('\\') {
        lemma_split_chars(p, '/', '\\');
    }
    lemma_rest_parts_names(pieces.drop_first());
    if let Some(n) = last_name(p) {
        let cs = components(p);
        let ps = parts(pieces);
        let rest = rest_parts(pieces.drop_first());
        assert(cs.last() == Part::Name(n));
        assert(ps.len() > 0 && ps.last() == cs.last());
        if rest.len() > 0 {
            assert(ps.last() == rest[rest.len() - 1]);
            let k = choose|k: int| 0 <= k < pieces.drop_first().len() && pieces.drop_first()[k] == n;
            assert(pieces[k + 1] == n);
        } else {
            assert(part(pieces[0], true) == Some(Part::Name(n)));
            assert(pieces[0] == n);
        }
    }
}

/// A name has itself for its names.
pub proof fn lemma_names_one(n: Seq<char>)
    requires
        ordinary(n),
        !n.contains('/'),
    ensures
        names(n) == seq![n],
{
    lemma_split_whole(n, '/');
    lemma_filter_all(seq![n]);
}

/// A path put together from names has these names, with and without a slash before them.
pub proof fn law_path_of_names(ns: Seq<Seq<char>>)
    requires
        forall|i: int|
            0 <= i < ns.len() ==> (#[trigger] ns[i]).len() > 0 && ns[i] != seq!['.'] && ns[i] != seq![
                '.',
                '.',
            ] && !ns[i].contains('/'),
    ensures
        names(join(ns, '/')) == ns,
        names(seq!['/'] + join(ns, '/')) == ns,
        components(seq!['/'] + join(ns, '/')) == seq![Part::Root] + ns.map_values(
            |n: Seq<char>| Part::Name(n),
        ),
        components(join(ns, '/')) == ns.map_values(|n: Seq<char>| Part::Name(n)),
{
    let e = Seq::<char>::empty();
    let j = join(ns, '/');
    let part_of = |n: Seq<char>| Part::Name(n);
    assert forall|i: int| 0 <= i < ns.len() implies ordinary(#[trigger] ns[i]) by {
        assert(ns[i] != seq!['.'] && ns[i] != seq!['.', '.']);
    }
    lemma_filter_all(ns);
    lemma_ordinary_parts(ns);
    assert(seq!['/'] + j =~= e + seq!['/'] + j);
    assert(seq!['/'] + j =~= e.push('/') + j);
    lemma_names_concat(e, j);
    lemma_no_names();
    lemma_split_concat(e, j, '/');
    assert(split(e, '/') =~= seq![e]);
    if ns.len() == 0 {
        assert(j =~= e);
        assert(names(j) =~= ns);
        lemma_rest_parts_one(e);
        assert(split(seq!['/'] + j, '/') =~= seq![e, e]);
        assert(seq![e, e].drop_first() =~= seq![e]);
        assert(components(seq!['/'] + j) =~= seq![Part::Root] + ns.map_values(part_of));
        assert(seq![e].drop_first() =~= Seq::<Seq<char>>::empty());
        assert(components(j) =~= ns.map_values(part_of));
    } else {
        lemma_split_join(ns, '/');
        assert((seq![e] + ns).drop_first() =~= ns);
        assert(split(seq!['/'] + j, '/') =~= seq![e] + ns);
        assert(parts(split(seq!['/'] + j, '/')) =~= ns.map_values(part_of));
        assert(ordinary(ns[0]));
        let rest = ns.drop_first();
        assert forall|i: int| 0 <= i < rest.len() implies ordinary(#[trigger] rest[i]) by {
            assert(rest[i] == ns[i + 1]);
        }
        lemma_ordinary_parts(rest);
        assert(part(ns[0], true) == Some(Part::Name(ns[0])));
        assert(parts(ns) =~= ns.map_values(part_of));
        assert(!absolute(j)) by {
            if absolute(j) {
                let t = j.drop_first();
                assert(j =~= e.push('/') + t);
                lemma_split_concat(e, t, '/');
                assert(split(j, '/')[0] == e);
            }
        }
    }
}

/// Repeated slashes, `.` and `..` add no name to a path.
pub proof fn law_dots_are_no_names(a: Seq<char>, b: Seq<char>)
    ensures
        names(a + seq!['/', '/'] + b) == names(a) + names(b),
        names(a + seq!['/', '.', '/'] + b) == names(a) + names(b),
        names(a + seq!['/', '.', '.', '/'] + b) == names(a) + names(b),
{
    let e = Seq::<char>::empty();
    let d = seq!['.'];
    let u = seq!['.', '.'];
    let f = |x: Seq<char>| ordinary(x);
    lemma_no_names();
    reveal_with_fuel(Seq::filter, 2);
    lemma_split_whole(d, '/');
    lemma_split_whole(u, '/');
    assert(seq![d].drop_last() =~= Seq::<Seq<char>>::empty());
    assert(seq![u].drop_last() =~= Seq::<Seq<char>>::empty());
    assert(d =~= dot());
    assert(u =~= dot_dot());
    assert(names(d) =~= Seq::<Seq<char>>::empty());
    assert(names(u) =~= Seq::<Seq<char>>::empty());
    lemma_names_concat(e, b);
    lemma_names_concat(a, e + seq!['/'] + b);
    assert(a + seq!['/', '/'] + b =~= a + seq!['/'] + (e + seq!['/'] + b));
    lemma_names_concat(d, b);
    lemma_names_concat(a, d + seq!['/'] + b);
    assert(a + seq!['/', '.', '/'] + b =~= a + seq!['/'] + (d + seq!['/'] + b));
    lemma_names_concat(u, b);
    lemma_names_concat(a, u + seq!['/'] + b);
    assert(a + seq!['/', '.', '.', '/'] + b =~= a + seq!['/'] + (u + seq!['/'] + b));
}

proof fn lemma_absolute_pieces(p: Seq<char>)
    ensures
        absolute(p) <==> split(p, '/').len() > 1 && split(p, '/')[0].len() == 0,
{
    let e = Seq::<char>::empty();
    let pieces = split(p, '/');
    lemma_join_split(p, '/');
    lemma_split_nonempty(p, '/');
    if absolute(p) {
        let t = p.drop_first();
        assert(p =~= e.push('/') + t);
        lemma_split_concat(e, t, '/');
        lemma_split_nonempty(t, '/');
        assert(split(e, '/') =~= seq![e]);
    } else if pieces.len() > 1 && pieces[0].len() == 0 {
        let rest = pieces.drop_first();
        assert(pieces[0] =~= e);
        assert(pieces =~= seq![e] + rest);
        lemma_join_lists(seq![e], rest, '/');
        assert(p[0] == '/');
    }
}

proof fn lemma_parts_until(pieces: Seq<Seq<char>>, n: int)
    requires
        0 <= n <= pieces.len(),
    ensures
        -1 <= last_part(pieces, n) < n,
        last_part(pieces, n) < 0 ==> parts(pieces.take(n)) == Seq::<Part>::empty(),
        last_part(pieces, n) >= 0 ==> {
            let k = last_part(pieces, n);
            &&& part(pieces[k], k == 0) is Some
            &&& parts(pieces.take(n)) == parts(pieces.take(k)).push(part(pieces[k], k == 0)->0)
        },
    decreases n,
{
    if n > 0 {
        lemma_parts_until(pieces, n - 1);
        let x = pieces[n - 1];
        assert(pieces.take(n) =~= pieces.take(n - 1) + seq![x]);
        lemma_rest_parts_one(x);
        if n > 1 {
            lemma_parts_concat(pieces.take(n - 1), seq![x]);
            assert(parts(pieces.take(n)) =~= parts(pieces.take(n - 1)) + rest_parts(seq![x]));
        } else {
            assert(pieces.take(1) =~= seq![x]);
            assert(seq![x].drop_first() =~= Seq::<Seq<char>>::empty());
            assert(pieces.take(0) =~= Seq::<Seq<char>>::empty());
        }
        if part(x, n == 1) is Some {
            assert(parts(pieces.take(n)) =~= parts(pieces.take(n - 1)).push(part(x, n == 1)->0));
        } else {
            assert(parts(pieces.take(n)) =~= parts(pieces.take(n - 1)));
        }
    } else {
        assert(pieces.take(0) =~= Seq::<Seq<char>>::empty());
    }
}

/// The parent of a path has the components of the path but the last. Only the root and a path without
/// components have none.
pub proof fn law_parent_lacks_the_last_component(p: Seq<char>)
    ensures
        match parent(p) {
            Some(q) => components(p).len() > 0 && components(p) != seq![Part::Root] && components(q)
                == components(p).drop_last(),
            None => components(p).len() == 0 || components(p) == seq![Part::Root],
        },
{
    let e = Seq::<char>::empty();
    let pieces = split(p, '/');
    let n = pieces.len() as int;
    let k = last_part(pieces, n);
    let m = last_part(pieces, k);
    assert(pieces.take(n) =~= pieces);
    lemma_parts_until(pieces, n);
    lemma_absolute_pieces(p);
    if k < 0 {
        assert(components(p).len() == 0 || components(p) =~= seq![Part::Root]);
    } else {
        lemma_parts_until(pieces, k);
        let x = part(pieces[k], k == 0)->0;
        let head = parts(pieces.take(k));
        assert(components(p).drop_last() =~= if absolute(p) {
            seq![Part::Root] + head
        } else {
            head
        });
        assert(components(p).last() == x);
        if absolute(p) {
            assert(components(p).len() >= 2);
        } else {
            assert(x != Part::Root);
        }
        if m >= 0 {
            lemma_parts_until(pieces, m + 1);
            assert(last_part(pieces, m + 1) == m);
            let kept = pieces.take(m + 1);
            lemma_split_pieces(p, '/');
            assert forall|i: int| 0 <= i < kept.len() implies !(#[trigger] kept[i]).contains('/') by {
                assert(kept[i] == pieces[i]);
            }
            lemma_split_join(kept, '/');
            let q = join(kept, '/');
            lemma_absolute_pieces(q);
            assert(kept[0] == pieces[0]);
            if absolute(p) {
                assert(part(pieces[0], true) is None);
                assert(m > 0);
            }
            assert(parts(kept) == head);
        } else if absolute(p) {
            let s = seq!['/'];
            assert(s =~= e.push('/') + e);
            lemma_split_concat(e, e, '/');
            assert(split(e, '/') =~= seq![e]);
            assert(split(s, '/') =~= seq![e, e]);
            assert(seq![e, e].drop_first() =~= seq![e]);
            lemma_rest_parts_one(e);
            assert(components(s) =~= seq![Part::Root]);
        } else {
            assert(split(e, '/') =~= seq![e]);
            assert(seq![e].drop_first() =~= Seq::<Seq<char>>::empty());
            assert(components(e) =~= Seq::<Part>::empty());
        }
    }
}

/// A name joined to a path is the last name of the whole.
pub proof fn law_joined_name_is_the_last(a: Seq<char>, n: Seq<char>)
    requires
        a.len() > 0,
        n.len() > 0,
        n != seq!['.'],
        n != seq!['.', '.'],
        !n.contains('/'),
    ensures
        components(joined(a, n)) == components(a).push(Part::Name(n)),
        base_name(joined(a, n)) == n,
        base_name(n) == n,
{
    assert(ordinary(n));
    assert(n[0] != '/') by {
        if n[0] == '/' {
            assert(n.contains('/'));
        }
    }
    lemma_joined_components(a, n);
    lemma_split_whole(n, '/');
    lemma_rest_parts_one(n);
    assert(components(joined(a, n)) =~= components(a).push(Part::Name(n)));
    assert(seq![n].drop_first() =~= Seq::<Seq<char>>::empty());
    assert(components(n) =~= seq![Part::Name(n)]);
}

/// The last dot of a name parts it in two, unless the name starts with it.
pub proof fn law_extension_follows_the_last_dot(s: Seq<char>, e: Seq<char>)
    requires
        s.len() > 0,
        !s.contains('/'),
        !e.contains('/'),
        !e.contains('.'),
        s + seq!['.'] + e != seq!['.', '.'],
    ensures
        extension(s + seq!['.'] + e) == Some(e),
        stem(s + seq!['.'] + e) == Some(s),
{
    let n = s + seq!['.'] + e;
    assert(n.len() >= 2 && n != seq!['.']);
    assert(!n.contains('/')) by {
        assert forall|i: int| 0 <= i < n.len() implies n[i] != '/' by {
            if i < s.len() {
                assert(n[i] == s[i]);
            } else if i > s.len() {
                assert(n[i] == e[i - s.len() - 1]);
            }
        }
    }
    law_joined_name_is_the_last(n, n);
    lemma_split_whole(n, '/');
    assert(seq![n].drop_first() =~= Seq::<Seq<char>>::empty());
    assert(components(n) =~= seq![Part::Name(n)]);
    assert forall|j: int| n.len() - e.len() <= j < n.len() implies differs('.')(#[trigger] n[j]) by {
        assert(n[j] == e[j - s.len() - 1]);
    }
    lemma_trail(n, differs('.'), e.len());
    assert(n.skip(s.len() as int + 1) =~= e);
    assert(n.take(s.len() as int) =~= s);
}

/// A name without a dot, or with one at its start only, has no extension.
pub proof fn law_names_without_extension(n: Seq<char>)
    requires
        n.len() > 0,
        n != seq!['.'],
        n != seq!['.', '.'],
        !n.contains('/'),
        !n.drop_first().contains('.'),
    ensures
        extension(n) is None,
        stem(n) == Some(n),
{
    assert(ordinary(n));
    lemma_split_whole(n, '/');
    assert(seq![n].drop_first() =~= Seq::<Seq<char>>::empty());
    assert(components(n) =~= seq![Part::Name(n)]);
    assert forall|j: int| 1 <= j < n.len() implies differs('.')(#[trigger] n[j]) by {
        assert(n.drop_first()[j - 1] == n[j]);
    }
    if n[0] == '.' {
        lemma_trail(n, differs('.'), (n.len() - 1) as nat);
    } else {
        lemma_trail(n, differs('.'), n.len());
    }
}

/// A path of names from the root lies in a virtual file system exactly if its first name is that of
/// one.
pub proof fn law_virtual_file_systems_go_by_the_first_name(ns: Seq<Seq<char>>)
    requires
        forall|i: int| 0 <= i < ns.len() ==> (#[trigger] ns[i]).len() > 0 && !ns[i].contains('/'),
    ensures
        danger(seq!['/'] + join(ns, '/')) <==> ns.len() > 0 && (ns[0] == "proc"@ || ns[0] == "sys"@
            || ns[0] == "dev"@),
{
    reveal_strlit("proc");
    reveal_strlit("sys");
    reveal_strlit("dev");
    reveal_strlit("/proc");
    reveal_strlit("/sys");
    reveal_strlit("/dev");
    assert("/proc"@ =~= seq!['/'] + "proc"@);
    assert("/sys"@ =~= seq!['/'] + "sys"@);
    assert("/dev"@ =~= seq!['/'] + "dev"@);
    lemma_under_first_name(ns, "proc"@);
    lemma_under_first_name(ns, "sys"@);
    lemma_under_first_name(ns, "dev"@);
}

proof fn lemma_under_first_name(ns: Seq<Seq<char>>, d: Seq<char>)
    requires
        forall|i: int| 0 <= i < ns.len() ==> (#[trigger] ns[i]).len() > 0 && !ns[i].contains('/'),
        d.len() > 0,
        !d.contains('/'),
    ensures
        under(seq!['/'] + join(ns, '/'), seq!['/'] + d) <==> ns.len() > 0 && ns[0] == d,
{
    let j = join(ns, '/');
    let p = seq!['/'] + j;
    let q = seq!['/'] + d;
    assert(p.skip(1) =~= j);
    assert(q.skip(1) =~= d);
    if ns.len() > 0 {
        lemma_split_join(ns, '/');
        if ns[0] == d {
            let rest = ns.drop_first();
            assert(ns =~= seq![d] + rest);
            if rest.len() > 0 {
                lemma_join_lists(seq![d], rest, '/');
                assert(p.subrange(0, q.len() as int + 1) =~= q.push('/'));
            } else {
                assert(j == d);
            }
        }
        if under(p, q) {
            if p == q {
                assert(j == d);
                lemma_split_whole(d, '/');
            } else {
                let t = p.skip(q.len() as int + 1);
                assert(p =~= q.push('/') + t);
                assert(j =~= d.push('/') + t) by {
                    assert((q.push('/') + t).skip(1) =~= d.push('/') + t);
                }
                lemma_split_concat(d, t, '/');
                lemma_split_whole(d, '/');
            }
        }
    } else {
        assert(j =~= Seq::<char>::empty());
        assert(p.len() == 1);
    }
}

/// In the normal form every backslash is a slash, and all else stays.
pub proof fn law_backslashes_become_slashes(p: Seq<char>, i: int)
    requires
        0 <= i < 1 + join(names(p), '/').len(),
    ensures
        normalized(p).len() == 1 + join(names(p), '/').len(),
        normalized(p)[0] == '/',
        i > 0 ==> normalized(p)[i] == if join(names(p), '/')[i - 1] == '\\' {
            '/'
        } else {
            join(names(p), '/')[i - 1]
        },
{
}

} // verus!
