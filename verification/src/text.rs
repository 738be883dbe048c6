//! Text as sequences of characters: splitting, joining, trimming, searching.

use vstd::prelude::*;
use vstd::utf8::{
    decode_utf8, encode_utf8, encode_utf8_decode_utf8, encode_utf8_valid_utf8, is_ascii_chars, valid_utf8,
};

verus! {

// ---------------------------------------------------------------------------
// What the operations mean
// ---------------------------------------------------------------------------

/// The contents of a list of strings.
pub open spec fn texts(v: Seq<String>) -> Seq<Seq<char>> {
    v.map_values(|s: String| s@)
}

/// The contents of a string that may be missing.
pub open spec fn opt_text(o: Option<String>) -> Option<Seq<char>> {
    match o {
        Some(s) => Some(s@),
        None => None,
    }
}

/// How many characters at the start of `s` satisfy `p`, before the first that does not.
pub open spec fn lead(s: Seq<char>, p: spec_fn(char) -> bool) -> nat
    decreases s.len(),
{
    if s.len() == 0 || !p(s[0]) {
        0
    } else {
        1 + lead(s.drop_first(), p)
    }
}

/// How many characters at the end of `s` satisfy `p`, after the last that does not.
pub open spec fn trail(s: Seq<char>, p: spec_fn(char) -> bool) -> nat
    decreases s.len(),
{
    if s.len() == 0 || !p(s.last()) {
        0
    } else {
        1 + trail(s.drop_last(), p)
    }
}

/// The test for being `c`.
pub open spec fn equals(c: char) -> spec_fn(char) -> bool {
    |x: char| x == c
}

/// The test for not being `c`.
pub open spec fn differs(c: char) -> spec_fn(char) -> bool {
    |x: char| x != c
}

/// `s` without its leading `c`s.
pub open spec fn trim_start(s: Seq<char>, c: char) -> Seq<char> {
    s.skip(lead(s, equals(c)) as int)
}

/// `s` without its trailing `c`s.
pub open spec fn trim_end(s: Seq<char>, c: char) -> Seq<char> {
    s.take(s.len() - trail(s, equals(c)))
}

/// The characters with the Unicode property `White_Space`.
pub open spec fn white(c: char) -> bool {
    ||| '\u{9}' <= c <= '\u{d}'
    ||| c == ' '
    ||| c == '\u{85}'
    ||| c == '\u{a0}'
    ||| c == '\u{1680}'
    ||| '\u{2000}' <= c <= '\u{200a}'
    ||| c == '\u{2028}'
    ||| c == '\u{2029}'
    ||| c == '\u{202f}'
    ||| c == '\u{205f}'
    ||| c == '\u{3000}'
}

/// `s` without the white space at its two ends.
pub open spec fn trimmed(s: Seq<char>) -> Seq<char> {
    let t = s.skip(lead(s, |x: char| white(x)) as int);
    t.take(t.len() - trail(t, |x: char| white(x)))
}

/// The pieces of `s` between the occurrences of `c`; one more than there are occurrences.
pub open spec fn split(s: Seq<char>, c: char) -> Seq<Seq<char>>
    decreases s.len(),
{
    if s.len() == 0 {
        seq![Seq::<char>::empty()]
    } else {
        let front = split(s.drop_last(), c);
        if s.last() == c {
            front.push(Seq::<char>::empty())
        } else {
            front.drop_last().push(front.last().push(s.last()))
        }
    }
}

/// The pieces one after the other, with `c` between neighbours.
pub open spec fn join(pieces: Seq<Seq<char>>, c: char) -> Seq<char>
    decreases pieces.len(),
{
    if pieces.len() == 0 {
        Seq::<char>::empty()
    } else if pieces.len() == 1 {
        pieces[0]
    } else {
        join(pieces.drop_last(), c).push(c) + pieces.last()
    }
}

/// What stands before and after the first `c` of `s`.
pub open spec fn cut(s: Seq<char>, c: char) -> Option<(Seq<char>, Seq<char>)> {
    let i = lead(s, differs(c)) as int;
    if i < s.len() {
        Some((s.take(i), s.skip(i + 1)))
    } else {
        None
    }
}

/// `p` stands in `s` from position `i` on.
pub open spec fn occurs_at(s: Seq<char>, p: Seq<char>, i: int) -> bool {
    0 <= i && i + p.len() <= s.len() && s.subrange(i, i + p.len()) == p
}

/// `p` stands somewhere in `s`.
pub open spec fn occurs(s: Seq<char>, p: Seq<char>) -> bool {
    exists|i: int| occurs_at(s, p, i)
}

/// `i` is the first position of `p` in `s`.
pub open spec fn first_at(s: Seq<char>, p: Seq<char>, i: int) -> bool {
    occurs_at(s, p, i) && forall|j: int| 0 <= j < i ==> !occurs_at(s, p, j)
}

/// The first position of `p` in `s`.
pub open spec fn position(s: Seq<char>, p: Seq<char>) -> int {
    choose|i: int| first_at(s, p, i)
}

/// `s` with `p` taken off its start as often as it stands there.
pub open spec fn strip_all(s: Seq<char>, p: Seq<char>) -> Seq<char>
    decreases s.len(),
{
    if p.len() > 0 && p.is_prefix_of(s) {
        strip_all(s.skip(p.len() as int), p)
    } else {
        s
    }
}

/// `s` with every `a` turned into `b`.
pub open spec fn swapped(s: Seq<char>, a: char, b: char) -> Seq<char> {
    s.map_values(|c: char| if c == a { b } else { c })
}

/// The decimal digit for `d`.
pub open spec fn digit(d: nat) -> char {
    (('0' as u32) + d) as char
}

/// The decimal digits of `n`, without leading zeros.
pub open spec fn digits(n: nat) -> Seq<char>
    decreases n,
{
    if n < 10 {
        seq![digit(n)]
    } else {
        digits(n / 10).push(digit(n % 10))
    }
}

/// The decimal digits of `n`, behind a minus sign if it is negative.
pub open spec fn signed_digits(n: int) -> Seq<char> {
    if n < 0 {
        seq!['-'] + digits((-n) as nat)
    } else {
        digits(n as nat)
    }
}

/// The decimal digits of `n`, at least two of them.
pub open spec fn digits2(n: nat) -> Seq<char> {
    if n < 10 {
        seq!['0'] + digits(n)
    } else {
        digits(n)
    }
}

/// `c` in lower case if it is an ASCII letter.
pub open spec fn ascii_lower(c: char) -> char {
    if 'A' <= c <= 'Z' {
        ((c as u32) + 32) as char
    } else {
        c
    }
}

/// What `str::to_lowercase` makes of a text.
pub uninterp spec fn lowercase(s: Seq<char>) -> Seq<char>;

/// A text in lower case.
pub open spec fn lowered(s: Seq<char>) -> Seq<char> {
    if is_ascii_chars(s) {
        ascii_lowered(s)
    } else {
        lowercase(s)
    }
}

/// What `String::from_utf8_lossy` makes of bytes.
pub uninterp spec fn lossy(bytes: Seq<u8>) -> Seq<char>;

/// Bytes as text: valid UTF-8 is decoded, other bytes with replacements.
pub open spec fn readable(bytes: Seq<u8>) -> Seq<char> {
    if valid_utf8(bytes) {
        decode_utf8(bytes)
    } else {
        lossy(bytes)
    }
}

// ---------------------------------------------------------------------------
// Facts
// ---------------------------------------------------------------------------

pub proof fn lemma_lead(s: Seq<char>, p: spec_fn(char) -> bool, n: nat)
    requires
        n <= s.len(),
        forall|j: int| 0 <= j < n ==> p(#[trigger] s[j]),
        n < s.len() ==> !p(s[n as int]),
    ensures
        lead(s, p) == n,
    decreases n,
{
    if n > 0 {
        let t = s.drop_first();
        assert(p(s[0]));
        assert forall|j: int| 0 <= j < n - 1 implies p(#[trigger] t[j]) by {
            assert(t[j] == s[j + 1]);
        }
        lemma_lead(t, p, (n - 1) as nat);
    }
}

pub proof fn lemma_lead_is(s: Seq<char>, p: spec_fn(char) -> bool)
    ensures
        lead(s, p) <= s.len(),
        forall|j: int| 0 <= j < lead(s, p) ==> p(#[trigger] s[j]),
        lead(s, p) < s.len() ==> !p(s[lead(s, p) as int]),
    decreases s.len(),
{
    if s.len() > 0 && p(s[0]) {
        let t = s.drop_first();
        lemma_lead_is(t, p);
        assert forall|j: int| 0 <= j < lead(s, p) implies p(#[trigger] s[j]) by {
            if j > 0 {
                assert(t[j - 1] == s[j]);
            }
        }
    }
}

pub proof fn lemma_trail(s: Seq<char>, p: spec_fn(char) -> bool, n: nat)
    requires
        n <= s.len(),
        forall|j: int| s.len() - n <= j < s.len() ==> p(#[trigger] s[j]),
        n < s.len() ==> !p(s[s.len() - n - 1]),
    ensures
        trail(s, p) == n,
    decreases n,
{
    if n > 0 {
        let t = s.drop_last();
        assert(p(s[s.len() - 1]));
        assert forall|j: int| t.len() - (n - 1) <= j < t.len() implies p(#[trigger] t[j]) by {
            assert(t[j] == s[j]);
        }
        lemma_trail(t, p, (n - 1) as nat);
    }
}

proof fn lemma_trail_bound(s: Seq<char>, p: spec_fn(char) -> bool)
    ensures
        trail(s, p) <= s.len(),
    decreases s.len(),
{
    if s.len() > 0 {
        lemma_trail_bound(s.drop_last(), p);
    }
}

/// A text is its own trimmed form exactly if it neither starts nor ends with white space.
pub proof fn lemma_trimmed_whole(s: Seq<char>)
    ensures
        trimmed(s) == s <==> s.len() == 0 || (!white(s[0]) && !white(s.last())),
{
    let n = lead(s, |x: char| white(x));
    let t = s.skip(n as int);
    let m = trail(t, |x: char| white(x));
    if s.len() == 0 || (!white(s[0]) && !white(s.last())) {
        assert(t =~= s);
        assert(trimmed(s) =~= s);
    } else if trimmed(s) == s {
        lemma_lead_is(s, |x: char| white(x));
        lemma_trail_bound(t, |x: char| white(x));
        assert(n == 0 && m == 0);
        assert(t =~= s);
    }
}

pub proof fn lemma_split_nonempty(s: Seq<char>, c: char)
    ensures
        split(s, c).len() > 0,
    decreases s.len(),
{
    if s.len() > 0 {
        lemma_split_nonempty(s.drop_last(), c);
    }
}

/// Splitting a text that holds `c` splits what stands on its two sides.
pub proof fn lemma_split_concat(a: Seq<char>, b: Seq<char>, c: char)
    ensures
        split(a.push(c) + b, c) == split(a, c) + split(b, c),
    decreases b.len(),
{
    let s = a.push(c) + b;
    if b.len() == 0 {
        assert(s =~= a.push(c));
        assert(s.drop_last() =~= a);
        assert(split(b, c) =~= seq![Seq::<char>::empty()]);
        assert(split(s, c) =~= split(a, c) + split(b, c));
    } else {
        lemma_split_concat(a, b.drop_last(), c);
        lemma_split_nonempty(b.drop_last(), c);
        assert(s.drop_last() =~= a.push(c) + b.drop_last());
        assert(s.last() == b.last());
        let fa = split(a, c);
        let fb = split(b.drop_last(), c);
        if b.last() == c {
            assert((fa + fb).push(Seq::<char>::empty()) =~= fa + fb.push(Seq::<char>::empty()));
        } else {
            assert((fa + fb).last() == fb.last());
            assert((fa + fb).drop_last() =~= fa + fb.drop_last());
            assert((fa + fb.drop_last()).push(fb.last().push(b.last())) =~= fa + fb.drop_last().push(
                fb.last().push(b.last()),
            ));
        }
    }
}

/// A text without `c` is its own only piece.
pub proof fn lemma_split_whole(s: Seq<char>, c: char)
    requires
        !s.contains(c),
    ensures
        split(s, c) == seq![s],
    decreases s.len(),
{
    if s.len() > 0 {
        assert(s.last() == s[s.len() - 1]);
        assert forall|i: int| 0 <= i < s.drop_last().len() implies s.drop_last()[i] != c by {
            assert(s.drop_last()[i] == s[i]);
        }
        lemma_split_whole(s.drop_last(), c);
        assert(s.drop_last().push(s.last()) =~= s);
        assert(split(s, c) =~= seq![s]);
    } else {
        assert(s =~= Seq::<char>::empty());
        assert(split(s, c) =~= seq![s]);
    }
}

/// No piece holds the separator.
pub proof fn lemma_split_pieces(s: Seq<char>, c: char)
    ensures
        forall|i: int| 0 <= i < split(s, c).len() ==> !(#[trigger] split(s, c)[i]).contains(c),
    decreases s.len(),
{
    if s.len() > 0 {
        lemma_split_pieces(s.drop_last(), c);
        lemma_split_nonempty(s.drop_last(), c);
        let f = split(s.drop_last(), c);
        assert forall|i: int| 0 <= i < split(s, c).len() implies !(#[trigger] split(s, c)[i]).contains(c) by {
            if s.last() == c {
                if i < f.len() {
                    assert(split(s, c)[i] == f[i]);
                }
            } else if i < f.len() - 1 {
                assert(split(s, c)[i] == f[i]);
            } else {
                assert(split(s, c)[i] == f.last().push(s.last()));
                assert(!f[f.len() - 1].contains(c));
                assert forall|k: int| 0 <= k < f.last().push(s.last()).len() implies f.last().push(
                    s.last(),
                )[k] != c by {
                    if k < f.last().len() {
                        assert(f.last()[k] == f.last().push(s.last())[k]);
                    }
                }
            }
        }
    }
}

/// Splitting undoes joining, if no piece holds the separator.
pub proof fn lemma_split_join(pieces: Seq<Seq<char>>, c: char)
    requires
        pieces.len() > 0,
        forall|i: int| 0 <= i < pieces.len() ==> !(#[trigger] pieces[i]).contains(c),
    ensures
        split(join(pieces, c), c) == pieces,
    decreases pieces.len(),
{
    if pieces.len() == 1 {
        lemma_split_whole(pieces[0], c);
        assert(pieces =~= seq![pieces[0]]);
    } else {
        assert forall|i: int| 0 <= i < pieces.drop_last().len() implies !(#[trigger] pieces.drop_last()[i]).contains(
            c,
        ) by {
            assert(pieces.drop_last()[i] == pieces[i]);
        }
        lemma_split_join(pieces.drop_last(), c);
        lemma_split_concat(join(pieces.drop_last(), c), pieces.last(), c);
        assert(!pieces[pieces.len() - 1].contains(c));
        lemma_split_whole(pieces.last(), c);
        assert(pieces.drop_last() + seq![pieces.last()] =~= pieces);
    }
}

/// Joining undoes splitting.
pub proof fn lemma_join_split(s: Seq<char>, c: char)
    ensures
        join(split(s, c), c) == s,
    decreases s.len(),
{
    if s.len() == 0 {
        assert(join(split(s, c), c) =~= s);
    } else {
        lemma_join_split(s.drop_last(), c);
        lemma_split_nonempty(s.drop_last(), c);
        let f = split(s.drop_last(), c);
        let g = split(s, c);
        assert(s.drop_last().push(s.last()) =~= s);
        if s.last() == c {
            assert(g.drop_last() =~= f);
            assert(join(g, c) =~= s);
        } else if f.len() == 1 {
            assert(g.len() == 1);
            assert(join(g, c) =~= s);
        } else {
            assert(g.drop_last() =~= f.drop_last());
            assert(join(f, c) == join(f.drop_last(), c).push(c) + f.last());
            assert(join(g, c) =~= s);
        }
    }
}

/// Pieces of two lists are joined one list after the other.
pub proof fn lemma_join_lists(a: Seq<Seq<char>>, b: Seq<Seq<char>>, c: char)
    requires
        a.len() > 0,
        b.len() > 0,
    ensures
        join(a + b, c) == join(a, c).push(c) + join(b, c),
    decreases b.len(),
{
    let ab = a + b;
    assert(ab.last() == b.last());
    assert(ab.drop_last() =~= a + b.drop_last());
    if b.len() == 1 {
        assert(a + b.drop_last() =~= a);
        assert(join(b, c) == b.last());
    } else {
        lemma_join_lists(a, b.drop_last(), c);
        assert(join(ab, c) =~= join(a, c).push(c) + join(b, c));
    }
}

pub proof fn lemma_texts_push(v: Seq<String>, s: String)
    ensures
        texts(v.push(s)) == texts(v).push(s@),
{
    assert(texts(v.push(s)) =~= texts(v).push(s@));
}

// ---------------------------------------------------------------------------
// The operations
// ---------------------------------------------------------------------------

/// `String::push` adds one character at the end.
pub assume_specification[ String::push ](s: &mut String, c: char)
    ensures
        final(s)@ == old(s)@.push(c),
;

/// `str::to_lowercase`. The result is a function of the text; on ASCII text it lowers the
/// letters `A` to `Z` and keeps the rest. The Unicode tables behind the rest are not stated.
#[verifier::external_body]
pub(crate) fn lower(s: &str) -> (r: String)
    ensures
        r@ == lowercase(s@),
        is_ascii_chars(s@) ==> r@ == ascii_lowered(s@),
{
    s.to_lowercase()
}

/// `String::from_utf8_lossy`. Valid UTF-8 is decoded; what stands in place of the invalid
/// parts of other bytes is named, not spelled out.
#[verifier::external_body]
pub(crate) fn from_lossy(bytes: &[u8]) -> (r: String)
    ensures
        r@ == lossy(bytes@),
        valid_utf8(bytes@) ==> r@ == decode_utf8(bytes@),
{
    String::from_utf8_lossy(bytes).into_owned()
}

/// `String::from_utf8`: the text that valid UTF-8 encodes, and nothing for other bytes.
#[verifier::external_body]
pub(crate) fn from_utf8(bytes: Vec<u8>) -> (r: Option<String>)
    ensures
        r is Some <==> valid_utf8(bytes@),
        r matches Some(s) ==> s@ == decode_utf8(bytes@),
{
    String::from_utf8(bytes).ok()
}

/// The characters of `s`, in order.
pub fn to_chars(s: &str) -> (cs: Vec<char>)
    ensures
        cs@ == s@,
{
    let mut cs: Vec<char> = Vec::new();
    for c in it: s.chars()
        invariant
            cs@ == it.seq().take(it.index() as int),
            it.seq() == s@,
    {
        cs.push(c);
    }
    cs
}

/// The characters `from..to` of `cs` as text.
pub fn slice_text(cs: &Vec<char>, from: usize, to: usize) -> (s: String)
    requires
        from <= to <= cs@.len(),
    ensures
        s@ == cs@.subrange(from as int, to as int),
{
    let mut s = String::new();
    let mut i: usize = from;
    while i < to
        invariant
            from <= i <= to <= cs@.len(),
            s@ == cs@.subrange(from as int, i as int),
        decreases to - i,
    {
        s.push(cs[i]);
        i = i + 1;
        assert(cs@.subrange(from as int, i as int) =~= cs@.subrange(from as int, i - 1).push(cs@[i - 1]));
    }
    s
}

/// Whether two texts are the same.
pub fn same(a: &str, b: &str) -> (r: bool)
    ensures
        r == (a@ == b@),
{
    let x: String = a.to_owned();
    let y: String = b.to_owned();
    x == y
}

/// `s` with its ASCII letters in lower case.
pub open spec fn ascii_lowered(s: Seq<char>) -> Seq<char> {
    s.map_values(|c: char| ascii_lower(c))
}

/// `c` in lower case if it is an ASCII letter.
fn lower_char(c: char) -> (r: char)
    ensures
        r == ascii_lower(c),
{
    if 'A' <= c && c <= 'Z' {
        (c as u8 + 32) as char
    } else {
        c
    }
}

/// Whether two texts are the same, ASCII letters in upper and lower case being the same.
pub fn same_ignoring_case(a: &str, b: &str) -> (r: bool)
    ensures
        r == (ascii_lowered(a@) == ascii_lowered(b@)),
{
    let x = to_chars(a);
    let y = to_chars(b);
    if x.len() != y.len() {
        assert(ascii_lowered(a@).len() != ascii_lowered(b@).len());
        return false;
    }
    let mut i: usize = 0;
    while i < x.len()
        invariant
            i <= x@.len(),
            x@ == a@,
            y@ == b@,
            x@.len() == y@.len(),
            forall|j: int| 0 <= j < i ==> ascii_lower(x@[j]) == ascii_lower(y@[j]),
        decreases x.len() - i,
    {
        if lower_char(x[i]) != lower_char(y[i]) {
            assert(ascii_lowered(a@)[i as int] != ascii_lowered(b@)[i as int]);
            return false;
        }
        i = i + 1;
    }
    assert(ascii_lowered(a@) =~= ascii_lowered(b@));
    true
}

/// `a` followed by `b`.
pub fn cat(a: &str, b: &str) -> (s: String)
    ensures
        s@ == a@ + b@,
{
    let mut s: String = a.to_owned();
    s.append(b);
    s
}

/// `a`, `b` and `c`, one after the other.
pub fn cat3(a: &str, b: &str, c: &str) -> (s: String)
    ensures
        s@ == a@ + b@ + c@,
{
    let mut s: String = a.to_owned();
    s.append(b);
    s.append(c);
    s
}

/// Whether `s` starts with `p`.
pub fn starts_with(s: &str, p: &str) -> (r: bool)
    ensures
        r == p@.is_prefix_of(s@),
{
    let a = to_chars(s);
    let b = to_chars(p);
    if b.len() > a.len() {
        return false;
    }
    let mut i: usize = 0;
    while i < b.len()
        invariant
            i <= b@.len() <= a@.len(),
            a@ == s@,
            b@ == p@,
            forall|j: int| 0 <= j < i ==> a@[j] == b@[j],
        decreases b.len() - i,
    {
        if a[i] != b[i] {
            assert(a@.subrange(0, b@.len() as int)[i as int] != b@[i as int]);
            return false;
        }
        i = i + 1;
    }
    assert(a@.subrange(0, b@.len() as int) =~= b@);
    true
}

/// Whether `s` ends with `p`.
pub fn ends_with(s: &str, p: &str) -> (r: bool)
    ensures
        r == p@.is_suffix_of(s@),
{
    let a = to_chars(s);
    let b = to_chars(p);
    if b.len() > a.len() {
        return false;
    }
    let k: usize = a.len() - b.len();
    let mut i: usize = 0;
    while i < b.len()
        invariant
            i <= b@.len() <= a@.len(),
            k == a.len() - b@.len(),
            a@ == s@,
            b@ == p@,
            forall|j: int| 0 <= j < i ==> a@[k + j] == b@[j],
        decreases b.len() - i,
    {
        if a[k + i] != b[i] {
            assert(a@.subrange(k as int, a@.len() as int)[i as int] != b@[i as int]);
            return false;
        }
        i = i + 1;
    }
    assert(a@.subrange(k as int, a@.len() as int) =~= b@);
    true
}

/// Whether `p` stands in `a` at position `k`.
fn stands_at(a: &Vec<char>, p: &Vec<char>, k: usize) -> (r: bool)
    requires
        k <= a@.len(),
    ensures
        r == occurs_at(a@, p@, k as int),
{
    if p.len() > a.len() - k {
        return false;
    }
    let mut i: usize = 0;
    while i < p.len()
        invariant
            i <= p@.len(),
            k + p@.len() <= a.len(),
            forall|j: int| 0 <= j < i ==> a@[k + j] == p@[j],
        decreases p.len() - i,
    {
        if a[k + i] != p[i] {
            assert(a@.subrange(k as int, k + p@.len())[i as int] != p@[i as int]);
            return false;
        }
        i = i + 1;
    }
    assert(a@.subrange(k as int, k + p@.len()) =~= p@);
    true
}

pub proof fn lemma_first_once(s: Seq<char>, p: Seq<char>, i: int)
    requires
        first_at(s, p, i),
    ensures
        position(s, p) == i,
{
    let j = position(s, p);
    assert(first_at(s, p, j));
    assert(occurs_at(s, p, i) && occurs_at(s, p, j));
}

/// The position of the first `p` in `s`, counted in characters.
pub fn find(s: &str, p: &str) -> (r: Option<usize>)
    ensures
        r is Some <==> occurs(s@, p@),
        r matches Some(i) ==> first_at(s@, p@, i as int) && i == position(s@, p@),
{
    let a = to_chars(s);
    let b = to_chars(p);
    let mut i: usize = 0;
    while i < a.len()
        invariant
            i <= a@.len(),
            a@ == s@,
            b@ == p@,
            forall|j: int| 0 <= j < i ==> !occurs_at(s@, p@, j),
        decreases a.len() - i,
    {
        if stands_at(&a, &b, i) {
            proof {
                lemma_first_once(s@, p@, i as int);
            }
            return Some(i);
        }
        i = i + 1;
    }
    if stands_at(&a, &b, i) {
        proof {
            lemma_first_once(s@, p@, i as int);
        }
        return Some(i);
    }
    None
}

/// Whether `p` stands somewhere in `s`.
pub fn contains(s: &str, p: &str) -> (r: bool)
    ensures
        r == occurs(s@, p@),
{
    find(s, p).is_some()
}

/// `s` without its leading `c`s.
pub fn trim_start_char(s: &str, c: char) -> (r: String)
    ensures
        r@ == trim_start(s@, c),
{
    let a = to_chars(s);
    let mut i: usize = 0;
    while i < a.len() && a[i] == c
        invariant
            i <= a@.len(),
            forall|j: int| 0 <= j < i ==> a@[j] == c,
        decreases a.len() - i,
    {
        i = i + 1;
    }
    proof {
        lemma_lead(a@, equals(c), i as nat);
        assert(a@.subrange(i as int, a@.len() as int) =~= a@.skip(i as int));
    }
    slice_text(&a, i, a.len())
}

/// `s` without its trailing `c`s.
pub fn trim_end_char(s: &str, c: char) -> (r: String)
    ensures
        r@ == trim_end(s@, c),
{
    let a = to_chars(s);
    let mut n: usize = a.len();
    while n > 0 && a[n - 1] == c
        invariant
            n <= a@.len(),
            forall|j: int| n <= j < a@.len() ==> a@[j] == c,
        decreases n,
    {
        n = n - 1;
    }
    proof {
        lemma_trail(a@, equals(c), (a@.len() - n) as nat);
        assert(a@.subrange(0, n as int) =~= a@.take(n as int));
    }
    slice_text(&a, 0, n)
}

/// Whether `c` is white space.
pub fn is_white(c: char) -> (r: bool)
    ensures
        r == white(c),
{
    ('\u{9}' <= c && c <= '\u{d}') || c == ' ' || c == '\u{85}' || c == '\u{a0}' || c == '\u{1680}'
        || ('\u{2000}' <= c && c <= '\u{200a}') || c == '\u{2028}' || c == '\u{2029}' || c
        == '\u{202f}' || c == '\u{205f}' || c == '\u{3000}'
}

/// `s` without the white space at its two ends.
pub fn trim(s: &str) -> (r: String)
    ensures
        r@ == trimmed(s@),
{
    let a = to_chars(s);
    let mut i: usize = 0;
    while i < a.len() && is_white(a[i])
        invariant
            i <= a@.len(),
            forall|j: int| 0 <= j < i ==> white(#[trigger] a@[j]),
        decreases a.len() - i,
    {
        i = i + 1;
    }
    let mut n: usize = a.len();
    while n > i && is_white(a[n - 1])
        invariant
            i <= n <= a@.len(),
            forall|j: int| n <= j < a@.len() ==> white(#[trigger] a@[j]),
        decreases n,
    {
        n = n - 1;
    }
    proof {
        let p = |x: char| white(x);
        lemma_lead(a@, p, i as nat);
        let t = a@.skip(i as int);
        assert forall|j: int| t.len() - (a@.len() - n) <= j < t.len() implies p(#[trigger] t[j]) by {
            assert(t[j] == a@[i + j]);
        }
        lemma_trail(t, p, (a@.len() - n) as nat);
        assert(a@.subrange(i as int, n as int) =~= t.take(n - i));
    }
    slice_text(&a, i, n)
}

/// The pieces of `s` between the occurrences of `c`.
pub fn split_on(s: &str, c: char) -> (r: Vec<String>)
    ensures
        texts(r@) == split(s@, c),
        r@.len() > 0,
{
    let a = to_chars(s);
    let mut out: Vec<String> = Vec::new();
    let mut cur: String = String::new();
    let mut i: usize = 0;
    proof {
        assert(a@.take(0) =~= Seq::<char>::empty());
        assert(texts(out@).push(cur@) =~= split(a@.take(0), c));
    }
    while i < a.len()
        invariant
            i <= a@.len(),
            texts(out@).push(cur@) == split(a@.take(i as int), c),
        decreases a.len() - i,
    {
        let x: char = a[i];
        proof {
            assert(a@.take(i + 1).drop_last() =~= a@.take(i as int));
            assert(texts(out@).push(cur@).drop_last() =~= texts(out@));
            lemma_texts_push(out@, cur);
        }
        if x == c {
            out.push(cur);
            cur = String::new();
        } else {
            cur.push(x);
        }
        i = i + 1;
        assert(texts(out@).push(cur@) =~= split(a@.take(i as int), c));
    }
    proof {
        assert(a@.take(a@.len() as int) =~= a@);
        lemma_texts_push(out@, cur);
    }
    out.push(cur);
    out
}

/// The pieces with `c` between neighbours.
pub fn join_with(pieces: &Vec<String>, c: char) -> (s: String)
    ensures
        s@ == join(texts(pieces@), c),
{
    let mut s: String = String::new();
    let mut i: usize = 0;
    while i < pieces.len()
        invariant
            i <= pieces@.len(),
            s@ == join(texts(pieces@).take(i as int), c),
        decreases pieces.len() - i,
    {
        proof {
            let t = texts(pieces@);
            assert(t.take(i + 1).drop_last() =~= t.take(i as int));
            assert(t.take(i + 1).last() == pieces@[i as int]@);
        }
        if i > 0 {
            s.push(c);
        }
        s.append(pieces[i].as_str());
        i = i + 1;
        assert(s@ =~= join(texts(pieces@).take(i as int), c));
    }
    assert(texts(pieces@).take(pieces@.len() as int) =~= texts(pieces@));
    s
}

/// What stands before and after the first `c` of `s`.
pub fn split_once(s: &str, c: char) -> (r: Option<(String, String)>)
    ensures
        match cut(s@, c) {
            Some((a, b)) => r matches Some((x, y)) && x@ == a && y@ == b,
            None => r is None,
        },
{
    let a = to_chars(s);
    let mut i: usize = 0;
    while i < a.len() && a[i] != c
        invariant
            i <= a@.len(),
            forall|j: int| 0 <= j < i ==> a@[j] != c,
        decreases a.len() - i,
    {
        i = i + 1;
    }
    proof {
        lemma_lead(a@, differs(c), i as nat);
    }
    if i < a.len() {
        proof {
            assert(a@.subrange(0, i as int) =~= a@.take(i as int));
            assert(a@.subrange(i + 1, a@.len() as int) =~= a@.skip(i + 1));
        }
        Some((slice_text(&a, 0, i), slice_text(&a, i + 1, a.len())))
    } else {
        None
    }
}

/// `s` with `p` taken off its start as often as it stands there.
pub fn strip_all_prefix(s: &str, p: &str) -> (r: String)
    ensures
        r@ == strip_all(s@, p@),
{
    let a = to_chars(s);
    let b = to_chars(p);
    if b.len() == 0 {
        return s.to_owned();
    }
    let mut i: usize = 0;
    assert(a@.skip(0) =~= a@);
    while stands_at(&a, &b, i)
        invariant
            i <= a@.len(),
            b@.len() > 0,
            strip_all(a@, b@) == strip_all(a@.skip(i as int), b@),
        decreases a.len() - i,
    {
        proof {
            let t = a@.skip(i as int);
            assert(t.subrange(0, b@.len() as int) =~= a@.subrange(i as int, i + b@.len()));
            assert(b@.is_prefix_of(t));
            assert(t.skip(b@.len() as int) =~= a@.skip(i + b@.len()));
        }
        i = i + b.len();
    }
    proof {
        let t = a@.skip(i as int);
        if b@.is_prefix_of(t) {
            assert(t.subrange(0, b@.len() as int) =~= a@.subrange(i as int, i + b@.len()));
            assert(occurs_at(a@, b@, i as int));
        }
        assert(a@.subrange(i as int, a@.len() as int) =~= t);
    }
    slice_text(&a, i, a.len())
}

/// `s` with every `a` turned into `b`.
pub fn replace_char(s: &str, a: char, b: char) -> (r: String)
    ensures
        r@ == swapped(s@, a, b),
{
    let cs = to_chars(s);
    let mut r: String = String::new();
    let mut i: usize = 0;
    while i < cs.len()
        invariant
            i <= cs@.len(),
            r@ == swapped(cs@.take(i as int), a, b),
        decreases cs.len() - i,
    {
        let c: char = cs[i];
        if c == a {
            r.push(b);
        } else {
            r.push(c);
        }
        i = i + 1;
        assert(r@ =~= swapped(cs@.take(i as int), a, b));
    }
    assert(cs@.take(cs@.len() as int) =~= cs@);
    r
}

/// The character for a decimal digit.
fn digit_char(d: u64) -> (c: char)
    requires
        d < 10,
    ensures
        c == digit(d as nat),
{
    if d == 0 {
        '0'
    } else if d == 1 {
        '1'
    } else if d == 2 {
        '2'
    } else if d == 3 {
        '3'
    } else if d == 4 {
        '4'
    } else if d == 5 {
        '5'
    } else if d == 6 {
        '6'
    } else if d == 7 {
        '7'
    } else if d == 8 {
        '8'
    } else {
        '9'
    }
}

/// The decimal digits of `n`.
pub fn decimal(n: u64) -> (s: String)
    ensures
        s@ == digits(n as nat),
    decreases n,
{
    if n < 10 {
        let mut s: String = String::new();
        s.push(digit_char(n));
        assert(s@ =~= digits(n as nat));
        s
    } else {
        let mut s: String = decimal(n / 10);
        s.push(digit_char(n % 10));
        s
    }
}

/// The decimal digits of `n`, behind a minus sign if it is negative.
pub fn signed_decimal(n: i128) -> (s: String)
    requires
        -u64::MAX <= n <= u64::MAX,
    ensures
        s@ == signed_digits(n as int),
{
    if n < 0 {
        let mut s: String = String::new();
        s.push('-');
        s.append(decimal((-n) as u64).as_str());
        assert(s@ =~= signed_digits(n as int));
        s
    } else {
        decimal(n as u64)
    }
}

/// The decimal digits of `n`, at least two of them.
pub fn decimal2(n: u64) -> (s: String)
    ensures
        s@ == digits2(n as nat),
{
    if n < 10 {
        let mut s: String = String::new();
        s.push('0');
        let d: String = decimal(n);
        s.append(d.as_str());
        assert(s@ =~= digits2(n as nat));
        s
    } else {
        decimal(n)
    }
}

// ---------------------------------------------------------------------------
// Laws
// ---------------------------------------------------------------------------

/// The number that decimal digits write.
pub open spec fn number(s: Seq<char>) -> int
    decreases s.len(),
{
    if s.len() == 0 {
        0
    } else {
        10 * number(s.drop_last()) + (s.last() as u32 - '0' as u32)
    }
}

/// The digits of a number write that number, are all digits, and start with a zero only if there is no
/// other.
pub proof fn law_digits_write_their_number(n: nat)
    ensures
        number(digits(n)) == n,
        digits(n).len() > 0,
        forall|i: int| 0 <= i < digits(n).len() ==> '0' <= #[trigger] digits(n)[i] <= '9',
        digits(n)[0] == '0' ==> n == 0,
        n < 10 <==> digits(n).len() == 1,
    decreases n,
{
    let s = digits(n);
    if n < 10 {
        assert(s.drop_last() =~= Seq::<char>::empty());
        assert(number(s.drop_last()) == 0);
    } else {
        law_digits_write_their_number(n / 10);
        assert(s.drop_last() =~= digits(n / 10));
        assert(s.last() == digit(n % 10));
        assert(s[0] == digits(n / 10)[0]);
    }
}

/// Two digits write a number below a hundred.
pub proof fn law_two_digits_write_their_number(n: nat)
    requires
        n < 100,
    ensures
        digits2(n).len() == 2,
        number(digits2(n)) == n,
        '0' <= digits2(n)[0] <= '9',
        '0' <= digits2(n)[1] <= '9',
{
    reveal_with_fuel(digits, 2);
    reveal_with_fuel(number, 3);
    let s = digits2(n);
    if n < 10 {
        assert(s =~= seq!['0', digit(n)]);
        assert(s.drop_last() =~= seq!['0']);
        assert(seq!['0'].drop_last() =~= Seq::<char>::empty());
    } else {
        assert(s =~= seq![digit(n / 10), digit(n % 10)]);
        assert(s.drop_last() =~= seq![digit(n / 10)]);
        assert(seq![digit(n / 10)].drop_last() =~= Seq::<char>::empty());
    }
}

/// A negative number is written as its opposite behind a minus sign.
pub proof fn law_minus_sign(n: nat)
    ensures
        signed_digits(n as int) == digits(n),
        n > 0 ==> signed_digits(-n) == seq!['-'] + digits(n),
{
}

/// A text is cut at the first occurrence, which neither part keeps; it cannot be cut exactly if there is
/// none.
pub proof fn law_cut_at_the_first(a: Seq<char>, b: Seq<char>, c: char)
    requires
        !a.contains(c),
    ensures
        cut(a + seq![c] + b, c) == Some((a, b)),
        cut(a, c) is None,
{
    let s = a + seq![c] + b;
    assert forall|j: int| 0 <= j < a.len() implies differs(c)(#[trigger] s[j]) by {
        assert(s[j] == a[j]);
    }
    assert(s[a.len() as int] == c);
    lemma_lead(s, differs(c), a.len());
    assert(s.take(a.len() as int) =~= a);
    assert(s.skip(a.len() as int + 1) =~= b);
    assert forall|j: int| 0 <= j < a.len() implies differs(c)(#[trigger] a[j]) by {
        assert(a.contains(a[j]));
    }
    lemma_lead(a, differs(c), a.len());
}

/// White space around a text is taken off, and nothing else.
pub proof fn law_trimming_takes_white_space(a: Seq<char>, s: Seq<char>, b: Seq<char>)
    requires
        forall|i: int| 0 <= i < a.len() ==> white(#[trigger] a[i]),
        forall|i: int| 0 <= i < b.len() ==> white(#[trigger] b[i]),
        s.len() > 0 ==> !white(s[0]) && !white(s.last()),
    ensures
        trimmed(a + s + b) == s,
{
    let p = |x: char| white(x);
    let t = a + s + b;
    if s.len() > 0 {
        let n = a.len();
        assert forall|j: int| 0 <= j < n implies p(#[trigger] t[j]) by {
            assert(t[j] == a[j]);
        }
        assert(t[n as int] == s[0]);
        lemma_lead(t, p, n);
        let u = t.skip(n as int);
        assert(u =~= s + b);
        let m = b.len();
        assert forall|j: int| u.len() - m <= j < u.len() implies p(#[trigger] u[j]) by {
            assert(u[j] == b[j - s.len()]);
        }
        assert(u[u.len() - m - 1] == s.last());
        lemma_trail(u, p, m);
        assert(u.take(u.len() - m) =~= s);
    } else {
        let n = t.len();
        assert forall|j: int| 0 <= j < n implies p(#[trigger] t[j]) by {
            if j < a.len() {
                assert(t[j] == a[j]);
            } else {
                assert(t[j] == b[j - a.len()]);
            }
        }
        lemma_lead(t, p, n);
        let u = t.skip(n as int);
        assert(u.len() == 0);
        assert(u.take(0) =~= s);
    }
}

/// Of ASCII, white space is the blank and what lies between the tabulator and the carriage return.
pub proof fn law_white_space_of_ascii(c: char)
    requires
        (c as u32) < 128,
    ensures
        white(c) <==> c == ' ' || c == '\t' || c == '\n' || c == '\r' || c as u32 == 11 || c as u32 == 12,
{
}

/// A character is taken off the end, or the start, of a text as often as it stands there, and nothing else.
pub proof fn law_trimming_a_character(s: Seq<char>, c: char)
    ensures
        trim_end(s.push(c), c) == trim_end(s, c),
        s.len() > 0 && s.last() != c ==> trim_end(s, c) == s,
        trim_start(seq![c] + s, c) == trim_start(s, c),
        s.len() > 0 && s[0] != c ==> trim_start(s, c) == s,
{
    let p = equals(c);
    let t = s.push(c);
    assert(t.last() == c);
    assert(t.drop_last() =~= s);
    lemma_trail_bound(s, p);
    assert(trail(t, p) == 1 + trail(s, p));
    assert(trim_end(t, c) =~= trim_end(s, c));
    let u = seq![c] + s;
    assert(u[0] == c);
    assert(u.drop_first() =~= s);
    lemma_lead_is(s, p);
    assert(lead(u, p) == 1 + lead(s, p));
    assert(trim_start(u, c) =~= trim_start(s, c));
    if s.len() > 0 && s.last() != c {
        assert(trim_end(s, c) =~= s);
    }
    if s.len() > 0 && s[0] != c {
        assert(trim_start(s, c) =~= s);
    }
}

/// A text is taken off the start of another as often as it stands there.
pub proof fn law_stripping_goes_on(s: Seq<char>, p: Seq<char>)
    requires
        p.len() > 0,
    ensures
        strip_all(p + s, p) == strip_all(s, p),
        !p.is_prefix_of(s) ==> strip_all(s, p) == s,
        !p.is_prefix_of(strip_all(s, p)),
    decreases s.len(),
{
    let t = p + s;
    assert(t.subrange(0, p.len() as int) =~= p);
    assert(t.skip(p.len() as int) =~= s);
    if p.is_prefix_of(s) {
        law_stripping_goes_on(s.skip(p.len() as int), p);
    }
}

/// One character is put in the place of another wherever that stands, and all else stays.
pub proof fn law_swapping_is_everywhere(s: Seq<char>, a: char, b: char, i: int)
    requires
        0 <= i < s.len(),
    ensures
        swapped(s, a, b).len() == s.len(),
        s[i] == a ==> swapped(s, a, b)[i] == b,
        s[i] != a ==> swapped(s, a, b)[i] == s[i],
{
}

/// The capital letters of ASCII become the small ones at the same place of the alphabet, and all else stays.
pub proof fn law_capitals_become_small(c: char)
    ensures
        'A' <= c <= 'Z' ==> 'a' <= ascii_lower(c) <= 'z' && ascii_lower(c) as u32 - 'a' as u32 == c as u32
            - 'A' as u32,
        !('A' <= c <= 'Z') ==> ascii_lower(c) == c,
{
}

/// A text in lower case is as long as it was and stays as it is in lower case again, if it is ASCII.
pub proof fn law_lower_case_is_stable(s: Seq<char>)
    requires
        is_ascii_chars(s),
    ensures
        lowered(s).len() == s.len(),
        lowered(lowered(s)) == lowered(s),
        forall|i: int| 0 <= i < s.len() ==> #[trigger] lowered(s)[i] == ascii_lower(s[i]),
{
    let l = lowered(s);
    assert(is_ascii_chars(l)) by {
        assert forall|i: int| 0 <= i < l.len() implies '\0' <= #[trigger] l[i] <= '\u{7f}' by {
            assert('\0' <= s[i] <= '\u{7f}');
        }
    }
    assert(lowered(l) =~= l);
}

/// The code points with the Unicode property `White_Space`.
pub open spec fn white_points() -> Seq<u32> {
    seq![
        0x9, 0xa, 0xb, 0xc, 0xd, 0x20, 0x85, 0xa0, 0x1680, 0x2000, 0x2001, 0x2002, 0x2003,
        0x2004, 0x2005, 0x2006, 0x2007, 0x2008, 0x2009, 0x200a, 0x2028, 0x2029, 0x202f, 0x205f, 0x3000,
    ]
}

/// White space is what Unicode calls so.
pub proof fn law_white_space_of_unicode(c: char)
    ensures
        white(c) <==> white_points().contains(c as u32),
{
    let p = white_points();
    assert(p[0] == 0x9);
    assert(p[1] == 0xa);
    assert(p[2] == 0xb);
    assert(p[3] == 0xc);
    assert(p[4] == 0xd);
    assert(p[5] == 0x20);
    assert(p[6] == 0x85);
    assert(p[7] == 0xa0);
    assert(p[8] == 0x1680);
    assert(p[9] == 0x2000);
    assert(p[10] == 0x2001);
    assert(p[11] == 0x2002);
    assert(p[12] == 0x2003);
    assert(p[13] == 0x2004);
    assert(p[14] == 0x2005);
    assert(p[15] == 0x2006);
    assert(p[16] == 0x2007);
    assert(p[17] == 0x2008);
    assert(p[18] == 0x2009);
    assert(p[19] == 0x200a);
    assert(p[20] == 0x2028);
    assert(p[21] == 0x2029);
    assert(p[22] == 0x202f);
    assert(p[23] == 0x205f);
    assert(p[24] == 0x3000);
    assert(p.len() == 25);
    if p.contains(c as u32) {
        let i = choose|i: int| 0 <= i < p.len() && p[i] == c as u32;
        assert(white(c));
    }
}

/// A list of strings is seen as their texts, each at its position.
pub proof fn law_texts_are_seen(v: Seq<String>, o: Option<String>, i: int)
    ensures
        texts(v).len() == v.len(),
        0 <= i < v.len() ==> texts(v)[i] == v[i]@,
        o matches Some(s) ==> opt_text(o) == Some(s@),
        o is None ==> opt_text(o) is None,
{
}

/// The bytes of a text are read as that text.
pub proof fn law_text_is_readable(text: Seq<char>)
    ensures
        readable(encode_utf8(text)) == text,
{
    encode_utf8_valid_utf8(text);
    encode_utf8_decode_utf8(text);
}

} // verus!
