//! The configuration file: where the server listens.

use vstd::prelude::*;
use vstd::utf8::is_ascii_chars;

use crate::text::{
    ascii_lowered, cat3, cut, differs, find, first_at, law_cut_at_the_first, lemma_first_once,
    lemma_lead, lemma_split_concat, lemma_split_whole, lemma_trimmed_whole, lower, lowered, occurs,
    occurs_at, position, same, slice_text, split, split_on, split_once, texts, to_chars, trim,
    trimmed,
};

verus! {

/// The configuration file that is written where there is none.
pub fn default_conf() -> (r: &'static str)
    ensures
        r@ == "[server]\nhost=0.0.0.0\nport=6677\n"@,
{
    "[server]\nhost=0.0.0.0\nport=6677\n"
}

/// What has been read so far: the section, and the address to listen on.
pub struct Conf {
    pub section: String,
    pub host: String,
    pub port: String,
}

/// What has been read so far, in terms of texts.
#[verifier::ext_equal]
pub struct ConfView {
    pub section: Seq<char>,
    pub host: Seq<char>,
    pub port: Seq<char>,
}

impl View for Conf {
    type V = ConfView;

    open spec fn view(&self) -> ConfView {
        ConfView { section: self.section@, host: self.host@, port: self.port@ }
    }
}

/// The address to listen on where the file says nothing.
pub open spec fn initial() -> ConfView {
    ConfView { section: Seq::<char>::empty(), host: "0.0.0.0"@, port: "6677"@ }
}

/// A line that says nothing.
pub open spec fn comment(l: Seq<char>) -> bool {
    l.len() == 0 || l[0] == '#' || l[0] == ';'
}

/// A line that starts a section.
pub open spec fn heading(l: Seq<char>) -> bool {
    l.len() > 1 && l[0] == '[' && l.last() == ']'
}

/// A value without the comment behind it, which starts with a blank and `#`.
pub open spec fn uncommented(v: Seq<char>) -> Seq<char> {
    if occurs(v, " #"@) {
        trimmed(v.take(position(v, " #"@)))
    } else {
        v
    }
}

/// What is known after one more line.
pub open spec fn read_line(c: ConfView, line: Seq<char>) -> ConfView {
    let l = trimmed(line);
    if comment(l) {
        c
    } else if heading(l) {
        ConfView { section: lowered(trimmed(l.subrange(1, l.len() - 1))), ..c }
    } else {
        match cut(l, '=') {
            Some((k, v)) => assign(c, trimmed(k), uncommented(trimmed(v))),
            None => c,
        }
    }
}

/// What is known after an assignment.
pub open spec fn assign(c: ConfView, key: Seq<char>, value: Seq<char>) -> ConfView {
    if c.section == "server"@ && key == "host"@ {
        ConfView { host: value, ..c }
    } else if c.section == "server"@ && key == "port"@ {
        ConfView { port: value, ..c }
    } else {
        c
    }
}

/// What is known after some lines.
pub open spec fn read_lines(lines: Seq<Seq<char>>) -> ConfView
    decreases lines.len(),
{
    if lines.len() == 0 {
        initial()
    } else {
        read_line(read_lines(lines.drop_last()), lines.last())
    }
}

/// A value without the comment behind it.
fn uncomment(v: String) -> (r: String)
    ensures
        r@ == uncommented(v@),
{
    match find(v.as_str(), " #") {
        Some(idx) => {
            let cs = to_chars(v.as_str());
            proof {
                assert(cs@.subrange(0, idx as int) =~= v@.take(idx as int));
            }
            trim(slice_text(&cs, 0, idx).as_str())
        },
        None => v,
    }
}

/// What is known after one more line.
fn read_one(c: Conf, line: &str) -> (r: Conf)
    ensures
        r@ == read_line(c@, line@),
{
    let l = trim(line);
    let cs = to_chars(l.as_str());
    let n: usize = cs.len();
    if n == 0 || cs[0] == '#' || cs[0] == ';' {
        return c;
    }
    if n > 1 && cs[0] == '[' && cs[n - 1] == ']' {
        let section = lower(trim(slice_text(&cs, 1, n - 1).as_str()).as_str());
        return Conf { section, host: c.host, port: c.port };
    }
    match split_once(l.as_str(), '=') {
        Some((k, v)) => {
            let key = trim(k.as_str());
            let value = uncomment(trim(v.as_str()));
            let server = same(c.section.as_str(), "server");
            if server && same(key.as_str(), "host") {
                Conf { section: c.section, host: value, port: c.port }
            } else if server && same(key.as_str(), "port") {
                Conf { section: c.section, host: c.host, port: value }
            } else {
                c
            }
        },
        None => c,
    }
}

/// The host and the port that a configuration file names, one line after the other; the last word
/// on each counts.
pub fn load_conf(text: &str) -> (r: (String, String))
    ensures
        r.0@ == read_lines(split(text@, '\n')).host,
        r.1@ == read_lines(split(text@, '\n')).port,
{
    let lines = split_on(text, '\n');
    let ghost ls = texts(lines@);
    let mut c = Conf {
        section: String::new(),
        host: "0.0.0.0".to_owned(),
        port: "6677".to_owned(),
    };
    let mut i: usize = 0;
    assert(c@ =~= read_lines(ls.take(0)));
    while i < lines.len()
        invariant
            i <= lines@.len(),
            ls == texts(lines@),
            c@ == read_lines(ls.take(i as int)),
        decreases lines.len() - i,
    {
        proof {
            assert(ls.take(i + 1).drop_last() =~= ls.take(i as int));
            assert(ls.take(i + 1).last() == lines@[i as int]@);
        }
        c = read_one(c, lines[i].as_str());
        i = i + 1;
    }
    assert(ls.take(ls.len() as int) =~= ls);
    (c.host, c.port)
}

/// The address to listen on.
pub open spec fn address(host: Seq<char>, port: Seq<char>) -> Seq<char> {
    host + ":"@ + port
}

/// The address to listen on.
pub fn listen_address(host: &str, port: &str) -> (r: String)
    ensures
        r@ == address(host@, port@),
        r@ == host@ + ":"@ + port@,
{
    cat3(host, ":", port)
}

/// A text that can be a value: on one line, without white space around it and without what would
/// start a comment.
pub open spec fn value_text(v: Seq<char>) -> bool {
    trimmed(v) == v && !v.contains('\n') && !occurs(v, " #"@)
}

/// A configuration file that names a host and a port.
pub open spec fn conf_text(host: Seq<char>, port: Seq<char>) -> Seq<char> {
    "[server]\nhost="@ + host + "\nport="@ + port + "\n"@
}

proof fn lemma_read_assignment(c: ConfView, key: Seq<char>, v: Seq<char>)
    requires
        key.len() > 0,
        trimmed(key) == key,
        !key.contains('='),
        key[0] != '#' && key[0] != ';' && key[0] != '[',
        value_text(v),
    ensures
        read_line(c, key.push('=') + v) == assign(c, key, v),
{
    let l = key.push('=') + v;
    lemma_trimmed_whole(key);
    lemma_trimmed_whole(v);
    assert(l[0] == key[0]);
    assert(l.last() == if v.len() == 0 {
        '='
    } else {
        v.last()
    });
    lemma_trimmed_whole(l);
    assert forall|j: int| 0 <= j < key.len() implies differs('=')(#[trigger] l[j]) by {
        assert(l[j] == key[j]);
    }
    assert(l[key.len() as int] == '=');
    lemma_lead(l, differs('='), key.len());
    assert(l.take(key.len() as int) =~= key);
    assert(l.skip(key.len() as int + 1) =~= v);
}

/// What a configuration file names as host and port is read back from it.
pub proof fn law_written_address_is_read(host: Seq<char>, port: Seq<char>)
    requires
        value_text(host),
        value_text(port),
    ensures
        read_lines(split(conf_text(host, port), '\n')).host == host,
        read_lines(split(conf_text(host, port), '\n')).port == port,
{
    let h = "[server]"@;
    let a = "host"@.push('=') + host;
    let b = "port"@.push('=') + port;
    let e = Seq::<char>::empty();
    reveal_strlit("[server]\nhost=");
    reveal_strlit("\nport=");
    reveal_strlit("\n");
    reveal_strlit("[server]");
    reveal_strlit("server");
    reveal_strlit("host");
    reveal_strlit("port");
    let rest = b.push('\n') + e;
    let tail = a.push('\n') + rest;
    assert(conf_text(host, port) =~= h.push('\n') + tail);
    assert(!a.contains('\n')) by {
        assert forall|i: int| 0 <= i < a.len() implies a[i] != '\n' by {
            if i >= 5 {
                assert(a[i] == host[i - 5]);
            }
        }
    }
    assert(!b.contains('\n')) by {
        assert forall|i: int| 0 <= i < b.len() implies b[i] != '\n' by {
            if i >= 5 {
                assert(b[i] == port[i - 5]);
            }
        }
    }
    lemma_split_concat(h, tail, '\n');
    lemma_split_concat(a, rest, '\n');
    lemma_split_concat(b, e, '\n');
    lemma_split_whole(h, '\n');
    lemma_split_whole(a, '\n');
    lemma_split_whole(b, '\n');
    let lines = split(conf_text(host, port), '\n');
    assert(lines =~= seq![h, a, b, e]);
    assert(lines.drop_last() =~= seq![h, a, b]);
    assert(lines.drop_last().drop_last() =~= seq![h, a]);
    assert(lines.drop_last().drop_last().drop_last() =~= seq![h]);
    assert(seq![h].drop_last() =~= Seq::<Seq<char>>::empty());
    reveal_with_fuel(read_lines, 5);
    let c = read_line(initial(), h);
    assert(c.section == "server"@) by {
        lemma_trimmed_whole(h);
        let name = h.subrange(1, h.len() - 1);
        assert(name =~= "server"@);
        lemma_trimmed_whole(name);
        assert(is_ascii_chars(name));
        assert(ascii_lowered(name) =~= name);
    }
    lemma_trimmed_whole("host"@);
    lemma_trimmed_whole("port"@);
    lemma_read_assignment(c, "host"@, host);
    lemma_read_assignment(assign(c, "host"@, host), "port"@, port);
    lemma_trimmed_whole(e);
}

/// The configuration file that is written where there is none says what stands without one.
pub proof fn law_default_conf_says_the_defaults()
    ensures
        read_lines(split("[server]\nhost=0.0.0.0\nport=6677\n"@, '\n')).host == initial().host,
        read_lines(split("[server]\nhost=0.0.0.0\nport=6677\n"@, '\n')).port == initial().port,
{
    reveal_strlit("[server]\nhost=0.0.0.0\nport=6677\n");
    reveal_strlit("[server]\nhost=");
    reveal_strlit("\nport=");
    reveal_strlit("\n");
    reveal_strlit("0.0.0.0");
    reveal_strlit("6677");
    reveal_strlit(" #");
    assert("[server]\nhost=0.0.0.0\nport=6677\n"@ =~= conf_text("0.0.0.0"@, "6677"@));
    lemma_trimmed_whole("0.0.0.0"@);
    lemma_trimmed_whole("6677"@);
    assert forall|i: int| !occurs_at("0.0.0.0"@, " #"@, i) by {
        if occurs_at("0.0.0.0"@, " #"@, i) {
            assert("0.0.0.0"@[i] == "0.0.0.0"@.subrange(i, i + 2)[0]);
        }
    }
    assert forall|i: int| !occurs_at("6677"@, " #"@, i) by {
        if occurs_at("6677"@, " #"@, i) {
            assert("6677"@[i] == "6677"@.subrange(i, i + 2)[0]);
        }
    }
    law_written_address_is_read("0.0.0.0"@, "6677"@);
}

/// Where the file says nothing of the server, the defaults stand.
pub proof fn law_silence_keeps_the_defaults(lines: Seq<Seq<char>>)
    requires
        forall|i: int| 0 <= i < lines.len() ==> comment(trimmed(#[trigger] lines[i])),
    ensures
        read_lines(lines) == initial(),
    decreases lines.len(),
{
    if lines.len() > 0 {
        assert forall|i: int| 0 <= i < lines.drop_last().len() implies comment(
            trimmed(#[trigger] lines.drop_last()[i]),
        ) by {
            assert(lines.drop_last()[i] == lines[i]);
        }
        law_silence_keeps_the_defaults(lines.drop_last());
        assert(comment(trimmed(lines[lines.len() - 1])));
    }
}

// ---------------------------------------------------------------------------
// Laws
// ---------------------------------------------------------------------------

/// Only the section of the server has a say on the address, and only a heading leads to another section: no
/// line does two things.
pub proof fn law_a_line_does_one_thing(c: ConfView, line: Seq<char>)
    ensures
        c.section != "server"@ ==> read_line(c, line).host == c.host && read_line(c, line).port == c.port,
        read_line(c, line).section != c.section ==> read_line(c, line).host == c.host && read_line(
            c,
            line,
        ).port == c.port && trimmed(line).len() >= 2 && trimmed(line)[0] == '[' && trimmed(line).last()
            == ']',
        read_line(c, line).host != c.host ==> read_line(c, line).port == c.port && read_line(
            c,
            line,
        ).section == c.section,
{
}

/// A line is read without the white space around it. One that is empty then, or starts with `#` or `;`, or
/// holds no `=` and is no heading, says nothing.
pub proof fn law_some_lines_say_nothing(c: ConfView, line: Seq<char>, other: Seq<char>)
    ensures
        trimmed(line) == trimmed(other) ==> read_line(c, line) == read_line(c, other),
        trimmed(line).len() == 0 ==> read_line(c, line) == c,
        trimmed(line).len() > 0 && (trimmed(line)[0] == '#' || trimmed(line)[0] == ';') ==> read_line(
            c,
            line,
        ) == c,
        !trimmed(line).contains('=') && !(trimmed(line).len() > 1 && trimmed(line)[0] == '[' && trimmed(
            line,
        ).last() == ']') ==> read_line(c, line) == c,
{
    if !trimmed(line).contains('=') {
        law_cut_at_the_first(trimmed(line), Seq::<char>::empty(), '=');
    }
}

/// A heading names the section, in capital letters as in small ones.
pub proof fn law_heading_names_the_section(c: ConfView, name: Seq<char>)
    requires
        is_ascii_chars(name),
        trimmed(name) == name,
    ensures
        read_line(c, seq!['['] + name + seq![']']) == (ConfView {
            section: ascii_lowered(name),
            host: c.host,
            port: c.port,
        }),
{
    let l = seq!['['] + name + seq![']'];
    assert(l[0] == '[' && l.last() == ']');
    lemma_trimmed_whole(l);
    assert(l.subrange(1, l.len() - 1) =~= name);
}

/// In the section of the server the host and the port are what was said last of each, whatever was said
/// before, and saying one leaves the other.
pub proof fn law_last_word_counts(lines: Seq<Seq<char>>, v: Seq<char>)
    requires
        read_lines(lines).section == "server"@,
        value_text(v),
    ensures
        read_lines(lines.push("host="@ + v)).host == v,
        read_lines(lines.push("host="@ + v)).port == read_lines(lines).port,
        read_lines(lines.push("port="@ + v)).port == v,
        read_lines(lines.push("port="@ + v)).host == read_lines(lines).host,
        read_lines(lines.push("host="@ + v)).section == "server"@,
        read_lines(lines.push("port="@ + v)).section == "server"@,
{
    reveal_strlit("host=");
    reveal_strlit("port=");
    reveal_strlit("host");
    reveal_strlit("port");
    let h = "host"@;
    let p = "port"@;
    let c = read_lines(lines);
    assert("host="@ + v =~= h.push('=') + v);
    assert("port="@ + v =~= p.push('=') + v);
    assert(h[0] == 'h' && p[0] == 'p');
    assert(lines.push("host="@ + v).drop_last() =~= lines);
    assert(lines.push("port="@ + v).drop_last() =~= lines);
    lemma_trimmed_whole(h);
    lemma_trimmed_whole(p);
    lemma_read_assignment(c, h, v);
    lemma_read_assignment(c, p, v);
}

/// A comment behind a value does not belong to it, nor do the blanks before the comment.
pub proof fn law_comments_are_cut_off(v: Seq<char>, rest: Seq<char>)
    requires
        !occurs(v, " #"@),
    ensures
        uncommented(v) == v,
        uncommented(v + " #"@ + rest) == trimmed(v),
{
    reveal_strlit(" #");
    let p = " #"@;
    let s = v + p + rest;
    let n = v.len() as int;
    assert(s.subrange(n, n + 2) =~= p);
    assert(occurs_at(s, p, n));
    assert forall|j: int| 0 <= j < n implies !occurs_at(s, p, j) by {
        if occurs_at(s, p, j) {
            let t = s.subrange(j, j + 2);
            assert(t[0] == ' ' && t[1] == '#');
            assert(s[j] == t[0] && s[j + 1] == t[1]);
            if j + 1 < n {
                assert(v.subrange(j, j + 2) =~= p);
                assert(occurs_at(v, p, j));
            } else {
                assert(s[j + 1] == p[0]);
            }
        }
    }
    assert(first_at(s, p, n));
    lemma_first_once(s, p, n);
    assert(s.take(n) =~= v);
}

/// The address to listen on is the host and the port with a colon between them.
pub proof fn law_address_is_host_and_port(host: Seq<char>, port: Seq<char>)
    requires
        !host.contains(':'),
    ensures
        cut(address(host, port), ':') == Some((host, port)),
{
    reveal_strlit(":");
    assert(":"@ =~= seq![':']);
    law_cut_at_the_first(host, port, ':');
}

} // verus!
