use cloudone::config::{default_conf, listen_address, load_conf};

fn conf(text: &str) -> (String, String) {
    load_conf(text)
}

fn pair(h: &str, p: &str) -> (String, String) {
    (h.to_string(), p.to_string())
}

#[test]
fn defaults() {
    assert_eq!(conf(""), pair("0.0.0.0", "6677"));
    assert_eq!(conf(default_conf()), pair("0.0.0.0", "6677"));
    assert_eq!(conf("# x\n\n; y\n"), pair("0.0.0.0", "6677"));
}

#[test]
fn values() {
    assert_eq!(conf("[server]\nhost=1.2.3.4\nport=80\n"), pair("1.2.3.4", "80"));
    assert_eq!(conf("[ SERVER ]\r\n host = ::1 \r\nport=81 # comment\r\n"), pair("::1", "81"));
    assert_eq!(conf("[server]\nport=a#b\n"), pair("0.0.0.0", "a#b"));
    assert_eq!(conf("[server]\nport=1\nport=2\n"), pair("0.0.0.0", "2"));
    assert_eq!(conf("[server]\nport=\n"), pair("0.0.0.0", ""));
    assert_eq!(conf("[server]\nhost=a=b\n"), pair("a=b", "6677"));
}

#[test]
fn other_lines() {
    assert_eq!(conf("port=1\n[other]\nport=2\n"), pair("0.0.0.0", "6677"));
    assert_eq!(conf("[server]\nport\n[x]\nport=3\n"), pair("0.0.0.0", "6677"));
    assert_eq!(conf("[server\nport=3"), pair("0.0.0.0", "6677"));
    assert_eq!(conf("[server]\nPort=3"), pair("0.0.0.0", "6677"));
    assert_eq!(conf("[x]\n[server]\n#port=4\nport=5"), pair("0.0.0.0", "5"));
}

#[test]
fn listen_addresses() {
    assert_eq!(listen_address("0.0.0.0", "6677"), "0.0.0.0:6677");
}
