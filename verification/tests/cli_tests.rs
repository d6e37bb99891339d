use imgpipe::fib::{next_fib, Fibnacci};
use imgpipe::kv::{parse_kvpair, parse_url, KvPair};

#[test]
fn parse_kv_pair_works() {
    assert!(parse_kvpair("a").is_err());
    assert_eq!(parse_kvpair("a=1").unwrap(), KvPair::new("a", "1"));
    assert_eq!(parse_kvpair("b=").unwrap(), KvPair::new("b", ""));
}

#[test]
fn parse_url_works() {
    assert!(parse_url("abc").is_err());
    assert!(parse_url("http://abc.xyz").is_ok());
    assert!(parse_url("https://httpbin.org/post").is_ok());
}

#[test]
fn kv_value_stops_at_the_second_separator() {
    assert_eq!(parse_kvpair("a=1=2").unwrap(), KvPair::new("a", "1"));
    assert_eq!(parse_kvpair("=x").unwrap(), KvPair::new("", "x"));
}

#[test]
fn parse_url_hands_the_string_back() {
    assert_eq!(parse_url("http://abc.xyz").unwrap(), "http://abc.xyz");
}

#[test]
fn next_fib_advances_the_pair() {
    assert_eq!(next_fib(1, 1), (1, 2));
    assert_eq!(next_fib(2, 3), (3, 5));
}

#[test]
fn fibnacci_yields_the_sequence() {
    let mut f = Fibnacci::new();
    let mut got = Vec::new();
    for _ in 0..6 {
        got.push(f.next().unwrap());
    }
    assert_eq!(got, vec![1, 2, 3, 5, 8, 13]);
}
