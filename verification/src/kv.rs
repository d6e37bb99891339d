use vstd::prelude::*;
use vstd::string::StringSliceAdditionalSpecFns;
use vstd::utf8::{encode_utf8, is_char_boundary};

verus! {

/// Why a command-line argument was rejected.
#[derive(Clone, Copy, Debug, PartialEq, Eq, Structural)]
pub enum CliError {
    MissingSeparator,
    BadUrl,
}

/// One `key=value` argument of a request body.
#[derive(Clone, Debug)]
pub struct KvPair {
    pub k: String,
    pub v: String,
}

impl KvPair {
    /// Builds a pair from its two parts.
    pub fn new(k: &str, v: &str) -> (r: KvPair)
        ensures
            r.k@ == k@,
            r.v@ == v@,
    {
        KvPair { k: k.to_owned(), v: v.to_owned() }
    }
}

impl PartialEq for KvPair {
    fn eq(&self, other: &KvPair) -> (r: bool)
        ensures
            r == (self.k@ == other.k@ && self.v@ == other.v@),
    {
        self.k == other.k && self.v == other.v
    }
}

impl vstd::std_specs::cmp::PartialEqSpecImpl for KvPair {
    open spec fn obeys_eq_spec() -> bool {
        true
    }

    open spec fn eq_spec(&self, other: &KvPair) -> bool {
        self.k@ == other.k@ && self.v@ == other.v@
    }
}

/// The position of the first `=` byte at or after `from`, or the length if
/// there is none.
pub open spec fn eq_pos(bs: Seq<u8>, from: int) -> int
    decreases bs.len() - from,
{
    if from < 0 || from >= bs.len() {
        bs.len() as int
    } else if bs[from] == 61 {
        from
    } else {
        eq_pos(bs, from + 1)
    }
}

/// The three splits that carve `key=value[=rest]` out of the bytes land on
/// character boundaries. `=` is a one-byte character, so this holds of every
/// real string; it is spelled out because the parser works on bytes.
pub open spec fn kv_splittable(bs: Seq<u8>, i: int, j: int) -> bool {
    &&& is_char_boundary(bs, i)
    &&& is_char_boundary(bs.subrange(0, j), i + 1)
    &&& is_char_boundary(bs, j)
}

/// Splits an argument at its first `=` into key and value; the value runs to
/// the next `=` or the end. An argument with no `=` is rejected.
pub fn parse_kvpair(s: &str) -> (r: Result<KvPair, CliError>)
    ensures
        ({
            let bs = s.spec_bytes();
            let i = eq_pos(bs, 0);
            let j = eq_pos(bs, i + 1);
            &&& (r is Ok <==> i < bs.len() && kv_splittable(bs, i, j))
            &&& (r is Ok ==> encode_utf8(r.unwrap().k@) == bs.subrange(0, i)
                && encode_utf8(r.unwrap().v@) == bs.subrange(i + 1, j))
        }),
{
    let bs = s.as_bytes();
    let n: usize = bs.len();
    let mut i: usize = 0;
    while i < n && bs[i] != 61
        invariant
            n == bs@.len(),
            0 <= i <= n,
            eq_pos(bs@, 0) == eq_pos(bs@, i as int),
        decreases n - i,
    {
        i += 1;
    }
    if i == n {
        return Err(CliError::MissingSeparator);
    }
    proof {
        assert(eq_pos(bs@, 0) == i);
    }
    let mut j: usize = i + 1;
    while j < n && bs[j] != 61
        invariant
            n == bs@.len(),
            i + 1 <= j <= n,
            eq_pos(bs@, i as int + 1) == eq_pos(bs@, j as int),
        decreases n - j,
    {
        j += 1;
    }
    proof {
        assert(eq_pos(bs@, i as int + 1) == j);
    }
    if !s.is_char_boundary(i) || !s.is_char_boundary(j) {
        return Err(CliError::MissingSeparator);
    }
    let (kpart, _) = s.split_at(i);
    let (head, _) = s.split_at(j);
    if !head.is_char_boundary(i + 1) {
        return Err(CliError::MissingSeparator);
    }
    let (_, vpart) = head.split_at(i + 1);
    proof {
        assert(encode_utf8(kpart@) == kpart.spec_bytes());
        assert(encode_utf8(vpart@) == vpart.spec_bytes());
        assert(kpart.spec_bytes() =~= s.spec_bytes().subrange(0, i as int));
        assert(vpart.spec_bytes() =~= s.spec_bytes().subrange(i as int + 1, j as int));
    }
    Ok(KvPair { k: kpart.to_owned(), v: vpart.to_owned() })
}

/// Whether reqwest's url parser accepts a locator string.
pub uninterp spec fn is_url(s: Seq<char>) -> bool;

/// Relies on reqwest's `Url::parse` (the url crate): whether a string is a
/// valid absolute locator depends on the string alone.
#[verifier::external_body]
fn url_parse_ok(s: &str) -> (r: bool)
    ensures
        r == is_url(s@),
{
    reqwest::Url::parse(s).is_ok()
}

/// Validates a locator string, handing it back untouched; rejected exactly
/// when the url parser refuses it.
pub fn parse_url(url: &str) -> (r: Result<String, CliError>)
    ensures
        r is Ok <==> is_url(url@),
        r is Ok ==> r.unwrap()@ == url@,
{
    if url_parse_ok(url) {
        Ok(url.to_owned())
    } else {
        Err(CliError::BadUrl)
    }
}

} // verus!
