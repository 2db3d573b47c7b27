//! Telling the log files of the trading engine from the other files of
//! its log directory, by their names.

use vstd::prelude::*;
use vstd::string::*;
use vstd::utf8::encode_utf8;

verus! {

/// Whether `needle` stands in `s` at the place `i`.
pub open spec fn occurs_at(s: Seq<u8>, needle: Seq<u8>, i: int) -> bool {
    0 <= i && i + needle.len() <= s.len() && s.subrange(i, i + needle.len()) == needle
}

/// Whether `needle` stands somewhere in `s`.
pub open spec fn occurs_in(s: Seq<u8>, needle: Seq<u8>) -> bool {
    exists|i: int| occurs_at(s, needle, i)
}

/// Whether `s` ends with `suffix`.
pub open spec fn ends_with(s: Seq<u8>, suffix: Seq<u8>) -> bool {
    occurs_at(s, suffix, s.len() - suffix.len())
}

/// Whether a file with the name `name`, given in UTF-8, is a log of the
/// trading engine: the name ends with `.log` and holds `tournament` or
/// `pdt_safe`.
pub open spec fn is_trading_log(name: Seq<u8>) -> bool {
    ends_with(name, ".log".spec_bytes()) && (occurs_in(name, "tournament".spec_bytes()) || occurs_in(
        name,
        "pdt_safe".spec_bytes(),
    ))
}

/// Those of `names` that are logs of the trading engine, in their order.
pub open spec fn trading_logs(names: Seq<Seq<char>>) -> Seq<Seq<char>>
    decreases names.len(),
{
    if names.len() == 0 {
        Seq::<Seq<char>>::empty()
    } else if is_trading_log(encode_utf8(names.last())) {
        trading_logs(names.drop_last()).push(names.last())
    } else {
        trading_logs(names.drop_last())
    }
}

/// Tells whether `needle` stands in `s` at the place `i`.
pub fn bytes_occur_at(s: &[u8], needle: &[u8], i: usize) -> (r: bool)
    ensures
        r == occurs_at(s@, needle@, i as int),
{
    let n = s.len();
    let m = needle.len();
    if m > n || i > n - m {
        return false;
    }
    let mut k: usize = 0;
    while k < m
        invariant
            k <= m,
            m == needle@.len(),
            n == s@.len(),
            i + m <= n,
            forall|j: int| 0 <= j < k ==> s@[i + j] == #[trigger] needle@[j],
        decreases m - k,
    {
        if s[i + k] != needle[k] {
            proof {
                let part = s@.subrange(i as int, i + m);
                assert(part[k as int] == s@[i + k]);
            }
            return false;
        }
        k = k + 1;
    }
    assert(s@.subrange(i as int, i + m) =~= needle@);
    true
}

/// Tells whether `needle` stands somewhere in `s`.
pub fn bytes_occur_in(s: &[u8], needle: &[u8]) -> (r: bool)
    ensures
        r == occurs_in(s@, needle@),
{
    let n = s.len();
    let m = needle.len();
    if m > n {
        return false;
    }
    if m == 0 {
        assert(s@.subrange(0, 0) =~= needle@);
        assert(occurs_at(s@, needle@, 0));
        return true;
    }
    let mut i: usize = 0;
    while i <= n - m
        invariant
            0 < m <= n,
            n == s@.len(),
            m == needle@.len(),
            i <= n - m + 1,
            forall|j: int| 0 <= j < i ==> !occurs_at(s@, needle@, j),
        decreases n - m + 1 - i,
    {
        if bytes_occur_at(s, needle, i) {
            return true;
        }
        i = i + 1;
    }
    false
}

/// Tells whether `s` ends with `suffix`.
pub fn bytes_end_with(s: &[u8], suffix: &[u8]) -> (r: bool)
    ensures
        r == ends_with(s@, suffix@),
{
    if suffix.len() > s.len() {
        return false;
    }
    bytes_occur_at(s, suffix, s.len() - suffix.len())
}

/// Tells whether a file with this name is a log of the trading engine.
pub fn is_trading_log_name(name: &str) -> (r: bool)
    ensures
        r == is_trading_log(name.spec_bytes()),
{
    let b = name.as_bytes();
    bytes_end_with(b, ".log".as_bytes()) && (bytes_occur_in(b, "tournament".as_bytes()) || bytes_occur_in(
        b,
        "pdt_safe".as_bytes(),
    ))
}

/// Picks the logs of the trading engine out of the names of a directory.
pub fn select_trading_logs(names: &Vec<String>) -> (r: Vec<String>)
    ensures
        r@.map_values(|n: String| n@) == trading_logs(names@.map_values(|n: String| n@)),
{
    let ghost all = names@.map_values(|n: String| n@);
    let mut r: Vec<String> = Vec::new();
    let mut i: usize = 0;
    assert(all.take(0) =~= Seq::<Seq<char>>::empty());
    assert(r@.map_values(|n: String| n@) =~= Seq::<Seq<char>>::empty());
    while i < names.len()
        invariant
            i <= names.len(),
            all == names@.map_values(|n: String| n@),
            r@.map_values(|n: String| n@) == trading_logs(all.take(i as int)),
        decreases names.len() - i,
    {
        proof {
            let t = all.take(i + 1);
            assert(t.drop_last() =~= all.take(i as int));
            assert(t.last() == names@[i as int]@);
        }
        if is_trading_log_name(names[i].as_str()) {
            let ghost before = r@.map_values(|n: String| n@);
            let name = names[i].clone();
            r.push(name);
            assert(r@.map_values(|n: String| n@) =~= before.push(name@));
        }
        i = i + 1;
    }
    assert(all.take(names.len() as int) =~= all);
    r
}

/// Whether the pattern `p` from its place `i` on matches the name `s`
/// from its place `j` on. In a pattern `*` stands for any run of bytes, an
/// empty one too; every other byte stands for itself.
pub open spec fn wild_match_from(p: Seq<u8>, i: int, s: Seq<u8>, j: int) -> bool
    decreases p.len() - i + s.len() - j,
{
    if i < 0 || j < 0 || i > p.len() || j > s.len() {
        false
    } else if i == p.len() {
        j == s.len()
    } else if p[i] == 0x2a {
        wild_match_from(p, i + 1, s, j) || (j < s.len() && wild_match_from(p, i, s, j + 1))
    } else {
        j < s.len() && p[i] == s[j] && wild_match_from(p, i + 1, s, j + 1)
    }
}

/// Whether the pattern `p` matches the whole of the name `s`.
pub open spec fn wild_match(p: Seq<u8>, s: Seq<u8>) -> bool {
    wild_match_from(p, 0, s, 0)
}

/// Tells whether the pattern from `i` on matches the name from `j` on.
fn bytes_match_from(p: &[u8], i: usize, s: &[u8], j: usize) -> (r: bool)
    requires
        i <= p@.len(),
        j <= s@.len(),
    ensures
        r == wild_match_from(p@, i as int, s@, j as int),
    decreases p@.len() - i + s@.len() - j,
{
    if i == p.len() {
        j == s.len()
    } else if p[i] == 0x2a {
        if bytes_match_from(p, i + 1, s, j) {
            true
        } else if j < s.len() {
            bytes_match_from(p, i, s, j + 1)
        } else {
            false
        }
    } else if j < s.len() && p[i] == s[j] {
        bytes_match_from(p, i + 1, s, j + 1)
    } else {
        false
    }
}

/// Tells whether the file name `name` matches the pattern `pattern`, in
/// which `*` stands for any run of characters.
pub fn glob_matches(pattern: &str, name: &str) -> (r: bool)
    ensures
        r == wild_match(pattern.spec_bytes(), name.spec_bytes()),
{
    bytes_match_from(pattern.as_bytes(), 0, name.as_bytes(), 0)
}

} // verus!
