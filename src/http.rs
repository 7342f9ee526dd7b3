//! The HTTP interface of the database: it sends no leading block that
//! declares the columns, so the first data block is handed on twice, once in
//! that role and once for its rows.

use vstd::prelude::*;
use vstd::string::StrSliceExecFns;

use crate::blocks::Block;
use crate::errors::{Error, HttpError};

verus! {

/// What the adapter hands on for the blocks decoded from a response, in
/// order: nothing for an empty response, else the first block, then every block.
pub open spec fn replayed<B>(decoded: Seq<B>) -> Seq<B> {
    if decoded.len() == 0 {
        Seq::empty()
    } else {
        seq![decoded[0]] + decoded
    }
}

/// Hands on the blocks decoded from an HTTP response, one at a time.
pub struct HttpBlockAdapter {
    started: bool,
}

impl HttpBlockAdapter {
    /// Whether a block has been handed on.
    pub closed spec fn is_started(&self) -> bool {
        self.started
    }

    pub fn new() -> (r: HttpBlockAdapter)
        ensures
            !r.is_started(),
    {
        HttpBlockAdapter { started: false }
    }

    /// The blocks to hand on for the next decoded block: the first one twice.
    pub fn on_block(&mut self, block: Block) -> (r: Vec<Block>)
        ensures
            final(self).is_started(),
            !old(self).is_started() ==> r@.len() == 2 && r@[0]@ == block@ && r@[1]@ == block@,
            old(self).is_started() ==> r@.len() == 1 && r@[0]@ == block@,
    {
        if self.started {
            vec![block]
        } else {
            self.started = true;
            let first = block.clone();
            vec![first, block]
        }
    }
}

/// Every block decoded from a response, with the first one handed on twice;
/// nothing for an empty response.
pub fn replay_first(decoded: Vec<Block>) -> (r: Vec<Block>)
    ensures
        r@.len() == replayed(decoded@).len(),
        forall|i: int| 0 <= i < r@.len() ==> (#[trigger] r@[i])@ == replayed(decoded@)[i]@,
{
    let ghost d = decoded@;
    let total = decoded.len();
    let mut adapter = HttpBlockAdapter::new();
    let mut out: Vec<Block> = Vec::new();
    let mut rest = decoded;
    let mut i: usize = 0;
    while rest.len() > 0
        invariant
            i + rest@.len() == d.len(),
            d.len() == total,
            forall|l: int| 0 <= l < rest@.len() ==> rest@[l] == d[i + l],
            adapter.is_started() == (i > 0),
            out@.len() == replayed(d.subrange(0, i as int)).len(),
            forall|l: int|
                0 <= l < out@.len() ==> (#[trigger] out@[l])@ == replayed(d.subrange(0, i as int))[l]@,
        decreases rest@.len(),
    {
        let b = rest.remove(0);
        let mut emitted = adapter.on_block(b);
        let ghost before = out@;
        out.append(&mut emitted);
        proof {
            let p = d.subrange(0, i as int);
            let q = d.subrange(0, i + 1);
            if i == 0 {
                assert(replayed(q) =~= seq![d[0], d[0]]);
            } else {
                assert(q =~= p.push(d[i as int]));
                assert(replayed(q) =~= replayed(p).push(d[i as int]));
            }
        }
        i = i + 1;
    }
    assert(d.subrange(0, d.len() as int) =~= d);
    out
}

/// Insertion over HTTP is not available: always `Http(Insertion)`.
pub fn http_insert() -> (r: Result<(), Error>)
    ensures
        r matches Err(Error::Http(HttpError::Insertion)),
{
    Err(Error::Http(HttpError::Insertion))
}

/// Whether `s` starts with `p`.
pub open spec fn has_prefix(s: Seq<char>, p: Seq<char>) -> bool {
    p.len() <= s.len() && s.subrange(0, p.len() as int) == p
}

pub(crate) fn starts_with(s: &str, p: &str) -> (r: bool)
    ensures
        r == has_prefix(s@, p@),
{
    let n = s.unicode_len();
    let m = p.unicode_len();
    if m > n {
        return false;
    }
    let mut i: usize = 0;
    while i < m
        invariant
            n == s@.len(),
            m == p@.len(),
            m <= n,
            i <= m,
            forall|j: int| 0 <= j < i ==> s@[j] == p@[j],
        decreases m - i,
    {
        if s.get_char(i) != p.get_char(i) {
            assert(s@.subrange(0, m as int)[i as int] != p@[i as int]);
            return false;
        }
        i = i + 1;
    }
    assert(s@.subrange(0, m as int) =~= p@);
    true
}

/// Whether an address names the HTTP interface (`http://` or `https://`)
/// rather than the native protocol.
pub fn is_http_address(address: &str) -> (r: bool)
    ensures
        r == (has_prefix(address@, "http://"@) || has_prefix(address@, "https://"@)),
{
    starts_with(address, "http://") || starts_with(address, "https://")
}

} // verus!
