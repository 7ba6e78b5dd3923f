//! Parsing of a backend response preamble.
//!
//! A worker process answers with header lines ("Key: Value", each ended by a
//! newline, an empty line ending the headers) followed by the payload body.
//! The dispatcher reads the content type, a backend-reported timing in
//! microseconds ("X-us"), and comma-separated metric entries ("X-metrics",
//! "cache_count:2,cache_hit:13") out of the preamble, and forwards the timing
//! to the caller as a Server-Timing header. The parser here is decoupled from
//! all I/O so it works on captured byte sequences.

use vstd::prelude::*;

use crate::bytes::{all_digits, dec_repr, dec_value, parse_u64, u64_to_dec};
use vstd::slice::{slice_subrange, slice_to_vec};

verus! {

/// The index of the first `b` in `s` at or after `from`, or the length.
pub open spec fn find_from(s: Seq<u8>, b: u8, from: int) -> int
    decreases s.len() - from,
{
    if from < 0 || from >= s.len() {
        s.len() as int
    } else if s[from] == b {
        from
    } else {
        find_from(s, b, from + 1)
    }
}

proof fn lemma_find_from_bounds(s: Seq<u8>, b: u8, from: int)
    requires
        0 <= from <= s.len(),
    ensures
        from <= find_from(s, b, from) <= s.len(),
    decreases s.len() - from,
{
    if from < s.len() && s[from] != b {
        lemma_find_from_bounds(s, b, from + 1);
    }
}

fn find_byte(s: &[u8], b: u8, from: usize) -> (r: usize)
    requires
        from <= s@.len(),
    ensures
        r as int == find_from(s@, b, from as int),
        from <= r <= s@.len(),
        r < s@.len() ==> s@[r as int] == b,
{
    let n = s.len();
    let mut i = from;
    while i < n
        invariant
            from <= i <= n == s@.len(),
            find_from(s@, b, from as int) == find_from(s@, b, i as int),
        decreases n - i,
    {
        if s[i] == b {
            return i;
        }
        i = i + 1;
    }
    i
}

/// The index of the first adjacent pair `a b` in `s`, or the length.
pub open spec fn find2_from(s: Seq<u8>, a: u8, b: u8, from: int) -> int
    decreases s.len() - from,
{
    if from < 0 || from + 1 >= s.len() {
        s.len() as int
    } else if s[from] == a && s[from + 1] == b {
        from
    } else {
        find2_from(s, a, b, from + 1)
    }
}

fn find_two(s: &[u8], a: u8, b: u8) -> (r: usize)
    ensures
        r as int == find2_from(s@, a, b, 0),
        r <= s@.len(),
        r < s@.len() ==> r + 1 < s@.len() && s@[r as int] == a && s@[r as int + 1] == b,
{
    let n = s.len();
    let mut i: usize = 0;
    while i < n
        invariant_except_break
            i <= n == s@.len(),
            find2_from(s@, a, b, 0) == find2_from(s@, a, b, i as int),
        ensures
            i <= n,
            i + 1 >= n,
            find2_from(s@, a, b, 0) == find2_from(s@, a, b, i as int),
        decreases n - i,
    {
        if i + 1 >= n {
            break ;
        }
        if s[i] == a && s[i + 1] == b {
            return i;
        }
        i = i + 1;
    }
    n
}

/// A line with its trailing carriage returns removed.
pub open spec fn trim_cr(s: Seq<u8>) -> Seq<u8>
    decreases s.len(),
{
    if s.len() > 0 && s.last() == 13 {
        trim_cr(s.drop_last())
    } else {
        s
    }
}

/// The header pairs of a response preamble, read from `pos` on: one pair per
/// "Key: Value" line, until an empty line, a line without ": ", or the end of
/// the data.
pub open spec fn spec_headers_from(s: Seq<u8>, pos: int) -> Seq<(Seq<u8>, Seq<u8>)>
    decreases s.len() - pos
        via spec_headers_from_dec
{
    if pos < 0 || pos >= s.len() {
        Seq::empty()
    } else {
        let e = find_from(s, 10, pos);
        let line = trim_cr(s.subrange(pos, e));
        if line.len() == 0 {
            Seq::empty()
        } else {
            let c = find2_from(line, 58, 32, 0);
            if c >= line.len() {
                Seq::empty()
            } else {
                let pair = (line.take(c), line.skip(c + 2));
                if e >= s.len() {
                    seq![pair]
                } else {
                    seq![pair] + spec_headers_from(s, e + 1)
                }
            }
        }
    }
}

#[via_fn]
proof fn spec_headers_from_dec(s: Seq<u8>, pos: int) {
    if 0 <= pos < s.len() {
        lemma_find_from_bounds(s, 10, pos);
    }
}

/// Where the payload body starts: right after the line that ended the
/// headers, or at the end of the data.
pub open spec fn spec_body_start_from(s: Seq<u8>, pos: int) -> int
    decreases s.len() - pos
        via spec_body_start_from_dec
{
    if pos < 0 || pos >= s.len() {
        s.len() as int
    } else {
        let e = find_from(s, 10, pos);
        let line = trim_cr(s.subrange(pos, e));
        if line.len() == 0 {
            if e < s.len() {
                e + 1
            } else {
                s.len() as int
            }
        } else {
            let c = find2_from(line, 58, 32, 0);
            if c >= line.len() {
                if e < s.len() {
                    e + 1
                } else {
                    s.len() as int
                }
            } else {
                if e >= s.len() {
                    s.len() as int
                } else {
                    spec_body_start_from(s, e + 1)
                }
            }
        }
    }
}

#[via_fn]
proof fn spec_body_start_from_dec(s: Seq<u8>, pos: int) {
    if 0 <= pos < s.len() {
        lemma_find_from_bounds(s, 10, pos);
    }
}

/// The byte views of a list of header pairs.
pub open spec fn pairs_view(s: Seq<(Vec<u8>, Vec<u8>)>) -> Seq<(Seq<u8>, Seq<u8>)> {
    Seq::new(s.len(), |i: int| (s[i].0@, s[i].1@))
}

/// Split a response into its header pairs and the position of the body.
pub fn split_headers(data: &[u8]) -> (r: (Vec<(Vec<u8>, Vec<u8>)>, usize))
    ensures
        pairs_view(r.0@) == spec_headers_from(data@, 0),
        r.1 as int == spec_body_start_from(data@, 0),
        r.1 <= data@.len(),
{
    let mut pairs: Vec<(Vec<u8>, Vec<u8>)> = Vec::new();
    let mut pos: usize = 0;
    let mut body_start: usize = 0;
    let n = data.len();
    loop
        invariant_except_break
            pos <= n == data@.len(),
            spec_headers_from(data@, 0) =~= pairs_view(pairs@) + spec_headers_from(
                data@,
                pos as int,
            ),
            spec_body_start_from(data@, 0) == spec_body_start_from(data@, pos as int),
        ensures
            pairs_view(pairs@) =~= spec_headers_from(data@, 0),
            body_start as int == spec_body_start_from(data@, 0),
            body_start <= data@.len(),
        decreases n - pos,
    {
        if pos >= n {
            body_start = n;
            proof {
                assert(spec_headers_from(data@, pos as int) =~= Seq::<(Seq<u8>, Seq<u8>)>::empty());
                assert(pairs_view(pairs@) + Seq::<(Seq<u8>, Seq<u8>)>::empty() =~= pairs_view(
                    pairs@,
                ));
            }
            break ;
        }
        let e = find_byte(data, 10, pos);
        let mut le = e;
        while le > pos && data[le - 1] == 13
            invariant
                pos <= le <= e <= n == data@.len(),
                trim_cr(data@.subrange(pos as int, e as int)) == trim_cr(
                    data@.subrange(pos as int, le as int),
                ),
            decreases le,
        {
            proof {
                let sub = data@.subrange(pos as int, le as int);
                assert(sub.last() == data@[le - 1]);
                assert(sub.drop_last() =~= data@.subrange(pos as int, le - 1));
            }
            le = le - 1;
        }
        proof {
            let line = data@.subrange(pos as int, le as int);
            if line.len() > 0 {
                assert(line.last() == data@[le - 1]);
            }
            assert(trim_cr(line) == line);
        }
        if le == pos {
            body_start = if e < n {
                e + 1
            } else {
                n
            };
            proof {
                assert(data@.subrange(pos as int, le as int).len() == 0);
                assert(spec_headers_from(data@, pos as int) =~= Seq::<(Seq<u8>, Seq<u8>)>::empty());
                assert(pairs_view(pairs@) + Seq::<(Seq<u8>, Seq<u8>)>::empty() =~= pairs_view(
                    pairs@,
                ));
            }
            break ;
        }
        let line = slice_to_vec(slice_subrange(data, pos, le));
        let c = find_two(line.as_slice(), 58, 32);
        if c == line.len() {
            body_start = if e < n {
                e + 1
            } else {
                n
            };
            proof {
                assert(spec_headers_from(data@, pos as int) =~= Seq::<(Seq<u8>, Seq<u8>)>::empty());
                assert(pairs_view(pairs@) + Seq::<(Seq<u8>, Seq<u8>)>::empty() =~= pairs_view(
                    pairs@,
                ));
            }
            break ;
        }
        let key = slice_to_vec(slice_subrange(line.as_slice(), 0, c));
        let value = slice_to_vec(slice_subrange(line.as_slice(), c + 2, line.len()));
        let ghost prev = pairs@;
        pairs.push((key, value));
        let next: usize = if e < n {
            e + 1
        } else {
            n
        };
        proof {
            let lv = data@.subrange(pos as int, le as int);
            assert(key@ =~= lv.take(c as int));
            assert(value@ =~= lv.skip(c + 2));
            let pair = (lv.take(c as int), lv.skip(c + 2));
            if (e as int) < data@.len() {
                assert(spec_headers_from(data@, pos as int) =~= seq![pair] + spec_headers_from(
                    data@,
                    e + 1,
                ));
                assert(spec_body_start_from(data@, pos as int) == spec_body_start_from(
                    data@,
                    e + 1,
                ));
            } else {
                assert(spec_headers_from(data@, pos as int) =~= seq![pair] + spec_headers_from(
                    data@,
                    next as int,
                ));
                assert(spec_body_start_from(data@, pos as int) == data@.len() as int);
            }
            assert(pairs_view(pairs@) =~= pairs_view(prev).push((key@, value@)));
            assert(pairs_view(prev) + (seq![pair] + spec_headers_from(data@, next as int))
                =~= pairs_view(pairs@) + spec_headers_from(data@, next as int));
        }
        pos = next;
    }
    (pairs, body_start)
}

/// The value of the last header with this key.
pub open spec fn header_value(ps: Seq<(Seq<u8>, Seq<u8>)>, key: Seq<u8>) -> Option<Seq<u8>>
    decreases ps.len(),
{
    if ps.len() == 0 {
        None
    } else if ps.last().0 == key {
        Some(ps.last().1)
    } else {
        header_value(ps.drop_last(), key)
    }
}

/// The value of the last metric entry with this key in a comma-separated
/// "key:value" list.
pub open spec fn entry_value(entry: Seq<u8>, key: Seq<u8>) -> Option<Seq<u8>> {
    let d = find_from(entry, 58, 0);
    if d < entry.len() && entry.take(d) == key {
        Some(entry.skip(d + 1))
    } else {
        None
    }
}

pub open spec fn metric_value(v: Seq<u8>, key: Seq<u8>) -> Option<Seq<u8>>
    decreases v.len()
        via metric_value_dec
{
    let c = find_from(v, 44, 0);
    if c >= v.len() {
        entry_value(v, key)
    } else {
        let rest = metric_value(v.skip(c + 1), key);
        if rest is Some {
            rest
        } else {
            entry_value(v.take(c), key)
        }
    }
}

#[via_fn]
proof fn metric_value_dec(v: Seq<u8>, key: Seq<u8>) {
    lemma_find_from_bounds(v, 44, 0);
}

/// The number that a byte string denotes, if it is a nonempty digit run whose
/// value fits in a `u64`.
pub open spec fn spec_number(v: Seq<u8>) -> Option<u64> {
    if v.len() > 0 && all_digits(v) && dec_value(v) <= u64::MAX {
        Some(dec_value(v) as u64)
    } else {
        None
    }
}

pub open spec fn spec_metric_num(v: Seq<u8>, key: Seq<u8>) -> Option<u64> {
    match metric_value(v, key) {
        Some(raw) => spec_number(raw),
        None => None,
    }
}

fn entry_value_exec(entry: &[u8], key: &[u8]) -> (r: Option<Vec<u8>>)
    ensures
        match r {
            Some(x) => entry_value(entry@, key@) == Some(x@),
            None => entry_value(entry@, key@) is None,
        },
{
    let d = find_byte(entry, 58, 0);
    if d < entry.len() {
        let k = slice_subrange(entry, 0, d);
        proof {
            assert(k@ =~= entry@.take(d as int));
        }
        if crate::bytes::bytes_eq(k, key) {
            let val = slice_subrange(entry, d + 1, entry.len());
            proof {
                assert(val@ =~= entry@.skip(d + 1));
            }
            return Some(slice_to_vec(val));
        }
    }
    None
}

fn metric_value_exec(v: &[u8], key: &[u8]) -> (r: Option<Vec<u8>>)
    ensures
        match r {
            Some(x) => metric_value(v@, key@) == Some(x@),
            None => metric_value(v@, key@) is None,
        },
    decreases v@.len(),
{
    let c = find_byte(v, 44, 0);
    if c >= v.len() {
        entry_value_exec(v, key)
    } else {
        let rest = slice_subrange(v, c + 1, v.len());
        proof {
            assert(rest@ =~= v@.skip(c + 1));
        }
        match metric_value_exec(rest, key) {
            Some(x) => Some(x),
            None => {
                let entry = slice_subrange(v, 0, c);
                proof {
                    assert(entry@ =~= v@.take(c as int));
                }
                entry_value_exec(entry, key)
            },
        }
    }
}

/// Parse the number of one metric entry out of an "X-metrics" value.
pub fn metric_num(v: &[u8], key: &[u8]) -> (r: Option<u64>)
    ensures
        r == spec_metric_num(v@, key@),
{
    match metric_value_exec(v, key) {
        Some(x) => parse_u64(x.as_slice()),
        None => None,
    }
}

/// The bytes of "Content-Type".
pub open spec fn ct_key() -> Seq<u8> {
    seq![67u8, 111u8, 110u8, 116u8, 101u8, 110u8, 116u8, 45u8, 84u8, 121u8, 112u8, 101u8]
}

/// The bytes of "Content-Length".
pub open spec fn cl_key() -> Seq<u8> {
    seq![
        67u8,
        111u8,
        110u8,
        116u8,
        101u8,
        110u8,
        116u8,
        45u8,
        76u8,
        101u8,
        110u8,
        103u8,
        116u8,
        104u8,
    ]
}

/// The bytes of "Server".
pub open spec fn server_key() -> Seq<u8> {
    seq![83u8, 101u8, 114u8, 118u8, 101u8, 114u8]
}

/// The bytes of "X-us".
pub open spec fn xus_key() -> Seq<u8> {
    seq![88u8, 45u8, 117u8, 115u8]
}

/// The bytes of "X-metrics".
pub open spec fn xmetrics_key() -> Seq<u8> {
    seq![88u8, 45u8, 109u8, 101u8, 116u8, 114u8, 105u8, 99u8, 115u8]
}

/// The bytes of "cache_count".
pub open spec fn cache_count_key() -> Seq<u8> {
    seq![99u8, 97u8, 99u8, 104u8, 101u8, 95u8, 99u8, 111u8, 117u8, 110u8, 116u8]
}

/// The bytes of "cache_hit".
pub open spec fn cache_hit_key() -> Seq<u8> {
    seq![99u8, 97u8, 99u8, 104u8, 101u8, 95u8, 104u8, 105u8, 116u8]
}

fn key_content_type() -> (r: Vec<u8>)
    ensures
        r@ == ct_key(),
{
    let mut v: Vec<u8> = Vec::new();
    v.push(67);
    v.push(111);
    v.push(110);
    v.push(116);
    v.push(101);
    v.push(110);
    v.push(116);
    v.push(45);
    v.push(84);
    v.push(121);
    v.push(112);
    v.push(101);
    proof {
        assert(v@ =~= ct_key());
    }
    v
}

fn key_content_length() -> (r: Vec<u8>)
    ensures
        r@ == cl_key(),
{
    let mut v = key_content_type();
    v.pop();
    v.pop();
    v.pop();
    v.pop();
    v.push(76);
    v.push(101);
    v.push(110);
    v.push(103);
    v.push(116);
    v.push(104);
    proof {
        assert(v@ =~= cl_key());
    }
    v
}

fn key_server() -> (r: Vec<u8>)
    ensures
        r@ == server_key(),
{
    let mut v: Vec<u8> = Vec::new();
    v.push(83);
    v.push(101);
    v.push(114);
    v.push(118);
    v.push(101);
    v.push(114);
    proof {
        assert(v@ =~= server_key());
    }
    v
}

fn key_xus() -> (r: Vec<u8>)
    ensures
        r@ == xus_key(),
{
    let mut v: Vec<u8> = Vec::new();
    v.push(88);
    v.push(45);
    v.push(117);
    v.push(115);
    proof {
        assert(v@ =~= xus_key());
    }
    v
}

fn key_xmetrics() -> (r: Vec<u8>)
    ensures
        r@ == xmetrics_key(),
{
    let mut v: Vec<u8> = Vec::new();
    v.push(88);
    v.push(45);
    v.push(109);
    v.push(101);
    v.push(116);
    v.push(114);
    v.push(105);
    v.push(99);
    v.push(115);
    proof {
        assert(v@ =~= xmetrics_key());
    }
    v
}

fn key_cache_count() -> (r: Vec<u8>)
    ensures
        r@ == cache_count_key(),
{
    let mut v: Vec<u8> = Vec::new();
    v.push(99);
    v.push(97);
    v.push(99);
    v.push(104);
    v.push(101);
    v.push(95);
    v.push(99);
    v.push(111);
    v.push(117);
    v.push(110);
    v.push(116);
    proof {
        assert(v@ =~= cache_count_key());
    }
    v
}

fn key_cache_hit() -> (r: Vec<u8>)
    ensures
        r@ == cache_hit_key(),
{
    let mut v: Vec<u8> = Vec::new();
    v.push(99);
    v.push(97);
    v.push(99);
    v.push(104);
    v.push(101);
    v.push(95);
    v.push(104);
    v.push(105);
    v.push(116);
    proof {
        assert(v@ =~= cache_hit_key());
    }
    v
}

/// A header key the dispatcher acts on or deliberately ignores.
pub open spec fn recognized(k: Seq<u8>) -> bool {
    k == ct_key() || k == cl_key() || k == server_key() || k == xus_key() || k == xmetrics_key()
}

/// The keys of the headers the dispatcher does not know, kept for the log.
pub open spec fn spec_unrecognized(ps: Seq<(Seq<u8>, Seq<u8>)>) -> Seq<Seq<u8>>
    decreases ps.len(),
{
    if ps.len() == 0 {
        Seq::empty()
    } else {
        let r = spec_unrecognized(ps.drop_last());
        if recognized(ps.last().0) {
            r
        } else {
            r.push(ps.last().0)
        }
    }
}

/// The byte views of a list of keys.
pub open spec fn keys_view(s: Seq<Vec<u8>>) -> Seq<Seq<u8>> {
    Seq::new(s.len(), |i: int| s[i]@)
}

/// The timing a response reports, in microseconds.
pub open spec fn spec_timing(ps: Seq<(Seq<u8>, Seq<u8>)>) -> Option<u64> {
    match header_value(ps, xus_key()) {
        Some(v) => spec_number(v),
        None => None,
    }
}

pub open spec fn spec_cache_metric(ps: Seq<(Seq<u8>, Seq<u8>)>, key: Seq<u8>) -> Option<u64> {
    match header_value(ps, xmetrics_key()) {
        Some(v) => spec_metric_num(v, key),
        None => None,
    }
}

/// The structured record a response preamble parses to: the content type to
/// forward, the backend's own runtime in microseconds, its cache counters,
/// and the keys of the lines nobody recognized (they go to the log).
pub struct FcgiInfo {
    pub content_type: Option<Vec<u8>>,
    pub timing_us: Option<u64>,
    pub cache_count: Option<u64>,
    pub cache_hit: Option<u64>,
    pub unrecognized: Vec<Vec<u8>>,
}

/// Fold the header pairs into the structured record: for each field the last
/// header wins; "Content-Length" and "Server" are deliberately ignored.
pub fn build_info(pairs: &Vec<(Vec<u8>, Vec<u8>)>) -> (r: FcgiInfo)
    ensures
        ({
            let pv = pairs_view(pairs@);
            &&& (match r.content_type {
                Some(v) => header_value(pv, ct_key()) == Some(v@),
                None => header_value(pv, ct_key()) is None,
            })
            &&& r.timing_us == spec_timing(pv)
            &&& r.cache_count == spec_cache_metric(pv, cache_count_key())
            &&& r.cache_hit == spec_cache_metric(pv, cache_hit_key())
            &&& keys_view(r.unrecognized@) == spec_unrecognized(pv)
        }),
{
    let ctk = key_content_type();
    let clk = key_content_length();
    let srvk = key_server();
    let xusk = key_xus();
    let xmk = key_xmetrics();
    let cck = key_cache_count();
    let chk = key_cache_hit();
    let mut content_type: Option<Vec<u8>> = None;
    let mut timing_us: Option<u64> = None;
    let mut cache_count: Option<u64> = None;
    let mut cache_hit: Option<u64> = None;
    let mut unrecognized: Vec<Vec<u8>> = Vec::new();
    let mut i: usize = 0;
    let n = pairs.len();
    proof {
        assert(pairs_view(pairs@).take(0) =~= Seq::<(Seq<u8>, Seq<u8>)>::empty());
        assert(keys_view(unrecognized@) =~= Seq::<Seq<u8>>::empty());
    }
    while i < n
        invariant
            i <= n == pairs@.len(),
            ctk@ == ct_key(),
            clk@ == cl_key(),
            srvk@ == server_key(),
            xusk@ == xus_key(),
            xmk@ == xmetrics_key(),
            cck@ == cache_count_key(),
            chk@ == cache_hit_key(),
            ({
                let pv = pairs_view(pairs@).take(i as int);
                &&& (match content_type {
                    Some(v) => header_value(pv, ct_key()) == Some(v@),
                    None => header_value(pv, ct_key()) is None,
                })
                &&& timing_us == spec_timing(pv)
                &&& cache_count == spec_cache_metric(pv, cache_count_key())
                &&& cache_hit == spec_cache_metric(pv, cache_hit_key())
                &&& keys_view(unrecognized@) == spec_unrecognized(pv)
            }),
        decreases n - i,
    {
        let key = &pairs[i].0;
        let value = &pairs[i].1;
        proof {
            let pv = pairs_view(pairs@);
            assert(pv.take(i + 1).drop_last() =~= pv.take(i as int));
            assert(pv.take(i + 1).last() == (pairs@[i as int].0@, pairs@[i as int].1@));
        }
        if crate::bytes::bytes_eq(key.as_slice(), ctk.as_slice()) {
            content_type = Some(slice_to_vec(value.as_slice()));
        } else if crate::bytes::bytes_eq(key.as_slice(), clk.as_slice()) {
        } else if crate::bytes::bytes_eq(key.as_slice(), srvk.as_slice()) {
        } else if crate::bytes::bytes_eq(key.as_slice(), xusk.as_slice()) {
            timing_us = parse_u64(value.as_slice());
        } else if crate::bytes::bytes_eq(key.as_slice(), xmk.as_slice()) {
            cache_count = metric_num(value.as_slice(), cck.as_slice());
            cache_hit = metric_num(value.as_slice(), chk.as_slice());
        } else {
            let ghost prev = unrecognized@;
            unrecognized.push(slice_to_vec(key.as_slice()));
            proof {
                assert(keys_view(unrecognized@) =~= keys_view(prev).push(key@));
            }
        }
        i = i + 1;
    }
    proof {
        assert(pairs_view(pairs@).take(n as int) =~= pairs_view(pairs@));
    }
    FcgiInfo { content_type, timing_us, cache_count, cache_hit, unrecognized }
}

/// Parse a whole backend response: its structured preamble record and where
/// the payload body starts.
pub fn parse_response(data: &[u8]) -> (r: (FcgiInfo, usize))
    ensures
        ({
            let pv = spec_headers_from(data@, 0);
            &&& (match r.0.content_type {
                Some(v) => header_value(pv, ct_key()) == Some(v@),
                None => header_value(pv, ct_key()) is None,
            })
            &&& r.0.timing_us == spec_timing(pv)
            &&& r.0.cache_count == spec_cache_metric(pv, cache_count_key())
            &&& r.0.cache_hit == spec_cache_metric(pv, cache_hit_key())
            &&& keys_view(r.0.unrecognized@) == spec_unrecognized(pv)
            &&& r.1 as int == spec_body_start_from(data@, 0)
            &&& r.1 <= data@.len()
        }),
{
    let (pairs, body_start) = split_headers(data);
    let info = build_info(&pairs);
    (info, body_start)
}

/// The bytes of "wms-backend;dur=".
pub open spec fn server_timing_prefix() -> Seq<u8> {
    seq![
        119u8,
        109u8,
        115u8,
        45u8,
        98u8,
        97u8,
        99u8,
        107u8,
        101u8,
        110u8,
        100u8,
        59u8,
        100u8,
        117u8,
        114u8,
        61u8,
    ]
}

/// The Server-Timing header value reporting the backend's runtime to the
/// caller's browser: "wms-backend;dur=" followed by the runtime in
/// milliseconds.
pub open spec fn server_timing_spec(us: u64) -> Seq<u8> {
    server_timing_prefix() + dec_repr(us as int / 1000)
}

pub fn server_timing_value(us: u64) -> (r: Vec<u8>)
    ensures
        r@ == server_timing_spec(us),
{
    let mut v: Vec<u8> = Vec::new();
    v.push(119);
    v.push(109);
    v.push(115);
    v.push(45);
    v.push(98);
    v.push(97);
    v.push(99);
    v.push(107);
    v.push(101);
    v.push(110);
    v.push(100);
    v.push(59);
    v.push(100);
    v.push(117);
    v.push(114);
    v.push(61);
    proof {
        assert(v@ =~= server_timing_prefix());
    }
    let mut digits = u64_to_dec(us / 1000);
    v.append(&mut digits);
    proof {
        assert(v@ =~= server_timing_spec(us));
    }
    v
}

} // verus!
