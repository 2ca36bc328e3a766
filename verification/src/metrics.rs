//! Metrics: the counters the broker and the sessions bump, and the
//! parsing of the configured StatsD endpoint. The UDP emitter itself
//! lives outside the library and forwards these counts.

use vstd::prelude::*;

verus! {

use crate::text::find_byte;
use crate::ip::is_digit;

/// One more event, stopping at the top rather than wrapping.
pub open spec fn bump(c: u64) -> u64 {
    if c < u64::MAX {
        (c + 1) as u64
    } else {
        c
    }
}

/// One more event, stopping at the top rather than wrapping.
pub fn bump_exec(c: u64) -> (r: u64)
    ensures
        r == bump(c),
{
    if c < u64::MAX {
        c + 1
    } else {
        c
    }
}

/// The counters the core emits.
#[derive(Clone, Copy, Debug, PartialEq, Eq, Structural, Default)]
pub struct MetricCounters {
    /// `conn.create`: accepted sessions.
    pub conn_create: u64,
    /// `conn.max.conn`: rejections for over-capacity.
    pub max_conn: u64,
    /// `conn.max.data`: shutdowns for the byte quota.
    pub max_data: u64,
    /// `conn.max.msg`: shutdowns for the message-count quota.
    pub max_msg: u64,
    /// `conn.expired`: idle timeouts.
    pub expired: u64,
    /// `conn.timeout`: lifespan expiries.
    pub timeout: u64,
}

impl MetricCounters {
    /// All counters at zero.
    pub fn new() -> (r: MetricCounters)
        ensures
            r == MetricCounters::zero(),
    {
        MetricCounters {
            conn_create: 0,
            max_conn: 0,
            max_data: 0,
            max_msg: 0,
            expired: 0,
            timeout: 0,
        }
    }

    /// All counters at zero.
    pub open spec fn zero() -> MetricCounters {
        MetricCounters {
            conn_create: 0,
            max_conn: 0,
            max_data: 0,
            max_msg: 0,
            expired: 0,
            timeout: 0,
        }
    }
}

/// The value of a run of decimal digits, most significant first.
pub open spec fn dec_value(p: Seq<u8>) -> int
    decreases p.len(),
{
    if p.len() == 0 {
        0
    } else {
        dec_value(p.drop_last()) * 10 + (p.last() - 48)
    }
}

/// One to five decimal digits standing for at most 65535.
pub open spec fn is_valid_port(p: Seq<u8>) -> bool {
    &&& 1 <= p.len() <= 5
    &&& forall|i: int| 0 <= i < p.len() ==> is_digit(#[trigger] p[i])
    &&& dec_value(p) <= 65535
}

/// The StatsD endpoint a configuration value names: the text before the
/// first colon, and the port after it; a missing or unreadable port
/// falls back to 8529.
pub open spec fn statsd_endpoint(s: Seq<u8>) -> (Seq<u8>, u16) {
    let i = find_byte(s, 58);
    if 0 <= i < s.len() {
        let port = s.skip(i + 1);
        if is_valid_port(port) {
            (s.take(i), dec_value(port) as u16)
        } else {
            (s.take(i), 8529)
        }
    } else {
        (s, 8529)
    }
}

/// Split the configured StatsD host into its name and port.
pub fn parse_statsd_host(s: &Vec<u8>) -> (r: (Vec<u8>, u16))
    ensures
        (r.0@, r.1) == statsd_endpoint(s@),
{
    let mut i: usize = 0;
    let n = s.len();
    while i < n
        invariant
            i <= n,
            n == s@.len(),
            forall|j: int| 0 <= j < i ==> s@[j] != 58,
        decreases n - i,
    {
        if s[i] == 58 {
            proof {
                crate::text::lemma_find_byte_at(s@, 58, i as int);
            }
            let mut host: Vec<u8> = Vec::new();
            let mut k: usize = 0;
            while k < i
                invariant
                    k <= i <= n,
                    n == s@.len(),
                    host@ == s@.take(i as int).take(k as int),
                decreases i - k,
            {
                host.push(s[k]);
                proof {
                    assert(s@.take(i as int).take(k + 1) =~= s@.take(i as int).take(
                        k as int,
                    ).push(s@[k as int]));
                }
                k = k + 1;
            }
            proof {
                assert(host@ =~= s@.take(i as int));
            }
            let port = parse_port(s, i + 1);
            return (host, port);
        }
        i = i + 1;
    }
    proof {
        crate::text::lemma_find_byte_none(s@, 58);
    }
    let mut host: Vec<u8> = Vec::new();
    let mut k: usize = 0;
    while k < n
        invariant
            k <= n,
            n == s@.len(),
            host@ == s@.take(k as int),
        decreases n - k,
    {
        host.push(s[k]);
        proof {
            assert(s@.take(k + 1) =~= s@.take(k as int).push(s@[k as int]));
        }
        k = k + 1;
    }
    proof {
        assert(host@ =~= s@);
    }
    (host, 8529)
}

/// Ten to the `k`.
pub open spec fn tenpow(k: int) -> int
    decreases k,
{
    if k <= 0 {
        1
    } else {
        10 * tenpow(k - 1)
    }
}

/// Read the port digits that follow the colon; fall back to 8529.
fn parse_port(s: &Vec<u8>, from: usize) -> (r: u16)
    requires
        from <= s@.len(),
    ensures
        is_valid_port(s@.skip(from as int)) ==> r == dec_value(s@.skip(from as int)) as u16,
        !is_valid_port(s@.skip(from as int)) ==> r == 8529,
{
    let ghost p = s@.skip(from as int);
    let n = s.len();
    if n - from < 1 || n - from > 5 {
        return 8529;
    }
    let mut v: u32 = 0;
    let mut i: usize = from;
    proof {
        reveal_with_fuel(tenpow, 6);
    }
    while i < n
        invariant
            from <= i <= n,
            n == s@.len(),
            1 <= n - from <= 5,
            p == s@.skip(from as int),
            forall|j: int| from <= j < i ==> is_digit(#[trigger] s@[j]),
            v == dec_value(p.take(i - from as int)),
            v as int <= tenpow(i - from as int) - 1,
        decreases n - i,
    {
        if s[i] < 48 || s[i] > 57 {
            proof {
                assert(p[i - from as int] == s@[i as int]);
            }
            return 8529;
        }
        proof {
            reveal_with_fuel(tenpow, 6);
            assert(p.take(i - from as int + 1).drop_last() =~= p.take(i - from as int));
            assert(p.take(i - from as int + 1).last() == s@[i as int]);
            assert(tenpow(i - from as int) <= 10000);
            assert(tenpow(i - from as int + 1) == 10 * tenpow(i - from as int));
        }
        v = v * 10 + (s[i] - 48) as u32;
        i = i + 1;
    }
    proof {
        assert(p.take(n - from as int) =~= p);
    }
    if v > 65535 {
        return 8529;
    }
    v as u16
}

} // verus!
