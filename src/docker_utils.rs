//! Reading the container engine's state out of its service manager's
//! status report.
use vstd::prelude::*;
use vstd::utf8::encode_utf8;
use crate::bytes::bytes_starts_with;

verus! {

/// The first position at or after `k` where `pat` occurs in `s`, or -1.
pub open spec fn find_from(s: Seq<u8>, pat: Seq<u8>, k: int) -> int
    decreases s.len() + 1 - k,
{
    if k < 0 || k + pat.len() > s.len() {
        -1
    } else if s.subrange(k, k + pat.len()) == pat {
        k
    } else {
        find_from(s, pat, k + 1)
    }
}

/// The bytes of `Active: `.
pub open spec fn active_label() -> Seq<u8> {
    seq![65u8, 99u8, 116u8, 105u8, 118u8, 101u8, 58u8, 32u8]
}

/// The bytes of `active`.
pub open spec fn active_word() -> Seq<u8> {
    seq![97u8, 99u8, 116u8, 105u8, 118u8, 101u8]
}

/// The bytes of `inactive`.
pub open spec fn inactive_word() -> Seq<u8> {
    seq![105u8, 110u8, 97u8, 99u8, 116u8, 105u8, 118u8, 101u8]
}

/// The engine's state in a status report: the word between the first
/// `Active: ` and the next space, `active` (running) or `inactive`
/// (stopped); nothing for any other report.
pub open spec fn engine_status(s: Seq<u8>) -> Option<bool> {
    let a = find_from(s, active_label(), 0);
    if a < 0 {
        None
    } else {
        let rest = s.subrange(a + 8, s.len() as int);
        let sp = find_from(rest, seq![32u8], 0);
        if sp < 0 {
            None
        } else {
            let word = rest.subrange(0, sp);
            if word == active_word() {
                Some(true)
            } else if word == inactive_word() {
                Some(false)
            } else {
                None
            }
        }
    }
}

fn find(s: &[u8], pat: &[u8]) -> (r: Option<usize>)
    ensures
        match r {
            Some(k) => k as int == find_from(s@, pat@, 0) && k + pat@.len() <= s@.len(),
            None => find_from(s@, pat@, 0) == -1,
        },
{
    let mut k: usize = 0;
    while pat.len() <= s.len() - k
        invariant
            find_from(s@, pat@, 0) == find_from(s@, pat@, k as int),
            k <= s@.len(),
        decreases s@.len() - k,
    {
        let tail = &s[k..s.len()];
        if bytes_starts_with(tail, pat) {
            assert(tail@.subrange(0, pat@.len() as int) =~= s@.subrange(k as int, k + pat@.len()));
            return Some(k);
        }
        assert(tail@.subrange(0, pat@.len() as int) =~= s@.subrange(k as int, k + pat@.len()));
        if k == s.len() {
            assert(pat@.len() > 0) by {
                if pat@.len() == 0 {
                    assert(s@.subrange(k as int, k as int) =~= pat@);
                }
            }
            return None;
        }
        k = k + 1;
    }
    None
}

/// Whether the report says the engine is running (`Some(true)`), stopped
/// (`Some(false)`), or cannot be read (`None`).
pub fn parse_engine_status(report: &str) -> (r: Option<bool>)
    ensures
        r == engine_status(encode_utf8(report@)),
{
    let s = report.as_bytes();
    let label: [u8; 8] = [65, 99, 116, 105, 118, 101, 58, 32];
    let active: [u8; 6] = [97, 99, 116, 105, 118, 101];
    let inactive: [u8; 8] = [105, 110, 97, 99, 116, 105, 118, 101];
    let space: [u8; 1] = [32];
    assert(label@ =~= active_label());
    assert(active@ =~= active_word());
    assert(inactive@ =~= inactive_word());
    assert(space@ =~= seq![32u8]);
    let label_bytes = label.as_slice();
    assert(label_bytes@.len() == 8);
    let a = match find(s, label_bytes) {
        Some(a) => a,
        None => {
            return None;
        },
    };
    let n = s.len();
    let rest = &s[a + 8..n];
    let sp = match find(rest, space.as_slice()) {
        Some(sp) => sp,
        None => {
            return None;
        },
    };
    let word = &rest[0..sp];
    if word.len() == 6 && bytes_starts_with(word, active.as_slice()) {
        assert(word@ =~= word@.subrange(0, 6));
        Some(true)
    } else if word.len() == 8 && bytes_starts_with(word, inactive.as_slice()) {
        assert(word@ =~= word@.subrange(0, 8));
        Some(false)
    } else {
        proof {
            if word@ == active_word() {
                assert(word@.subrange(0, 6) =~= word@);
            }
            if word@ == inactive_word() {
                assert(word@.subrange(0, 8) =~= word@);
            }
        }
        None
    }
}

} // verus!
