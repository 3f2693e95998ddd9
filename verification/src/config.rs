//! The persisted configuration and its on-disk key-value format.
//!
//! A configuration is saved as two `key = value` lines:
//!
//! ```text
//! use_vulkan = false
//! fps_limit = 60
//! ```
//!
//! `save_config` produces exactly this canonical encoding and `load_config`
//! accepts exactly it, so loading a saved configuration always yields the
//! configuration back; anything else is malformed and rejected, which is
//! fatal at startup. Reading and writing the file itself is the caller's
//! business: this module works on the bytes.

use vstd::prelude::*;

verus! {

/// The persisted settings: which GPU backend to prefer and the software
/// frame-rate cap.
#[derive(Clone, Copy, PartialEq, Eq, Structural, Debug)]
pub struct Config {
    pub use_vulkan: bool,
    pub fps_limit: u32,
}

impl Default for Config {
    /// The defaults used when no configuration file exists.
    fn default() -> (r: Config)
        ensures
            r.use_vulkan == false,
            r.fps_limit == 60,
    {
        Config { use_vulkan: false, fps_limit: 60 }
    }
}

/// A persisted configuration that is not the canonical encoding of any
/// configuration; fatal at startup.
#[derive(Clone, Copy, PartialEq, Eq, Structural, Debug)]
pub enum ConfigError {
    Malformed,
}

/// The decimal digits of `n`, most significant first, no leading zeros
/// (a single `0` for zero).
pub open spec fn spec_digits(n: nat) -> Seq<u8>
    decreases n,
{
    if n < 10 {
        seq![(0x30 + n) as u8]
    } else {
        spec_digits(n / 10).push((0x30 + n % 10) as u8)
    }
}

/// The numeric value of one ASCII digit.
pub open spec fn digit_val(c: u8) -> nat {
    if 0x30 <= c <= 0x39 {
        (c - 0x30) as nat
    } else {
        0
    }
}

pub open spec fn is_digit(c: u8) -> bool {
    0x30 <= c <= 0x39
}

pub open spec fn all_digits(s: Seq<u8>) -> bool {
    forall|i: int| 0 <= i < s.len() ==> is_digit(#[trigger] s[i])
}

/// The value of a string of ASCII digits read as a decimal number.
pub open spec fn dec_value(s: Seq<u8>) -> nat
    decreases s.len(),
{
    if s.len() == 0 {
        0
    } else {
        dec_value(s.drop_last()) * 10 + digit_val(s.last())
    }
}

/// `spec_digits(n)` is a nonempty string of digits whose decimal value is
/// `n` again.
pub proof fn lemma_digits_value(n: nat)
    ensures
        spec_digits(n).len() >= 1,
        all_digits(spec_digits(n)),
        dec_value(spec_digits(n)) == n,
    decreases n,
{
    if n < 10 {
        let s = spec_digits(n);
        assert(s.drop_last() =~= Seq::<u8>::empty());
        assert(0x30 + n < 256);
        assert(s.last() == (0x30 + n) as u8);
        assert(digit_val(s.last()) == n);
        assert(dec_value(s) == dec_value(s.drop_last()) * 10 + digit_val(s.last()));
        assert(dec_value(s.drop_last()) == 0);
        assert(dec_value(s) == n);
    } else {
        lemma_digits_value(n / 10);
        let s = spec_digits(n);
        assert(s.drop_last() =~= spec_digits(n / 10));
        assert(0x30 + n % 10 < 256);
        assert(digit_val(s.last()) == n % 10);
        assert(dec_value(s) == (n / 10) * 10 + n % 10);
        assert(dec_value(s) == n);
        assert forall|i: int| 0 <= i < s.len() implies is_digit(#[trigger] s[i]) by {
            if i < s.len() - 1 {
                assert(s[i] == spec_digits(n / 10)[i]);
            }
        }
    }
}

/// A prefix of a digit string never exceeds the whole string's value.
pub proof fn lemma_dec_value_prefix_le(s: Seq<u8>, i: int)
    requires
        0 <= i <= s.len(),
    ensures
        dec_value(s.take(i)) <= dec_value(s),
    decreases s.len() - i,
{
    if i < s.len() {
        lemma_dec_value_prefix_le(s, i + 1);
        assert(s.take(i + 1).drop_last() =~= s.take(i));
        assert(dec_value(s.take(i)) <= dec_value(s.take(i + 1)));
    } else {
        assert(s.take(i) =~= s);
    }
}

/// The decimal digits of `n`, most significant first.
pub fn u32_to_dec(n: u32) -> (r: Vec<u8>)
    ensures
        r@ == spec_digits(n as nat),
    decreases n,
{
    if n < 10 {
        let mut r: Vec<u8> = Vec::new();
        r.push(0x30 + (n as u8));
        proof {
            assert(r@ =~= spec_digits(n as nat));
        }
        r
    } else {
        let mut r = u32_to_dec(n / 10);
        r.push(0x30 + ((n % 10) as u8));
        proof {
            assert(r@ =~= spec_digits(n as nat));
        }
        r
    }
}

/// Parse `s[start..end]` as a decimal `u32`. Succeeds exactly on a nonempty
/// all-digit range whose value fits in a `u32`.
pub fn parse_u32(s: &Vec<u8>, start: usize, end: usize) -> (r: Option<u32>)
    requires
        start <= end <= s@.len(),
    ensures
        match r {
            Some(v) => end > start && all_digits(s@.subrange(start as int, end as int))
                && dec_value(s@.subrange(start as int, end as int)) == v as nat,
            None => !(end > start && all_digits(s@.subrange(start as int, end as int))
                && dec_value(s@.subrange(start as int, end as int)) <= u32::MAX),
        },
{
    let ghost sub = s@.subrange(start as int, end as int);
    if start == end {
        return None;
    }
    let mut acc: u32 = 0;
    let mut i = start;
    proof {
        assert(sub.take(0) =~= Seq::<u8>::empty());
    }
    while i < end
        invariant
            start <= i <= end <= s@.len(),
            sub == s@.subrange(start as int, end as int),
            acc as nat == dec_value(sub.take(i - start)),
            all_digits(sub.take(i - start)),
        decreases end - i,
    {
        let c = s[i];
        proof {
            assert(sub[i - start] == c);
            assert(sub.take(i - start + 1).drop_last() =~= sub.take(i - start));
        }
        if c < 0x30 || c > 0x39 {
            proof {
                assert(!is_digit(sub[i - start]));
            }
            return None;
        }
        let d = c - 0x30;
        let next: u64 = acc as u64 * 10 + d as u64;
        proof {
            assert(next as nat == dec_value(sub.take(i - start + 1)));
        }
        if next > u32::MAX as u64 {
            proof {
                lemma_dec_value_prefix_le(sub, i - start + 1);
            }
            return None;
        }
        acc = next as u32;
        i += 1;
    }
    proof {
        assert(sub.take(end - start) =~= sub);
    }
    Some(acc)
}

/// The bytes of `use_vulkan = `.
pub open spec fn key_use_vulkan() -> Seq<u8> {
    seq![117u8, 115, 101, 95, 118, 117, 108, 107, 97, 110, 32, 61, 32]
}

/// The bytes of `true` or `false`.
pub open spec fn bool_bytes(b: bool) -> Seq<u8> {
    if b {
        seq![116u8, 114, 117, 101]
    } else {
        seq![102u8, 97, 108, 115, 101]
    }
}

/// The bytes of a newline followed by `fps_limit = `.
pub open spec fn key_fps_limit() -> Seq<u8> {
    seq![10u8, 102, 112, 115, 95, 108, 105, 109, 105, 116, 32, 61, 32]
}

/// Everything of the encoding that precedes the frame-rate digits.
pub open spec fn save_prefix(b: bool) -> Seq<u8> {
    key_use_vulkan() + bool_bytes(b) + key_fps_limit()
}

/// The canonical encoding of a configuration.
pub open spec fn spec_save(c: Config) -> Seq<u8> {
    save_prefix(c.use_vulkan) + spec_digits(c.fps_limit as nat) + seq![10u8]
}

/// How the encoding decomposes, seen from its bytes: its length, the byte
/// that decides the boolean, and where the digits sit.
pub proof fn lemma_save_shape(c: Config)
    ensures
        spec_save(c).len() == save_prefix(c.use_vulkan).len()
            + spec_digits(c.fps_limit as nat).len() + 1,
        save_prefix(c.use_vulkan).len() == if c.use_vulkan { 30int } else { 31int },
        spec_save(c).len() >= 32,
        spec_save(c)[13] == if c.use_vulkan { 116u8 } else { 102u8 },
        spec_save(c)[spec_save(c).len() - 1] == 10u8,
        spec_save(c).subrange(save_prefix(c.use_vulkan).len() as int, spec_save(c).len() - 1)
            =~= spec_digits(c.fps_limit as nat),
{
    lemma_digits_value(c.fps_limit as nat);
}

pub fn bytes_eq(a: &Vec<u8>, b: &Vec<u8>) -> (r: bool)
    ensures
        r == (a@ == b@),
{
    if a.len() != b.len() {
        return false;
    }
    let n = a.len();
    let mut i: usize = 0;
    while i < n
        invariant
            n == a@.len() == b@.len(),
            i <= n,
            forall|j: int| 0 <= j < i ==> a@[j] == b@[j],
        decreases n - i,
    {
        if a[i] != b[i] {
            return false;
        }
        i += 1;
    }
    proof {
        assert(a@ =~= b@);
    }
    true
}

/// Encode a configuration in its canonical form.
pub fn save_config(c: &Config) -> (r: Vec<u8>)
    ensures
        r@ == spec_save(*c),
{
    let mut out: Vec<u8> = Vec::new();
    out.push(117);
    out.push(115);
    out.push(101);
    out.push(95);
    out.push(118);
    out.push(117);
    out.push(108);
    out.push(107);
    out.push(97);
    out.push(110);
    out.push(32);
    out.push(61);
    out.push(32);
    proof {
        assert(out@ =~= key_use_vulkan());
    }
    if c.use_vulkan {
        out.push(116);
        out.push(114);
        out.push(117);
        out.push(101);
    } else {
        out.push(102);
        out.push(97);
        out.push(108);
        out.push(115);
        out.push(101);
    }
    proof {
        assert(out@ =~= key_use_vulkan() + bool_bytes(c.use_vulkan));
    }
    out.push(10);
    out.push(102);
    out.push(112);
    out.push(115);
    out.push(95);
    out.push(108);
    out.push(105);
    out.push(109);
    out.push(105);
    out.push(116);
    out.push(32);
    out.push(61);
    out.push(32);
    proof {
        assert(out@ =~= save_prefix(c.use_vulkan));
    }
    let ghost pre = out@;
    let digits = u32_to_dec(c.fps_limit);
    let m = digits.len();
    let mut k: usize = 0;
    proof {
        assert(out@ =~= pre + digits@.take(0));
    }
    while k < m
        invariant
            m == digits@.len(),
            k <= m,
            out@ == pre + digits@.take(k as int),
        decreases m - k,
    {
        out.push(digits[k]);
        proof {
            assert(pre + digits@.take(k + 1) =~= (pre + digits@.take(k as int)).push(
                digits@[k as int]));
        }
        k += 1;
    }
    proof {
        assert(digits@.take(m as int) =~= digits@);
    }
    out.push(10);
    proof {
        assert(out@ =~= spec_save(*c));
    }
    out
}

/// Decode a persisted configuration. Succeeds exactly on the canonical
/// encoding of some configuration — which loading the output of
/// `save_config` for any configuration always is, so a saved configuration
/// loads back unchanged — and anything else is malformed.
pub fn load_config(s: &Vec<u8>) -> (r: Result<Config, ConfigError>)
    ensures
        forall|c: Config| s@ == spec_save(c) ==> r == Result::<Config, ConfigError>::Ok(c),
        r matches Ok(c) ==> s@ == spec_save(c),
{
    if s.len() < 32 {
        proof {
            assert forall|c: Config| s@ != spec_save(c) by {
                lemma_save_shape(c);
            }
        }
        return Err(ConfigError::Malformed);
    }
    let b: bool;
    if s[13] == 116 {
        b = true;
    } else if s[13] == 102 {
        b = false;
    } else {
        proof {
            assert forall|c: Config| s@ != spec_save(c) by {
                lemma_save_shape(c);
            }
        }
        return Err(ConfigError::Malformed);
    }
    let digits_start: usize = if b { 30 } else { 31 };
    let digits_end: usize = s.len() - 1;
    if digits_end <= digits_start {
        proof {
            assert forall|c: Config| s@ != spec_save(c) by {
                lemma_save_shape(c);
                if s@ == spec_save(c) {
                    assert(c.use_vulkan == b);
                }
            }
        }
        return Err(ConfigError::Malformed);
    }
    let parsed = parse_u32(s, digits_start, digits_end);
    match parsed {
        None => {
            proof {
                assert forall|c: Config| s@ != spec_save(c) by {
                    lemma_save_shape(c);
                    lemma_digits_value(c.fps_limit as nat);
                    if s@ == spec_save(c) {
                        assert(c.use_vulkan == b);
                        assert(s@.subrange(digits_start as int, digits_end as int)
                            =~= spec_digits(c.fps_limit as nat));
                    }
                }
            }
            Err(ConfigError::Malformed)
        }
        Some(n) => {
            let candidate = Config { use_vulkan: b, fps_limit: n };
            let expected = save_config(&candidate);
            if bytes_eq(s, &expected) {
                proof {
                    assert forall|c: Config| s@ == spec_save(c)
                        implies c == candidate by {
                        lemma_save_shape(c);
                        lemma_save_shape(candidate);
                        lemma_digits_value(c.fps_limit as nat);
                        lemma_digits_value(candidate.fps_limit as nat);
                        assert(c.use_vulkan == candidate.use_vulkan);
                        assert(spec_digits(c.fps_limit as nat)
                            =~= spec_digits(candidate.fps_limit as nat));
                        assert(c.fps_limit == candidate.fps_limit);
                    }
                }
                Ok(candidate)
            } else {
                proof {
                    assert forall|c: Config| s@ != spec_save(c) by {
                        lemma_save_shape(c);
                        lemma_save_shape(candidate);
                        lemma_digits_value(c.fps_limit as nat);
                        lemma_digits_value(candidate.fps_limit as nat);
                        if s@ == spec_save(c) {
                            assert(c.use_vulkan == b);
                            assert(s@.subrange(digits_start as int, digits_end as int)
                                =~= spec_digits(c.fps_limit as nat));
                            assert(dec_value(spec_digits(c.fps_limit as nat)) == n as nat);
                            assert(c.fps_limit == n);
                            assert(c == candidate);
                        }
                    }
                }
                Err(ConfigError::Malformed)
            }
        }
    }
}

} // verus!
