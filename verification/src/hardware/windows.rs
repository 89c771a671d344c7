//! The Windows backends: WMI and AMD are placeholders that list no fans and
//! refuse control; NVIDIA reads `nvidia-smi` output. Running `nvidia-smi` is
//! the caller's part.

use vstd::prelude::*;
use crate::hardware::error::FanError;
use crate::hardware::types::{FanInfo, FanInfoView, FanMode, FanType};
use crate::hardware::linux::{infos_view, strs_view};
use crate::setup::{lemma_line_len, line_len};
use crate::text::{
    all_digits, dec_value, is_digit, unsigned_digits, dec_seq, decimal, find_char_from, find_from, parse_failure, parse_failure_spec, parse_unsigned,
    parse_unsigned_spec, push_decimal,
    starts_with, starts_with_spec, substring, trim, trim_spec, trim_start_matches,
    trim_start_matches_spec,
};

verus! {

// ─── WMI backend (system fans) ──────────────────────────────────────────────

/// The WMI backend: it lists no fans and cannot control any.
pub struct WmiBackend;

impl WmiBackend {
    /// The backend.
    pub fn new() -> (b: Self) {
        WmiBackend
    }

    /// The backend's name.
    pub fn name(&self) -> (n: &'static str)
        ensures
            n@ == "wmi"@,
    {
        "wmi"
    }

    /// The fans WMI lists: none.
    pub fn scan(&mut self) -> (fans: Vec<FanInfo>)
        ensures
            fans@.len() == 0,
    {
        Vec::new()
    }

    /// Setting a speed through WMI is not supported.
    pub fn set_speed_pct(&mut self, fan_id: &str, pct: u8) -> (r: Result<(), FanError>)
        ensures
            r == Err::<(), FanError>(FanError::WmiUnsupported),
    {
        Err(FanError::WmiUnsupported)
    }

    /// Resetting a fan through WMI is not supported.
    pub fn reset_to_auto(&mut self, fan_id: &str) -> (r: Result<(), FanError>)
        ensures
            r == Err::<(), FanError>(FanError::WmiUnsupported),
    {
        Err(FanError::WmiUnsupported)
    }
}

// ─── AMD (Windows) ──────────────────────────────────────────────────────────

/// The AMD backend on Windows: it lists no fans and cannot control any.
pub struct AmdBackend;

impl AmdBackend {
    /// The backend.
    pub fn new() -> (b: Self) {
        AmdBackend
    }

    /// The backend's name.
    pub fn name(&self) -> (n: &'static str)
        ensures
            n@ == "amd_win"@,
    {
        "amd_win"
    }

    /// The fans it lists: none.
    pub fn scan(&mut self) -> (fans: Vec<FanInfo>)
        ensures
            fans@.len() == 0,
    {
        Vec::new()
    }

    /// Setting a speed is not supported.
    pub fn set_speed_pct(&mut self, fan_id: &str, pct: u8) -> (r: Result<(), FanError>)
        ensures
            r == Err::<(), FanError>(FanError::AmdWindowsUnsupported),
    {
        Err(FanError::AmdWindowsUnsupported)
    }

    /// Resetting a fan is not supported.
    pub fn reset_to_auto(&mut self, fan_id: &str) -> (r: Result<(), FanError>)
        ensures
            r == Err::<(), FanError>(FanError::AmdWindowsUnsupported),
    {
        Err(FanError::AmdWindowsUnsupported)
    }
}

// ─── NVIDIA (Windows) ───────────────────────────────────────────────────────

/// The NVIDIA backend on Windows, available when `nvidia-smi` ran successfully.
pub struct NvidiaBackend {
    available: bool,
}

/// A line without the carriage return of a CR LF line ending.
pub open spec fn strip_cr(l: Seq<char>) -> Seq<char> {
    if l.len() > 0 && l.last() == '\r' {
        l.drop_last()
    } else {
        l
    }
}

/// The lines of a text, as `str::lines` gives them.
pub open spec fn text_lines(s: Seq<char>) -> Seq<Seq<char>>
    decreases s.len(),
{
    if s.len() == 0 {
        Seq::empty()
    } else {
        let e = line_len(s);
        if e < s.len() {
            proof {
                lemma_line_len(s);
            }
            seq![strip_cr(s.take(e as int))] + text_lines(s.skip(e + 1 as int))
        } else {
            seq![s]
        }
    }
}

/// The three trimmed comma-separated fields of a line, when it has exactly three.
pub open spec fn csv3(l: Seq<char>) -> Option<(Seq<char>, Seq<char>, Seq<char>)> {
    match find_from(l, ',', 0) {
        None => None,
        Some(c1) => match find_from(l, ',', c1 + 1) {
            None => None,
            Some(c2) => match find_from(l, ',', c2 + 1) {
                Some(_) => None,
                None => Some(
                    (
                        trim_spec(l.subrange(0, c1)),
                        trim_spec(l.subrange(c1 + 1, c2)),
                        trim_spec(l.subrange(c2 + 1, l.len() as int)),
                    ),
                ),
            },
        },
    }
}

/// Ten to the power `n`.
pub open spec fn pow10(n: nat) -> nat
    decreases n,
{
    if n == 0 {
        1
    } else {
        10 * pow10((n - 1) as nat)
    }
}

/// The number whose decimal digits are `ds`, times ten to the power `k`, with
/// the digits that fall after the decimal point dropped.
pub open spec fn scaled_value(ds: Seq<char>, k: int) -> nat {
    if k >= 0 {
        dec_value(ds) * pow10(k as nat)
    } else if ds.len() + k > 0 {
        dec_value(ds.take(ds.len() + k))
    } else {
        0
    }
}

/// A number split at its exponent marker (the first `e`, else the first `E`):
/// the mantissa and the exponent text, if there is one.
pub open spec fn exp_split(body: Seq<char>) -> (Seq<char>, Option<Seq<char>>) {
    match find_from(body, 'e', 0) {
        Some(i) => (body.take(i), Some(body.skip(i + 1))),
        None => match find_from(body, 'E', 0) {
            Some(i) => (body.take(i), Some(body.skip(i + 1))),
            None => (body, None),
        },
    }
}

/// The exponent of a number: 0 without an exponent, else an optional sign
/// followed by one or more digits.
pub open spec fn exponent_spec(t: Option<Seq<char>>) -> Option<int> {
    match t {
        None => Some(0),
        Some(t) => {
            let ds = unsigned_part(t);
            if ds.len() >= 1 && all_digits(ds) {
                if t[0] == '-' {
                    Some(-(dec_value(ds) as int))
                } else {
                    Some(dec_value(ds) as int)
                }
            } else {
                None
            }
        },
    }
}

/// The text after an optional leading sign.
pub open spec fn unsigned_part(s: Seq<char>) -> Seq<char> {
    if s.len() > 0 && (s[0] == '-' || s[0] == '+') {
        s.skip(1)
    } else {
        s
    }
}

/// The digits before and after the decimal point of an unsigned number.
pub open spec fn point_parts(body: Seq<char>) -> (Seq<char>, Seq<char>) {
    match find_from(body, '.', 0) {
        Some(d) => (body.take(d), body.skip(d + 1)),
        None => (body, Seq::empty()),
    }
}

/// A temperature in degrees as `nvidia-smi` prints it, in millidegrees, as a
/// decimal floating-point parse reads it: an optional sign, digits with an
/// optional decimal point and a digit on at least one side of it, then an
/// optional exponent (`e` or `E`, an optional sign, one or more digits).
/// Digits that fall past the third after the point are dropped. `inf`, `NaN`
/// and numbers beyond `i64` in millidegrees give `None`, as does anything else.
pub open spec fn milli_degrees_spec(s: Seq<char>) -> Option<i64> {
    let (mant, exp) = exp_split(unsigned_part(s));
    let (whole, frac) = point_parts(mant);
    if all_digits(whole) && all_digits(frac) && whole.len() + frac.len() >= 1 && exponent_spec(exp) is Some {
        let m = scaled_value(whole + frac, exponent_spec(exp)->0 + 3 - frac.len());
        if m <= i64::MAX {
            if s[0] == '-' {
                Some((-m) as i64)
            } else {
                Some(m as i64)
            }
        } else {
            None
        }
    } else {
        None
    }
}

proof fn lemma_pow10_grows(i: nat, k: nat)
    requires
        i <= k,
    ensures
        pow10(i) <= pow10(k),
        i < k ==> 10 * pow10(i) <= pow10(k),
        pow10(i) >= 1,
    decreases k,
{
    if k > 0 && i < k {
        lemma_pow10_grows(i, (k - 1) as nat);
    }
    if i > 0 && i == k {
        lemma_pow10_grows((i - 1) as nat, (i - 1) as nat);
    }
}

/// Decimal digits have a value below ten to the power of their count.
proof fn lemma_dec_value_below(ds: Seq<char>)
    requires
        all_digits(ds),
    ensures
        dec_value(ds) < pow10(ds.len()),
    decreases ds.len(),
{
    if ds.len() > 0 {
        let t = ds.drop_last();
        assert(all_digits(t)) by {
            assert forall|q: int| 0 <= q < t.len() implies is_digit(#[trigger] t[q]) by {
                assert(t[q] == ds[q]);
            }
        }
        lemma_dec_value_below(t);
        assert(is_digit(ds[ds.len() - 1]));
        assert(dec_value(ds) == dec_value(t) * 10 + crate::text::digit_value(ds.last()));
        assert(pow10(ds.len()) == 10 * pow10(t.len()));
    }
}

proof fn lemma_pow10_19()
    ensures
        pow10(19) == 10_000_000_000_000_000_000,
{
    reveal_with_fuel(pow10, 20);
}

/// Whether every character of `s` is a decimal digit.
fn all_digit_chars(s: &str) -> (b: bool)
    ensures
        b == all_digits(s@),
{
    let n = s.unicode_len();
    let mut i: usize = 0;
    while i < n
        invariant
            n == s@.len(),
            i <= n,
            forall|k: int| 0 <= k < i ==> is_digit(#[trigger] s@[k]),
        decreases n - i,
    {
        let c = s.get_char(i);
        if !('0' <= c && c <= '9') {
            assert(!is_digit(s@[i as int]));
            return false;
        }
        i = i + 1;
    }
    true
}

/// The value of a nonempty string of digits, when it is at most `max`.
fn digits_value(s: &str, max: u64) -> (r: Option<u64>)
    requires
        all_digits(s@),
        s@.len() >= 1,
    ensures
        match r {
            Some(v) => v == dec_value(s@) && v <= max,
            None => dec_value(s@) > max,
        },
{
    proof {
        assert(is_digit(s@[0]));
        assert(unsigned_digits(s@) == s@);
    }
    parse_unsigned(s, max)
}

/// The number with decimal digits `ds`, times ten to the power `k`, with the
/// digits that fall after the decimal point dropped, when it is at most `i64::MAX`.
fn scaled(ds: &str, k: i128) -> (r: Option<u64>)
    requires
        all_digits(ds@),
    ensures
        match r {
            Some(v) => v == scaled_value(ds@, k as int) && v <= i64::MAX,
            None => scaled_value(ds@, k as int) > i64::MAX,
        },
{
    let max: u64 = 0x7fff_ffff_ffff_ffff;
    let l = ds.unicode_len();
    if k >= 0 {
        if l == 0 {
            assert(dec_value(ds@) == 0);
            return Some(0);
        }
        proof {
            lemma_pow10_grows(0, k as nat);
        }
        let v = match digits_value(ds, max) {
            Some(v) => v,
            None => {
                proof {
                    let d = dec_value(ds@);
                    let p = pow10(k as nat);
                    assert(d * p >= d) by (nonlinear_arith)
                        requires
                            p >= 1,
                    ;
                }
                return None;
            },
        };
        if v == 0 {
            assert(0 * pow10(k as nat) == 0);
            return Some(0);
        }
        let mut cur: u64 = v;
        let mut i: i128 = 0;
        assert(pow10(0) == 1);
        assert(v * pow10(0) == v);
        while i < k
            invariant
                0 <= i <= k,
                v >= 1,
                v as nat == dec_value(ds@),
                cur as int == v * pow10(i as nat),
                cur <= max,
                max == i64::MAX,
            decreases k - i,
        {
            if cur > max / 10 {
                proof {
                    lemma_pow10_grows(i as nat, k as nat);
                    let a = pow10(i as nat);
                    let b = pow10(k as nat);
                    assert(v * b >= 10 * (v * a)) by (nonlinear_arith)
                        requires
                            10 * a <= b,
                            v >= 1,
                    ;
                }
                return None;
            }
            proof {
                assert(pow10((i + 1) as nat) == 10 * pow10(i as nat));
                assert(v * (10 * pow10(i as nat)) == 10 * (v * pow10(i as nat))) by (nonlinear_arith);
            }
            cur = cur * 10;
            i = i + 1;
        }
        Some(cur)
    } else {
        let j: i128 = l as i128 + k;
        if j <= 0 {
            return Some(0);
        }
        let t = substring(ds, 0, j as usize);
        proof {
            assert(t@ =~= ds@.take(ds@.len() + k));
            assert forall|q: int| 0 <= q < t@.len() implies is_digit(#[trigger] t@[q]) by {
                assert(t@[q] == ds@[q]);
            }
        }
        digits_value(t.as_str(), max)
    }
}

/// The magnitude, in millidegrees, of a number with decimal digits `digits`,
/// the last `fl` of them after the point, and the exponent with digits `eds`
/// (negative when `eneg`), when it is at most `i64::MAX`.
fn exp_magnitude(digits: &str, fl: usize, eneg: bool, eds: &str) -> (r: Option<u64>)
    requires
        all_digits(digits@),
        all_digits(eds@),
        eds@.len() >= 1,
        fl <= digits@.len(),
        digits@.len() + eds@.len() + 1 <= usize::MAX,
    ensures
        ({
            let e = if eneg { -(dec_value(eds@) as int) } else { dec_value(eds@) as int };
            match r {
                Some(v) => v == scaled_value(digits@, e + 3 - fl) && v <= i64::MAX,
                None => scaled_value(digits@, e + 3 - fl) > i64::MAX,
            }
        }),
{
    let ghost e = if eneg { -(dec_value(eds@) as int) } else { dec_value(eds@) as int };
    let max: u64 = 0x7fff_ffff_ffff_ffff;
    let dl = digits.unicode_len();
    match digits_value(eds, u64::MAX) {
        Some(ex) => {
            let k: i128 = if eneg {
                3 - (ex as i128) - fl as i128
            } else {
                3 + (ex as i128) - fl as i128
            };
            scaled(digits, k)
        },
        None => {
            proof {
                lemma_dec_value_below(eds@);
                if eds@.len() <= 19 {
                    lemma_pow10_grows(eds@.len(), 19);
                    lemma_pow10_19();
                }
                assert(eds@.len() >= 20);
                assert(usize::MAX <= u64::MAX);
            }
            if eneg {
                assert(digits@.len() + (e + 3 - fl) <= 0);
                Some(0)
            } else if dl == 0 {
                assert(dec_value(digits@) == 0);
                assert(0 * pow10((e + 3 - fl) as nat) == 0);
                Some(0)
            } else {
                match digits_value(digits, max) {
                    Some(v) => {
                        if v == 0 {
                            assert(0 * pow10((e + 3 - fl) as nat) == 0);
                            Some(0)
                        } else {
                            proof {
                                let k = (e + 3 - fl) as nat;
                                assert(k >= 19);
                                lemma_pow10_grows(19, k);
                                lemma_pow10_19();
                                let p = pow10(k);
                                assert(v * p >= p) by (nonlinear_arith)
                                    requires
                                        v >= 1,
                                        p >= 1,
                                ;
                            }
                            None
                        }
                    },
                    None => {
                        proof {
                            let k = (e + 3 - fl) as nat;
                            lemma_pow10_grows(0, k);
                            let d = dec_value(digits@);
                            let p = pow10(k);
                            assert(d * p >= d) by (nonlinear_arith)
                                requires
                                    p >= 1,
                            ;
                        }
                        None
                    },
                }
            }
        },
    }
}

/// The optional view of an optional string.
pub open spec fn opt_string_view(t: Option<String>) -> Option<Seq<char>> {
    match t {
        Some(t) => Some(t@),
        None => None,
    }
}

/// The mantissa and exponent text of a number after its sign.
fn split_exponent(body: &str) -> (r: (String, Option<String>))
    ensures
        r.0@ == exp_split(body@).0,
        opt_string_view(r.1) == exp_split(body@).1,
        r.0@.len() + (match r.1 {
            Some(t) => t@.len() + 1,
            None => 0nat,
        }) <= body@.len(),
{
    let bl = body.unicode_len();
    match find_char_from(body, 'e', 0) {
        Some(i) => {
            proof {
                crate::text::lemma_find_from_props(body@, 'e', 0);
            }
            (substring(body, 0, i), Some(substring(body, i + 1, bl)))
        },
        None => match find_char_from(body, 'E', 0) {
            Some(i) => {
                proof {
                    crate::text::lemma_find_from_props(body@, 'E', 0);
                }
                (substring(body, 0, i), Some(substring(body, i + 1, bl)))
            },
            None => {
                let m = substring(body, 0, bl);
                assert(m@ =~= body@);
                (m, None)
            },
        },
    }
}

/// The digits before and after the decimal point of a mantissa.
fn split_point(mant: &str) -> (r: (String, String))
    ensures
        r.0@ == point_parts(mant@).0,
        r.1@ == point_parts(mant@).1,
        r.0@.len() + r.1@.len() <= mant@.len(),
{
    let m = mant.unicode_len();
    match find_char_from(mant, '.', 0) {
        Some(d) => {
            proof {
                crate::text::lemma_find_from_props(mant@, '.', 0);
            }
            (substring(mant, 0, d), substring(mant, d + 1, m))
        },
        None => {
            let w = substring(mant, 0, m);
            assert(w@ =~= mant@);
            (w, String::new())
        },
    }
}

/// A text without its leading sign, and whether that sign is `-`.
fn split_sign(s: &str) -> (r: (bool, String))
    ensures
        r.0 == (s@.len() > 0 && s@[0] == '-'),
        r.1@ == unsigned_part(s@),
{
    let n = s.unicode_len();
    let mut start: usize = 0;
    let mut neg = false;
    if n > 0 {
        let c = s.get_char(0);
        if c == '-' {
            neg = true;
            start = 1;
        } else if c == '+' {
            start = 1;
        }
    }
    let body = substring(s, start, n);
    assert(body@ =~= unsigned_part(s@));
    (neg, body)
}

/// A temperature in degrees, as `nvidia-smi` prints it, in millidegrees.
pub fn milli_degrees(s: &str) -> (r: Option<i64>)
    ensures
        r == milli_degrees_spec(s@),
{
    let n = s.unicode_len();
    let (neg, body) = split_sign(s);
    assert(body@.len() <= n);
    let (mant, exp_text) = split_exponent(body.as_str());
    let (whole, frac) = split_point(mant.as_str());
    if !all_digit_chars(whole.as_str()) || !all_digit_chars(frac.as_str()) {
        return None;
    }
    let wl = whole.as_str().unicode_len();
    let fl = frac.as_str().unicode_len();
    if wl == 0 && fl == 0 {
        return None;
    }
    let mut digits = substring(whole.as_str(), 0, wl);
    digits.append(frac.as_str());
    proof {
        assert(digits@ =~= whole@ + frac@);
        assert forall|q: int| 0 <= q < digits@.len() implies is_digit(#[trigger] digits@[q]) by {
            if q < wl {
                assert(digits@[q] == whole@[q]);
            } else {
                assert(digits@[q] == frac@[q - wl]);
            }
        }
    }
    let ghost ev = opt_string_view(exp_text);
    let mag: Option<u64> = match exp_text {
        None => scaled(digits.as_str(), 3 - fl as i128),
        Some(t) => {
            let (eneg, eds) = split_sign(t.as_str());
            if eds.as_str().unicode_len() == 0 || !all_digit_chars(eds.as_str()) {
                return None;
            }
            proof {
                assert(unsigned_part(t@).len() <= t@.len());
            }
            exp_magnitude(digits.as_str(), fl, eneg, eds.as_str())
        },
    };
    match mag {
        Some(v) => {
            let mv = v as i64;
            if neg {
                Some(-mv)
            } else {
                Some(mv)
            }
        },
        None => None,
    }
}

/// The fan line `i` of `nvidia-smi` output stands for: `name, speed, temperature`.
/// The speed is a whole number and the temperature a decimal one (see
/// `milli_degrees_spec`); a field that is neither reads as unknown.
pub open spec fn smi_line_fan(l: Seq<char>, i: nat) -> Option<FanInfoView> {
    match csv3(l) {
        None => None,
        Some((name, speed, temp)) => Some(
            FanInfoView {
                id: "nvidia:"@ + dec_seq(i),
                label: name + " Fan"@,
                fan_type: FanType::Nvidia,
                mode: FanMode::Auto,
                rpm: None,
                speed_pct: match parse_unsigned_spec(speed, u8::MAX as nat) {
                    Some(v) => Some(v as u8),
                    None => None,
                },
                temp_milli_c: milli_degrees_spec(temp),
                curve: Seq::empty(),
                rpm_min: None,
                rpm_max: None,
                controllable: true,
                is_pump: false,
            },
        ),
    }
}

/// The fans listed in the given lines of `nvidia-smi` output.
pub open spec fn smi_fans(ls: Seq<Seq<char>>) -> Seq<FanInfoView>
    decreases ls.len(),
{
    if ls.len() == 0 {
        Seq::empty()
    } else {
        let prev = smi_fans(ls.drop_last());
        match smi_line_fan(ls.last(), (ls.len() - 1) as nat) {
            Some(f) => prev.push(f),
            None => prev,
        }
    }
}

/// The index in an id `nvidia:{i}`.
pub open spec fn win_nvidia_index_spec(id: Seq<char>) -> Result<u32, FanError> {
    if !starts_with_spec(id, "nvidia:"@) {
        Err(FanError::NotNvidia)
    } else {
        let rest = trim_start_matches_spec(id, "nvidia:"@);
        match parse_unsigned_spec(rest, u32::MAX as nat) {
            Some(v) => Ok(v as u32),
            None => Err(FanError::InvalidNumber(parse_failure_spec(rest, u32::MAX as nat))),
        }
    }
}

/// The `nvidia-smi` arguments that set GPU `idx` to `pct` percent: first
/// enable manual fan control, then set the speed.
pub struct SmiSpeedCommands {
    pub enable_args: Vec<String>,
    pub speed_args: Vec<String>,
}

/// The fan of one line of `nvidia-smi` output.
fn smi_line(line: &str, i: usize) -> (r: Option<FanInfo>)
    ensures
        match r {
            Some(f) => smi_line_fan(line@, i as nat) == Some(f@),
            None => smi_line_fan(line@, i as nat) is None,
        },
{
    let n = line.unicode_len();
    let c1 = match find_char_from(line, ',', 0) {
        Some(c) => c,
        None => {
            return None;
        },
    };
    proof {
        crate::text::lemma_find_from_props(line@, ',', 0);
    }
    let c2 = match find_char_from(line, ',', c1 + 1) {
        Some(c) => c,
        None => {
            return None;
        },
    };
    proof {
        crate::text::lemma_find_from_props(line@, ',', c1 + 1);
    }
    if find_char_from(line, ',', c2 + 1).is_some() {
        return None;
    }
    let name = trim(substring(line, 0, c1).as_str());
    let speed = trim(substring(line, c1 + 1, c2).as_str());
    let temp = trim(substring(line, c2 + 1, n).as_str());
    let speed_pct = match parse_unsigned(speed.as_str(), u8::MAX as u64) {
        Some(v) => Some(v as u8),
        None => None,
    };
    let temp_milli_c = milli_degrees(temp.as_str());
    let mut id = String::from_str("nvidia:");
    push_decimal(&mut id, i as u64);
    let mut label = name;
    label.append(" Fan");
    Some(
        FanInfo {
            id,
            label,
            fan_type: FanType::Nvidia,
            mode: FanMode::Auto,
            rpm: None,
            speed_pct,
            temp_milli_c,
            curve: Vec::new(),
            rpm_min: None,
            rpm_max: None,
            controllable: true,
            is_pump: false,
        },
    )
}

impl NvidiaBackend {
    /// Whether `nvidia-smi` ran successfully.
    pub closed spec fn available_spec(&self) -> bool {
        self.available
    }

    /// The backend; `available` tells whether `nvidia-smi` ran successfully.
    pub fn new(available: bool) -> (b: Self)
        ensures
            b.available_spec() == available,
    {
        NvidiaBackend { available }
    }

    /// The backend's name.
    pub fn name(&self) -> (n: &'static str)
        ensures
            n@ == "nvidia_win"@,
    {
        "nvidia_win"
    }

    /// Whether `nvidia-smi` ran successfully.
    pub fn is_available(&self) -> (b: bool)
        ensures
            b == self.available_spec(),
    {
        self.available
    }

    /// The fans in the output of `nvidia-smi
    /// --query-gpu=name,fan.speed,temperature.gpu --format=csv,noheader,nounits`:
    /// one per line with exactly three fields, numbered by line; none when the
    /// backend is not available.
    pub fn scan(&self, output: &str) -> (fans: Vec<FanInfo>)
        ensures
            !self.available_spec() ==> fans@.len() == 0,
            self.available_spec() ==> infos_view(fans@) == smi_fans(text_lines(output@)),
    {
        let mut fans: Vec<FanInfo> = Vec::new();
        if !self.available {
            return fans;
        }
        let n = output.unicode_len();
        let mut start: usize = 0;
        let mut i: usize = 0;
        let ghost mut done: Seq<Seq<char>> = Seq::empty();
        assert(output@.skip(0) =~= output@);
        assert(text_lines(output@) =~= done + text_lines(output@.skip(0)));
        while start < n
            invariant
                n == output@.len(),
                start <= n,
                i == done.len(),
                i <= start,
                text_lines(output@) == done + text_lines(output@.skip(start as int)),
                infos_view(fans@) == smi_fans(done),
            decreases n - start,
        {
            let ghost rest = output@.skip(start as int);
            let end = match find_char_from(output, '\n', start) {
                Some(e) => e,
                None => n,
            };
            proof {
                crate::text::lemma_find_from_props(output@, '\n', start as int);
                lemma_line_len(rest);
                assert forall|k: int| 0 <= k < end - start implies rest[k] != '\n' by {
                    assert(rest[k] == output@[start + k]);
                }
                if end < n {
                    assert(rest[end - start] == '\n');
                }
                if line_len(rest) < end - start {
                    assert(rest[line_len(rest) as int] == '\n');
                }
                if line_len(rest) > end - start {
                    assert(rest[end - start] != '\n');
                }
                assert(line_len(rest) == end - start);
                assert(rest.take(end - start) =~= output@.subrange(start as int, end as int));
            }
            let mut line_end = end;
            if end < n && end > start && output.get_char(end - 1) == '\r' {
                line_end = end - 1;
            }
            let line = substring(output, start, line_end);
            let ghost lv = if end < n { strip_cr(rest.take(end - start)) } else { rest };
            proof {
                if end < n {
                    assert(line@ =~= lv);
                    assert(text_lines(rest) == seq![lv] + text_lines(rest.skip(end - start + 1)));
                    assert(rest.skip(end - start + 1) =~= output@.skip(end + 1));
                } else {
                    assert(rest =~= output@.subrange(start as int, n as int));
                    assert(line@ =~= lv);
                    assert(text_lines(rest) == seq![lv]);
                }
            }
            let ghost old_fans = fans@;
            match smi_line(line.as_str(), i) {
                Some(f) => {
                    fans.push(f);
                    proof {
                        assert(infos_view(fans@) =~= infos_view(old_fans).push(fans@.last()@));
                    }
                },
                None => {},
            }
            proof {
                let nd = done.push(lv);
                assert(nd.drop_last() =~= done);
                assert(nd.last() == lv);
                assert(infos_view(fans@) == smi_fans(nd));
                if end < n {
                    assert(text_lines(output@) =~= nd + text_lines(output@.skip(end + 1)));
                } else {
                    assert(output@.skip(n as int) =~= Seq::<char>::empty());
                    assert(text_lines(output@) =~= nd + text_lines(output@.skip(n as int)));
                }
                done = nd;
            }
            i = i + 1;
            if end >= n {
                start = n;
            } else {
                start = end + 1;
            }
        }
        proof {
            assert(output@.skip(start as int) =~= Seq::<char>::empty());
            assert(text_lines(output@) =~= done);
        }
        fans
    }

    /// The GPU that an id `nvidia:{i}` names.
    pub fn parse_index(fan_id: &str) -> (r: Result<u32, FanError>)
        ensures
            r == win_nvidia_index_spec(fan_id@),
    {
        proof {
            reveal_strlit("nvidia:");
        }
        if !starts_with(fan_id, "nvidia:") {
            return Err(FanError::NotNvidia);
        }
        let rest = trim_start_matches(fan_id, "nvidia:");
        match parse_unsigned(rest.as_str(), u32::MAX as u64) {
            Some(v) => Ok(v as u32),
            None => Err(FanError::InvalidNumber(parse_failure(rest.as_str(), u32::MAX as u64))),
        }
    }

    /// The `nvidia-smi` calls that set a GPU fan to `pct` percent:
    /// `-i <idx> --fan-speed-control=1`, then `-i <idx> --fan-speed=<pct>`.
    pub fn speed_commands(fan_id: &str, pct: u8) -> (r: Result<SmiSpeedCommands, FanError>)
        ensures
            match win_nvidia_index_spec(fan_id@) {
                Err(e) => r is Err && r->Err_0 == e,
                Ok(idx) => r matches Ok(c) && strs_view(c.enable_args@) == seq![
                    "-i"@,
                    dec_seq(idx as nat),
                    "--fan-speed-control=1"@,
                ] && strs_view(c.speed_args@) == seq![
                    "-i"@,
                    dec_seq(idx as nat),
                    "--fan-speed="@ + dec_seq(pct as nat),
                ],
            },
    {
        let idx = match Self::parse_index(fan_id) {
            Ok(i) => i,
            Err(e) => {
                return Err(e);
            },
        };
        let mut enable_args: Vec<String> = Vec::new();
        enable_args.push(String::from_str("-i"));
        enable_args.push(decimal(idx as u64));
        enable_args.push(String::from_str("--fan-speed-control=1"));
        let mut speed_args: Vec<String> = Vec::new();
        speed_args.push(String::from_str("-i"));
        speed_args.push(decimal(idx as u64));
        let mut s = String::from_str("--fan-speed=");
        push_decimal(&mut s, pct as u64);
        speed_args.push(s);
        assert(strs_view(enable_args@) =~= seq!["-i"@, dec_seq(idx as nat), "--fan-speed-control=1"@]);
        assert(strs_view(speed_args@) =~= seq!["-i"@, dec_seq(idx as nat), "--fan-speed="@ + dec_seq(pct as nat)]);
        Ok(SmiSpeedCommands { enable_args, speed_args })
    }

    /// The `nvidia-smi` call that hands a GPU fan back to the driver:
    /// `-i <idx> --fan-speed-control=0`.
    pub fn reset_args(fan_id: &str) -> (r: Result<Vec<String>, FanError>)
        ensures
            match win_nvidia_index_spec(fan_id@) {
                Err(e) => r == Err::<Vec<String>, FanError>(e),
                Ok(idx) => r matches Ok(a) && strs_view(a@) == seq![
                    "-i"@,
                    dec_seq(idx as nat),
                    "--fan-speed-control=0"@,
                ],
            },
    {
        let idx = match Self::parse_index(fan_id) {
            Ok(i) => i,
            Err(e) => {
                return Err(e);
            },
        };
        let mut args: Vec<String> = Vec::new();
        args.push(String::from_str("-i"));
        args.push(decimal(idx as u64));
        args.push(String::from_str("--fan-speed-control=0"));
        assert(strs_view(args@) =~= seq!["-i"@, dec_seq(idx as nat), "--fan-speed-control=0"@]);
        Ok(args)
    }
}

/// The id a line's fan is listed under parses back to the line's number.
pub proof fn law_smi_id_round_trip(i: u32)
    ensures
        win_nvidia_index_spec("nvidia:"@ + dec_seq(i as nat)) == Ok::<u32, FanError>(i),
{
    reveal_strlit("nvidia:");
    let p = "nvidia:"@;
    let d = dec_seq(i as nat);
    crate::text::lemma_dec_seq(i as nat);
    assert(!starts_with_spec(d, p)) by {
        if starts_with_spec(d, p) {
            assert(d[0] == p[0]);
        }
    }
    crate::text::lemma_trim_start_matches_once(p, d);
    assert((p + d).take(p.len() as int) =~= p);
    crate::text::lemma_parse_dec_seq(i as nat, u32::MAX as nat);
}

} // verus!
