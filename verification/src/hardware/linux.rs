//! The decisions of the Linux backends: hwmon (motherboard fans), NVIDIA via
//! NVML, and AMD GPUs via amdgpu sysfs. Reading and writing sysfs files and
//! running privileged commands is the caller's part; these functions take what
//! was read and give what is to be written.

use vstd::prelude::*;
use vstd::arithmetic::div_mod::{lemma_fundamental_div_mod, lemma_mod_bound};
use crate::hardware::error::FanError;
use crate::hardware::types::{FanInfo, FanInfoView, FanMode, FanType};
use crate::table::Table;
use crate::text::{
    contains, contains_spec, dec_seq, decimal, find_char_from, find_from, join_path, join_spec,
    parse_failure, parse_failure_spec, parse_unsigned, parse_unsigned_spec, push_decimal, starts_with, starts_with_spec, substring,
    to_ascii_lowercase, ascii_lower_seq, trim, trim_spec, trim_start_matches,
    trim_start_matches_spec,
};

verus! {

/// The contents of a sysfs file as `read_str` gives them: trimmed.
pub open spec fn read_str_spec(contents: Option<Seq<char>>) -> Option<Seq<char>> {
    match contents {
        Some(c) => Some(trim_spec(c)),
        None => None,
    }
}

/// The number in a sysfs file as `read_u32` gives it: the trimmed contents parsed.
pub open spec fn read_u32_spec(contents: Option<Seq<char>>) -> Option<u32> {
    match contents {
        Some(c) => match parse_unsigned_spec(trim_spec(c), u32::MAX as nat) {
            Some(v) => Some(v as u32),
            None => None,
        },
        None => None,
    }
}

/// A PWM duty value (0 to 255) as a speed percentage, rounded down and capped at 255.
pub open spec fn pwm_to_pct_spec(v: u32) -> u8 {
    if v as int * 100 / 255 <= 255 {
        (v as int * 100 / 255) as u8
    } else {
        255
    }
}

/// A PWM duty value as a speed percentage, rounded down.
pub fn pwm_to_pct(v: u32) -> (p: u8)
    ensures
        p == pwm_to_pct_spec(v),
{
    let q: u64 = v as u64 * 100 / 255;
    if q <= 255 {
        q as u8
    } else {
        255
    }
}

/// A speed percentage as a PWM duty value: `pct * 255 / 100`, at most 255.
pub open spec fn pct_to_pwm_spec(pct: u8) -> u32 {
    if pct as int * 255 / 100 <= 255 {
        (pct as int * 255 / 100) as u32
    } else {
        255
    }
}

/// A speed percentage as a PWM duty value.
pub fn pct_to_pwm(pct: u8) -> (v: u32)
    ensures
        v == pct_to_pwm_spec(pct),
        v <= 255,
{
    let q: u32 = pct as u32 * 255 / 100;
    if q <= 255 {
        q
    } else {
        255
    }
}

/// A decimal number followed by a newline, as written to a sysfs file.
pub open spec fn sysfs_value(v: nat) -> Seq<char> {
    dec_seq(v) + seq!['\n']
}

/// A decimal number followed by a newline.
pub fn sysfs_text(v: u64) -> (s: String)
    ensures
        s@ == sysfs_value(v as nat),
{
    let mut s = String::new();
    push_decimal(&mut s, v);
    crate::text::push_char(&mut s, '\n');
    assert(s@ =~= sysfs_value(v as nat));
    s
}

// ─── hwmon (system fans + some GPUs) ────────────────────────────────────────

/// The hwmon backend. It remembers the `pwm_enable` value each fan had when it
/// was first seen, so a reset restores the exact BIOS mode.
pub struct HwmonBackend {
    original_enables: Table<u32>,
}

/// The parts of a hwmon fan id `hwmon:{device}/{chip}/fan{n}`: the device
/// directory and the fan number, as `splitn(3, '/')` and prefix trimming give them.
pub open spec fn hwmon_id_parts(id: Seq<char>) -> Option<(Seq<char>, Seq<char>)> {
    match find_from(id, '/', 0) {
        None => None,
        Some(i1) => match find_from(id, '/', i1 + 1) {
            None => None,
            Some(i2) => Some(
                (
                    trim_start_matches_spec(id.subrange(0, i1), "hwmon:"@),
                    trim_start_matches_spec(id.subrange(i2 + 1, id.len() as int), "fan"@),
                ),
            ),
        },
    }
}

/// The sysfs directory of a hwmon device.
pub open spec fn hwmon_dir(dev: Seq<char>) -> Seq<char> {
    "/sys/class/hwmon/"@ + dev
}

/// The sysfs writes that set a hwmon fan's speed.
pub struct HwmonSpeedWrite {
    /// The `pwmN_enable` file: written with `enable_text` first when it exists.
    pub enable_path: String,
    /// What is written to the enable file: manual mode.
    pub enable_text: String,
    /// The `pwmN` file.
    pub pwm_path: String,
    /// The duty value written to the `pwmN` file.
    pub pwm_value: u32,
    /// What is written to the `pwmN` file.
    pub pwm_text: String,
}

/// The sysfs write that hands a hwmon fan back to the BIOS.
pub struct HwmonResetWrite {
    /// The `pwmN_enable` file: written when it exists.
    pub enable_path: String,
    /// The mode restored.
    pub enable_value: u32,
    /// What is written to the enable file.
    pub enable_text: String,
}

/// The lowest speed a hwmon fan is set to.
pub open spec fn hwmon_min_pct() -> u8 {
    20
}

/// The duty value a hwmon fan is set to for `pct`: at least 20 %.
pub open spec fn hwmon_pwm_spec(pct: u8) -> u32 {
    pct_to_pwm_spec(if pct < hwmon_min_pct() { hwmon_min_pct() } else { pct })
}

/// The mode a reset restores: the enable value first seen (5, SMART FAN IV,
/// when none was seen), and 5 in place of manual mode 1.
pub open spec fn restore_value_spec(original: Option<u32>) -> u32 {
    let o = match original {
        Some(v) => v,
        None => 5,
    };
    if o == 1 {
        5
    } else {
        o
    }
}

/// Splits a hwmon fan id into device and fan number.
fn parse_hwmon_id(fan_id: &str) -> (r: Option<(String, String)>)
    ensures
        match r {
            Some((d, n)) => hwmon_id_parts(fan_id@) == Some((d@, n@)),
            None => hwmon_id_parts(fan_id@) is None,
        },
{
    let n = fan_id.unicode_len();
    let i1 = match find_char_from(fan_id, '/', 0) {
        Some(i) => i,
        None => {
            return None;
        },
    };
    proof {
        crate::text::lemma_find_from_props(fan_id@, '/', 0);
    }
    let i2 = match find_char_from(fan_id, '/', i1 + 1) {
        Some(i) => i,
        None => {
            return None;
        },
    };
    proof {
        crate::text::lemma_find_from_props(fan_id@, '/', i1 + 1);
    }
    proof {
        reveal_strlit("hwmon:");
        reveal_strlit("fan");
    }
    let part0 = substring(fan_id, 0, i1);
    let part2 = substring(fan_id, i2 + 1, n);
    let dev = trim_start_matches(part0.as_str(), "hwmon:");
    let num = trim_start_matches(part2.as_str(), "fan");
    Some((dev, num))
}

/// The path of a file of a hwmon device.
pub open spec fn hwmon_file(dev: Seq<char>, name: Seq<char>) -> Seq<char> {
    join_spec(hwmon_dir(dev), name)
}

fn hwmon_file_path(dev: &str, name: &str) -> (p: String)
    requires
        name@.len() > 0,
        name@[0] == 'p',
    ensures
        p@ == hwmon_file(dev@, name@),
{
    let mut dir = String::from_str("/sys/class/hwmon/");
    dir.append(dev);
    join_path(dir.as_str(), name)
}


/// What the caller read from sysfs for one fan header `i` of a hwmon chip
/// whose `fan{i}_input` file exists.
pub struct HwmonFanReading {
    /// The header number `i` (1 to 10).
    pub index: u32,
    /// `fan{i}_input` through `read_u32`.
    pub rpm: Option<u32>,
    /// Whether `pwm{i}` exists.
    pub pwm_exists: bool,
    /// `pwm{i}` through `read_u32`.
    pub pwm: Option<u32>,
    /// `pwm{i}_enable` through `read_u32`.
    pub enable: Option<u32>,
    /// `fan{i}_label` through `read_str`.
    pub label: Option<String>,
    /// `temp{sel}_input` through `read_u32`, where `sel` is `temp_sensor(..)` of
    /// `pwm{i}_temp_sel`; `None` when there is no sensor.
    pub temp_raw: Option<u32>,
    /// `fan{i}_min` through `read_u32`.
    pub rpm_min: Option<u32>,
    /// `fan{i}_max` through `read_u32`.
    pub rpm_max: Option<u32>,
}

/// The temperature sensor that drives a fan: the `pwm{i}_temp_sel` value when it is above 0.
pub fn temp_sensor(sel: Option<u32>) -> (r: Option<u32>)
    ensures
        r == (match sel {
            Some(s) => if s > 0 { Some(s) } else { None },
            None => None,
        }),
{
    match sel {
        Some(s) => if s > 0 {
            Some(s)
        } else {
            None
        },
        None => None,
    }
}

/// A header is listed unless it reads 0 RPM and has no PWM control.
pub open spec fn hwmon_kept(r: HwmonFanReading) -> bool {
    !(r.rpm == Some(0u32) && !r.pwm_exists)
}

/// The header's label text, empty when there is none.
pub open spec fn label_text(r: HwmonFanReading) -> Seq<char> {
    match r.label {
        Some(l) => l@,
        None => Seq::empty(),
    }
}

/// The label names a pump.
pub open spec fn label_says_pump(r: HwmonFanReading) -> bool {
    let l = ascii_lower_seq(label_text(r));
    contains_spec(l, "pump"@) || contains_spec(l, "w_pump"@)
}

/// A sensor reading in millidegrees, kept when plausible (below 120 °C).
pub open spec fn hwmon_temp_spec(raw: Option<u32>) -> Option<i64> {
    match raw {
        Some(t) => if t < 120000 { Some(t as i64) } else { None },
        None => None,
    }
}

/// The label of a header: its own when not empty, else "Pump i" or "Fan i".
pub open spec fn hwmon_label_spec(r: HwmonFanReading) -> Seq<char> {
    if r.label is Some && r.label->0@.len() > 0 {
        r.label->0@
    } else if label_says_pump(r) {
        "Pump "@ + dec_seq(r.index as nat)
    } else {
        "Fan "@ + dec_seq(r.index as nat)
    }
}

/// The id of header `i` of a chip: `hwmon:{dir}/{chip}/fan{i}`.
pub open spec fn hwmon_fan_id(dir: Seq<char>, chip: Seq<char>, i: u32) -> Seq<char> {
    "hwmon:"@ + dir + "/"@ + chip + "/fan"@ + dec_seq(i as nat)
}

/// The fan a header is listed as, before the pump heuristic.
pub open spec fn reading_fan(dir: Seq<char>, chip: Seq<char>, r: HwmonFanReading) -> FanInfoView {
    FanInfoView {
        id: hwmon_fan_id(dir, chip, r.index),
        label: hwmon_label_spec(r),
        fan_type: FanType::System,
        mode: FanMode::Auto,
        rpm: r.rpm,
        speed_pct: if r.pwm_exists && r.pwm is Some { Some(pwm_to_pct_spec(r.pwm->0)) } else { None },
        temp_milli_c: hwmon_temp_spec(r.temp_raw),
        curve: Seq::empty(),
        rpm_min: r.rpm_min,
        rpm_max: r.rpm_max,
        controllable: r.pwm_exists,
        is_pump: label_says_pump(r),
    }
}

/// The fans of a chip's headers, in order, before the pump heuristic.
pub open spec fn chip_fans_spec(dir: Seq<char>, chip: Seq<char>, rs: Seq<HwmonFanReading>) -> Seq<FanInfoView>
    decreases rs.len(),
{
    if rs.len() == 0 {
        Seq::empty()
    } else {
        let prev = chip_fans_spec(dir, chip, rs.drop_last());
        if hwmon_kept(rs.last()) {
            prev.push(reading_fan(dir, chip, rs.last()))
        } else {
            prev
        }
    }
}

/// The RPMs that the pump heuristic compares: those of the fans not yet known
/// as pumps that report more than 0 RPM.
pub open spec fn pump_candidate_rpms(fs: Seq<FanInfoView>) -> Seq<u32>
    decreases fs.len(),
{
    if fs.len() == 0 {
        Seq::empty()
    } else {
        let prev = pump_candidate_rpms(fs.drop_last());
        let f = fs.last();
        if !f.is_pump && f.rpm is Some && f.rpm->0 > 0 {
            prev.push(f.rpm->0)
        } else {
            prev
        }
    }
}

/// A fan spinning more than three times the median RPM of its peers is a pump.
pub open spec fn pump_adjusted(f: FanInfoView, median: u32) -> FanInfoView {
    if !f.is_pump && f.rpm is Some && f.rpm->0 as int > median as int * 3 {
        FanInfoView { is_pump: true, label: "Pump"@, ..f }
    } else {
        f
    }
}

/// The fans of a chip after the pump heuristic.
pub open spec fn with_pump_heuristic(fs: Seq<FanInfoView>) -> Seq<FanInfoView> {
    let rpms = pump_candidate_rpms(fs);
    if rpms.len() == 0 {
        fs
    } else {
        Seq::new(fs.len(), |i: int| pump_adjusted(fs[i], crate::order::median_spec(rpms)))
    }
}

/// The chip name used in ids: "unknown" when the `name` file could not be read.
pub open spec fn chip_name_spec(chip: Option<Seq<char>>) -> Seq<char> {
    match chip {
        Some(c) => c,
        None => "unknown"@,
    }
}

/// The enable values remembered after a chip scan: the first value seen for
/// each fan is kept, later ones never replace it.
pub open spec fn originals_after(
    m: Map<Seq<char>, u32>,
    dir: Seq<char>,
    chip: Seq<char>,
    rs: Seq<HwmonFanReading>,
) -> Map<Seq<char>, u32>
    decreases rs.len(),
{
    if rs.len() == 0 {
        m
    } else {
        let prev = originals_after(m, dir, chip, rs.drop_last());
        let r = rs.last();
        let id = hwmon_fan_id(dir, chip, r.index);
        if hwmon_kept(r) && r.enable is Some && !prev.contains_key(id) {
            prev.insert(id, r.enable->0)
        } else {
            prev
        }
    }
}

/// The characters of an optional string.
pub open spec fn opt_str_view(s: Option<String>) -> Option<Seq<char>> {
    match s {
        Some(c) => Some(c@),
        None => None,
    }
}

/// The views of a list of fans.
pub open spec fn infos_view(fs: Seq<FanInfo>) -> Seq<FanInfoView> {
    fs.map_values(|f: FanInfo| f@)
}

fn hwmon_fan_info(dir: &str, chip: &str, r: &HwmonFanReading) -> (f: FanInfo)
    ensures
        f@ == reading_fan(dir@, chip@, *r),
{
    let speed_pct = if r.pwm_exists {
        match r.pwm {
            Some(v) => Some(pwm_to_pct(v)),
            None => None,
        }
    } else {
        None
    };
    let lower = match &r.label {
        Some(l) => to_ascii_lowercase(l.as_str()),
        None => String::new(),
    };
    proof {
        if r.label is None {
            assert(lower@ =~= ascii_lower_seq(label_text(*r)));
        }
    }
    let is_pump = contains(lower.as_str(), "pump") || contains(lower.as_str(), "w_pump");
    let temp_milli_c = match r.temp_raw {
        Some(t) => if t < 120000 {
            Some(t as i64)
        } else {
            None
        },
        None => None,
    };
    let label = match &r.label {
        Some(l) if l.as_str().unicode_len() > 0 => l.clone(),
        _ => {
            let mut s = if is_pump {
                String::from_str("Pump ")
            } else {
                String::from_str("Fan ")
            };
            push_decimal(&mut s, r.index as u64);
            s
        },
    };
    let mut id = String::from_str("hwmon:");
    id.append(dir);
    id.append("/");
    id.append(chip);
    id.append("/fan");
    push_decimal(&mut id, r.index as u64);
    FanInfo {
        id,
        label,
        fan_type: FanType::System,
        mode: FanMode::Auto,
        rpm: r.rpm,
        speed_pct,
        temp_milli_c,
        curve: Vec::new(),
        rpm_min: r.rpm_min,
        rpm_max: r.rpm_max,
        controllable: r.pwm_exists,
        is_pump,
    }
}

impl HwmonBackend {
    /// The enable value first seen for each fan, by fan id.
    pub closed spec fn originals(&self) -> Map<Seq<char>, u32> {
        self.original_enables@
    }

    /// The backend's table is consistent.
    pub closed spec fn wf(&self) -> bool {
        self.original_enables.wf()
    }

    /// A backend that has seen no fan yet.
    pub fn new() -> (b: Self)
        ensures
            b.wf(),
            b.originals() == Map::<Seq<char>, u32>::empty(),
    {
        HwmonBackend { original_enables: Table::new() }
    }

    /// The backend's name.
    pub fn name(&self) -> (n: &'static str)
        ensures
            n@ == "hwmon"@,
    {
        "hwmon"
    }


    /// The fans of one hwmon chip from what was read for its headers, in order:
    /// empty headers (0 RPM and no PWM) are skipped, a pump is recognised by its
    /// label or by spinning more than three times the median RPM of its peers,
    /// and each fan's `pwm_enable` value is remembered the first time it is seen.
    /// `dir` is the chip's directory name (e.g. "hwmon2"), `chip_name` the trimmed
    /// contents of its `name` file.
    pub fn scan_chip(&mut self, dir: &str, chip_name: Option<String>, readings: &Vec<HwmonFanReading>) -> (fans:
        Vec<FanInfo>)
        requires
            old(self).wf(),
        ensures
            final(self).wf(),
            infos_view(fans@) == with_pump_heuristic(
                chip_fans_spec(dir@, chip_name_spec(opt_str_view(chip_name)), readings@),
            ),
            final(self).originals() == originals_after(
                old(self).originals(),
                dir@,
                chip_name_spec(opt_str_view(chip_name)),
                readings@,
            ),
    {
        let ghost chip_opt = opt_str_view(chip_name);
        let chip = match chip_name {
            Some(c) => c,
            None => String::from_str("unknown"),
        };
        let ghost cs = chip@;
        assert(cs == chip_name_spec(chip_opt));
        let mut fans: Vec<FanInfo> = Vec::new();
        let mut i: usize = 0;
        while i < readings.len()
            invariant
                i <= readings@.len(),
                cs == chip@,
                self.wf(),
                infos_view(fans@) == chip_fans_spec(dir@, cs, readings@.take(i as int)),
                self.originals() == originals_after(old(self).originals(), dir@, cs, readings@.take(i as int)),
            decreases readings@.len() - i,
        {
            let r = &readings[i];
            proof {
                assert(readings@.take(i + 1).drop_last() =~= readings@.take(i as int));
                assert(readings@.take(i + 1).last() == *r);
            }
            let skip = match r.rpm {
                Some(v) => v == 0 && !r.pwm_exists,
                None => false,
            };
            if !skip {
                let f = hwmon_fan_info(dir, chip.as_str(), r);
                match r.enable {
                    Some(ev) => {
                        if !self.original_enables.contains_key(f.id.as_str()) {
                            self.original_enables.insert(f.id.clone(), ev);
                        }
                    },
                    None => {},
                }
                fans.push(f);
                proof {
                    assert(infos_view(fans@) =~= infos_view(fans@).drop_last().push(fans@.last()@));
                    assert(infos_view(fans@).drop_last() =~= chip_fans_spec(dir@, cs, readings@.take(i as int)));
                }
            }
            i = i + 1;
        }
        proof {
            assert(readings@.take(readings@.len() as int) =~= readings@);
        }
        let ghost before = infos_view(fans@);
        let mut rpms: Vec<u32> = Vec::new();
        let mut j: usize = 0;
        while j < fans.len()
            invariant
                j <= fans@.len(),
                before == infos_view(fans@),
                rpms@ == pump_candidate_rpms(before.take(j as int)),
            decreases fans@.len() - j,
        {
            proof {
                assert(before.take(j + 1).drop_last() =~= before.take(j as int));
                assert(before.take(j + 1).last() == fans@[j as int]@);
            }
            if !fans[j].is_pump {
                match fans[j].rpm {
                    Some(v) => if v > 0 {
                        rpms.push(v);
                    },
                    None => {},
                }
            }
            j = j + 1;
        }
        proof {
            assert(before.take(before.len() as int) =~= before);
        }
        if rpms.len() > 0 {
            let m = crate::order::median(&rpms);
            let mut k: usize = 0;
            while k < fans.len()
                invariant
                    k <= fans@.len(),
                    before.len() == fans@.len(),
                    m == crate::order::median_spec(pump_candidate_rpms(before)),
                    forall|q: int| 0 <= q < k ==> #[trigger] fans@[q]@ == pump_adjusted(before[q], m),
                    forall|q: int| k <= q < fans@.len() ==> #[trigger] fans@[q]@ == before[q],
                decreases fans@.len() - k,
            {
                let adjust = !fans[k].is_pump && match fans[k].rpm {
                    Some(r) => r as u64 > m as u64 * 3,
                    None => false,
                };
                if adjust {
                    let mut g = fans[k].duplicate();
                    g.is_pump = true;
                    g.label = String::from_str("Pump");
                    proof {
                        assert(g@ == pump_adjusted(before[k as int], m));
                    }
                    fans.set(k, g);
                } else {
                    assert(fans@[k as int]@ == pump_adjusted(before[k as int], m));
                }
                k = k + 1;
            }
            proof {
                assert(infos_view(fans@) =~= with_pump_heuristic(before));
            }
        }
        fans
    }

    /// The trimmed contents of a sysfs file, if it could be read.
    pub fn read_str(contents: Option<&str>) -> (r: Option<String>)
        ensures
            match r {
                Some(s) => read_str_spec(match contents { Some(c) => Some(c@), None => None }) == Some(s@),
                None => contents is None,
            },
    {
        match contents {
            Some(c) => Some(trim(c)),
            None => None,
        }
    }

    /// The number in a sysfs file, if it could be read and parsed.
    pub fn read_u32(contents: Option<&str>) -> (r: Option<u32>)
        ensures
            r == read_u32_spec(match contents { Some(c) => Some(c@), None => None }),
    {
        match contents {
            Some(c) => {
                let t = trim(c);
                match parse_unsigned(t.as_str(), u32::MAX as u64) {
                    Some(v) => Some(v as u32),
                    None => None,
                }
            },
            None => None,
        }
    }

    /// The sysfs writes that set a hwmon fan to `pct` percent (at least 20 %):
    /// manual mode into `pwmN_enable`, then the duty value into `pwmN`.
    pub fn speed_write(fan_id: &str, pct: u8) -> (r: Result<HwmonSpeedWrite, FanError>)
        ensures
            match hwmon_id_parts(fan_id@) {
                None => r == Err::<HwmonSpeedWrite, FanError>(FanError::InvalidHwmonId),
                Some((dev, num)) => r matches Ok(w) && {
                    &&& w.enable_path@ == hwmon_file(dev, "pwm"@ + num + "_enable"@)
                    &&& w.enable_text@ == "1\n"@
                    &&& w.pwm_path@ == hwmon_file(dev, "pwm"@ + num)
                    &&& w.pwm_value == hwmon_pwm_spec(pct)
                    &&& w.pwm_text@ == sysfs_value(hwmon_pwm_spec(pct) as nat)
                },
            },
    {
        let (dev, num) = match parse_hwmon_id(fan_id) {
            Some(p) => p,
            None => {
                return Err(FanError::InvalidHwmonId);
            },
        };
        let mut enable_name = String::from_str("pwm");
        enable_name.append(num.as_str());
        enable_name.append("_enable");
        let mut pwm_name = String::from_str("pwm");
        pwm_name.append(num.as_str());
        proof {
            reveal_strlit("pwm");
        }
        let enable_path = hwmon_file_path(dev.as_str(), enable_name.as_str());
        let pwm_path = hwmon_file_path(dev.as_str(), pwm_name.as_str());
        let p = if pct < 20 {
            20
        } else {
            pct
        };
        let pwm_value = pct_to_pwm(p);
        let pwm_text = sysfs_text(pwm_value as u64);
        Ok(HwmonSpeedWrite {
            enable_path,
            enable_text: String::from_str("1\n"),
            pwm_path,
            pwm_value,
            pwm_text,
        })
    }

    /// The sysfs write that hands a hwmon fan back to the BIOS: the enable
    /// value first seen for it (see `restore_value_spec`) into `pwmN_enable`.
    pub fn reset_write(&self, fan_id: &str) -> (r: Result<HwmonResetWrite, FanError>)
        requires
            self.wf(),
        ensures
            match hwmon_id_parts(fan_id@) {
                None => r == Err::<HwmonResetWrite, FanError>(FanError::InvalidHwmonId),
                Some((dev, num)) => r matches Ok(w) && {
                    let original = if self.originals().contains_key(fan_id@) {
                        Some(self.originals()[fan_id@])
                    } else {
                        None
                    };
                    &&& w.enable_path@ == hwmon_file(dev, "pwm"@ + num + "_enable"@)
                    &&& w.enable_value == restore_value_spec(original)
                    &&& w.enable_text@ == sysfs_value(restore_value_spec(original) as nat)
                },
            },
    {
        let (dev, num) = match parse_hwmon_id(fan_id) {
            Some(p) => p,
            None => {
                return Err(FanError::InvalidHwmonId);
            },
        };
        let mut enable_name = String::from_str("pwm");
        enable_name.append(num.as_str());
        enable_name.append("_enable");
        proof {
            reveal_strlit("pwm");
        }
        let enable_path = hwmon_file_path(dev.as_str(), enable_name.as_str());
        let original = match self.original_enables.get(fan_id) {
            Some(v) => *v,
            None => 5,
        };
        let restore = if original == 1 {
            5
        } else {
            original
        };
        let enable_text = sysfs_text(restore as u64);
        Ok(HwmonResetWrite { enable_path, enable_value: restore, enable_text })
    }
}


// ─── NVIDIA via NVML ────────────────────────────────────────────────────────

/// The NVIDIA backend: available when NVML enumerated at least one fan.
pub struct NvidiaBackend {
    available: bool,
}

/// The number in a part of a fan id, 0 when it is not one.
pub open spec fn num_or_zero(s: Seq<char>) -> u32 {
    match parse_unsigned_spec(s, u32::MAX as nat) {
        Some(v) => v as u32,
        None => 0,
    }
}

/// The GPU and fan indices of an id `nvidia:{gpu}:{fan}` (a missing or
/// malformed number reads as 0).
pub open spec fn nvidia_id_spec(id: Seq<char>) -> Result<(u32, u32), FanError> {
    if !starts_with_spec(id, "nvidia:"@) {
        Err(FanError::NotNvidia)
    } else {
        let rest = trim_start_matches_spec(id, "nvidia:"@);
        match find_from(rest, ':', 0) {
            Some(p) => Ok((num_or_zero(rest.subrange(0, p)), num_or_zero(rest.subrange(p + 1, rest.len() as int)))),
            None => Ok((num_or_zero(rest), 0)),
        }
    }
}

/// The id of fan `fan` of GPU `gpu`.
pub open spec fn nvidia_fan_id(gpu: u32, fan: u32) -> Seq<char> {
    "nvidia:"@ + dec_seq(gpu as nat) + ":"@ + dec_seq(fan as nat)
}

/// The label of a GPU fan: "{name} Fan", numbered from 1 when the GPU has several.
pub open spec fn nvidia_label(g: crate::gpu_nvml::GpuFan) -> Seq<char> {
    if g.fan_count == 1 {
        g.gpu_name@ + " Fan"@
    } else {
        g.gpu_name@ + " Fan "@ + dec_seq(g.fan_idx as nat + 1)
    }
}

/// The fan a GPU fan snapshot is listed as.
pub open spec fn nvidia_fan_spec(g: crate::gpu_nvml::GpuFan) -> FanInfoView {
    FanInfoView {
        id: nvidia_fan_id(g.gpu_idx, g.fan_idx),
        label: nvidia_label(g),
        fan_type: FanType::Nvidia,
        mode: FanMode::Auto,
        rpm: g.rpm,
        speed_pct: g.speed_pct,
        temp_milli_c: g.temp_milli_c,
        curve: Seq::empty(),
        rpm_min: Some(0u32),
        rpm_max: match g.rpm {
            Some(r) => Some(if r >= 3500 { r } else { 3500u32 }),
            None => Some(3500u32),
        },
        controllable: true,
        is_pump: false,
    }
}

/// The lowest speed an NVIDIA fan is asked for.
pub open spec fn nvidia_pct_spec(pct: u8) -> u8 {
    if pct < 30 {
        30
    } else {
        pct
    }
}

/// The views of a list of strings.
pub open spec fn strs_view(v: Seq<String>) -> Seq<Seq<char>> {
    v.map_values(|s: String| s@)
}

fn parse_or_zero(s: &str) -> (v: u32)
    ensures
        v == num_or_zero(s@),
{
    match parse_unsigned(s, u32::MAX as u64) {
        Some(v) => v as u32,
        None => 0,
    }
}

impl NvidiaBackend {
    /// Whether NVML enumerated a fan.
    pub closed spec fn available_spec(&self) -> bool {
        self.available
    }

    /// The backend, available when NVML enumerated at least one fan.
    pub fn new(found: &Vec<crate::gpu_nvml::GpuFan>) -> (b: Self)
        ensures
            b.available_spec() == (found@.len() > 0),
    {
        NvidiaBackend { available: found.len() > 0 }
    }

    /// The backend's name.
    pub fn name(&self) -> (n: &'static str)
        ensures
            n@ == "nvidia"@,
    {
        "nvidia"
    }

    /// Whether NVML enumerated a fan.
    pub fn is_available(&self) -> (b: bool)
        ensures
            b == self.available_spec(),
    {
        self.available
    }

    /// Parses a "nvidia:{gpu}:{fan}" id into its two indices.
    pub fn parse_id(fan_id: &str) -> (r: Result<(u32, u32), FanError>)
        ensures
            r == nvidia_id_spec(fan_id@),
    {
        proof {
            reveal_strlit("nvidia:");
        }
        if !starts_with(fan_id, "nvidia:") {
            return Err(FanError::NotNvidia);
        }
        let rest = trim_start_matches(fan_id, "nvidia:");
        match find_char_from(rest.as_str(), ':', 0) {
            Some(p) => {
                proof {
                    crate::text::lemma_find_from_props(rest@, ':', 0);
                }
                let n = rest.as_str().unicode_len();
                let first = substring(rest.as_str(), 0, p);
                let second = substring(rest.as_str(), p + 1, n);
                Ok((parse_or_zero(first.as_str()), parse_or_zero(second.as_str())))
            },
            None => Ok((parse_or_zero(rest.as_str()), 0)),
        }
    }

    /// The fans of the GPU snapshots, none when the backend is not available.
    pub fn scan(&self, gpus: &Vec<crate::gpu_nvml::GpuFan>) -> (fans: Vec<FanInfo>)
        ensures
            !self.available_spec() ==> fans@.len() == 0,
            self.available_spec() ==> infos_view(fans@) == gpus@.map_values(
                |g: crate::gpu_nvml::GpuFan| nvidia_fan_spec(g),
            ),
    {
        let mut fans: Vec<FanInfo> = Vec::new();
        if !self.available {
            return fans;
        }
        let mut i: usize = 0;
        while i < gpus.len()
            invariant
                i <= gpus@.len(),
                infos_view(fans@) == gpus@.take(i as int).map_values(
                    |g: crate::gpu_nvml::GpuFan| nvidia_fan_spec(g),
                ),
            decreases gpus@.len() - i,
        {
            let g = &gpus[i];
            let mut label = g.gpu_name.clone();
            if g.fan_count == 1 {
                label.append(" Fan");
            } else {
                label.append(" Fan ");
                push_decimal(&mut label, g.fan_idx as u64 + 1);
            }
            let mut id = String::from_str("nvidia:");
            push_decimal(&mut id, g.gpu_idx as u64);
            id.append(":");
            push_decimal(&mut id, g.fan_idx as u64);
            let rpm_max = match g.rpm {
                Some(r) => Some(
                    if r >= 3500 {
                        r
                    } else {
                        3500
                    },
                ),
                None => Some(3500),
            };
            let f = FanInfo {
                id,
                label,
                fan_type: FanType::Nvidia,
                mode: FanMode::Auto,
                rpm: g.rpm,
                speed_pct: g.speed_pct,
                temp_milli_c: g.temp_milli_c,
                curve: Vec::new(),
                rpm_min: Some(0),
                rpm_max,
                controllable: true,
                is_pump: false,
            };
            proof {
                assert(f@ == nvidia_fan_spec(*g));
            }
            let ghost old_fans = fans@;
            let ghost fv = f@;
            fans.push(f);
            proof {
                assert(infos_view(fans@) =~= infos_view(old_fans).push(fv));
                assert(gpus@.take(i + 1) =~= gpus@.take(i as int).push(*g));
                assert(infos_view(fans@) =~= gpus@.take(i + 1).map_values(
                    |g: crate::gpu_nvml::GpuFan| nvidia_fan_spec(g),
                ));
            }
            i = i + 1;
        }
        assert(gpus@.take(gpus@.len() as int) =~= gpus@);
        fans
    }

    /// The arguments of the privileged re-exec that sets an NVIDIA fan to `pct`
    /// percent (at least 30 %): `--gpu-set <gpu> <fan> <pct>`.
    pub fn speed_args(fan_id: &str, pct: u8) -> (r: Result<Vec<String>, FanError>)
        ensures
            match nvidia_id_spec(fan_id@) {
                Err(e) => r == Err::<Vec<String>, FanError>(e),
                Ok((gpu, fan)) => r matches Ok(a) && strs_view(a@) == seq![
                    "--gpu-set"@,
                    dec_seq(gpu as nat),
                    dec_seq(fan as nat),
                    dec_seq(nvidia_pct_spec(pct) as nat),
                ],
            },
    {
        let (gpu, fan) = match Self::parse_id(fan_id) {
            Ok(p) => p,
            Err(e) => {
                return Err(e);
            },
        };
        let p = if pct < 30 {
            30
        } else {
            pct
        };
        let mut args: Vec<String> = Vec::new();
        args.push(String::from_str("--gpu-set"));
        args.push(decimal(gpu as u64));
        args.push(decimal(fan as u64));
        args.push(decimal(p as u64));
        assert(strs_view(args@) =~= seq![
            "--gpu-set"@,
            dec_seq(gpu as nat),
            dec_seq(fan as nat),
            dec_seq(nvidia_pct_spec(pct) as nat),
        ]);
        Ok(args)
    }

    /// The arguments of the privileged re-exec that hands the fans of an
    /// NVIDIA GPU back to the driver: `--gpu-reset <gpu>`.
    pub fn reset_args(fan_id: &str) -> (r: Result<Vec<String>, FanError>)
        ensures
            match nvidia_id_spec(fan_id@) {
                Err(e) => r == Err::<Vec<String>, FanError>(e),
                Ok((gpu, fan)) => r matches Ok(a) && strs_view(a@) == seq!["--gpu-reset"@, dec_seq(gpu as nat)],
            },
    {
        let (gpu, _fan) = match Self::parse_id(fan_id) {
            Ok(p) => p,
            Err(e) => {
                return Err(e);
            },
        };
        let mut args: Vec<String> = Vec::new();
        args.push(String::from_str("--gpu-reset"));
        args.push(decimal(gpu as u64));
        assert(strs_view(args@) =~= seq!["--gpu-reset"@, dec_seq(gpu as nat)]);
        Ok(args)
    }
}

// ─── AMD GPU via amdgpu sysfs ───────────────────────────────────────────────

/// The AMD GPU backend.
pub struct AmdGpuBackend;

/// The writes that set an AMD GPU fan's speed, in the `hwmon` directory of the
/// GPU's device.
pub struct AmdSpeedWrite {
    /// The place of the GPU among the AMD DRM devices.
    pub index: usize,
    /// What is written to `pwm1_enable` first: manual mode.
    pub enable_text: String,
    /// The duty value written to `pwm1`.
    pub pwm_value: u32,
    /// What is written to `pwm1`.
    pub pwm_text: String,
}

/// The number in a text as a trimmed parse gives it.
pub open spec fn parse_trimmed_spec(contents: Option<Seq<char>>, max: nat) -> Option<nat> {
    match contents {
        Some(c) => parse_unsigned_spec(trim_spec(c), max),
        None => None,
    }
}

/// The index in an id `amd:{i}`.
pub open spec fn amd_index_spec(id: Seq<char>) -> Result<usize, FanError> {
    if !starts_with_spec(id, "amd:"@) {
        Err(FanError::NotAmd)
    } else {
        let rest = trim_start_matches_spec(id, "amd:"@);
        match parse_unsigned_spec(rest, usize::MAX as nat) {
            Some(v) => Ok(v as usize),
            None => Err(FanError::InvalidNumber(parse_failure_spec(rest, usize::MAX as nat))),
        }
    }
}

/// The fan of AMD GPU `i`, from the contents of its hwmon files.
pub open spec fn amd_fan_spec(
    i: usize,
    rpm: Option<Seq<char>>,
    temp: Option<Seq<char>>,
    pwm: Option<Seq<char>>,
    pwm_exists: bool,
) -> FanInfoView {
    FanInfoView {
        id: "amd:"@ + dec_seq(i as nat),
        label: "AMD GPU "@ + dec_seq(i as nat) + " Fan"@,
        fan_type: FanType::Amd,
        mode: FanMode::Auto,
        rpm: match parse_trimmed_spec(rpm, u32::MAX as nat) {
            Some(v) => Some(v as u32),
            None => None,
        },
        speed_pct: match parse_trimmed_spec(pwm, u32::MAX as nat) {
            Some(v) => Some(pwm_to_pct_spec(v as u32)),
            None => None,
        },
        temp_milli_c: match parse_trimmed_spec(temp, u32::MAX as nat) {
            Some(v) => Some(v as i64),
            None => None,
        },
        curve: Seq::empty(),
        rpm_min: None,
        rpm_max: None,
        controllable: pwm_exists,
        is_pump: false,
    }
}

fn parse_trimmed(contents: Option<&str>, max: u64) -> (r: Option<u64>)
    ensures
        match r {
            Some(v) => parse_trimmed_spec(match contents { Some(c) => Some(c@), None => None }, max as nat) == Some(v as nat),
            None => parse_trimmed_spec(match contents { Some(c) => Some(c@), None => None }, max as nat) is None,
        },
        r matches Some(v) ==> v <= max,
{
    match contents {
        Some(c) => {
            let t = trim(c);
            let r = parse_unsigned(t.as_str(), max);
            proof {
                if r is Some {
                    assert(parse_unsigned_spec(t@, max as nat) matches Some(v) && v <= max);
                }
            }
            r
        },
        None => None,
    }
}

/// The optional view of an optional string slice.
pub open spec fn opt_slice_view(s: Option<&str>) -> Option<Seq<char>> {
    match s {
        Some(c) => Some(c@),
        None => None,
    }
}

impl AmdGpuBackend {
    /// The backend.
    pub fn new() -> (b: Self) {
        AmdGpuBackend
    }

    /// The backend's name.
    pub fn name(&self) -> (n: &'static str)
        ensures
            n@ == "amdgpu"@,
    {
        "amdgpu"
    }

    /// Whether a DRM device's `vendor` file names AMD (0x1002).
    pub fn is_amd_vendor(contents: Option<&str>) -> (b: bool)
        ensures
            b == (contents matches Some(c) && trim_spec(c@) == "0x1002"@),
    {
        match contents {
            Some(c) => {
                let t = trim(c);
                crate::text::str_eq(t.as_str(), "0x1002")
            },
            None => false,
        }
    }

    /// The fan of AMD GPU `i`, from the contents of its `fan1_input`,
    /// `temp1_input` and `pwm1` files and whether `pwm1` exists.
    pub fn fan_info(
        i: usize,
        rpm: Option<&str>,
        temp: Option<&str>,
        pwm: Option<&str>,
        pwm_exists: bool,
    ) -> (f: FanInfo)
        ensures
            f@ == amd_fan_spec(i, opt_slice_view(rpm), opt_slice_view(temp), opt_slice_view(pwm), pwm_exists),
    {
        let rpm_v = match parse_trimmed(rpm, u32::MAX as u64) {
            Some(v) => Some(v as u32),
            None => None,
        };
        let temp_v = match parse_trimmed(temp, u32::MAX as u64) {
            Some(v) => Some(v as i64),
            None => None,
        };
        let speed = match parse_trimmed(pwm, u32::MAX as u64) {
            Some(v) => Some(pwm_to_pct(v as u32)),
            None => None,
        };
        let mut id = String::from_str("amd:");
        push_decimal(&mut id, i as u64);
        let mut label = String::from_str("AMD GPU ");
        push_decimal(&mut label, i as u64);
        label.append(" Fan");
        FanInfo {
            id,
            label,
            fan_type: FanType::Amd,
            mode: FanMode::Auto,
            rpm: rpm_v,
            speed_pct: speed,
            temp_milli_c: temp_v,
            curve: Vec::new(),
            rpm_min: None,
            rpm_max: None,
            controllable: pwm_exists,
            is_pump: false,
        }
    }

    /// The place of the GPU that an id `amd:{i}` names.
    pub fn parse_index(fan_id: &str) -> (r: Result<usize, FanError>)
        ensures
            r == amd_index_spec(fan_id@),
    {
        proof {
            reveal_strlit("amd:");
        }
        if !starts_with(fan_id, "amd:") {
            return Err(FanError::NotAmd);
        }
        let rest = trim_start_matches(fan_id, "amd:");
        match parse_unsigned(rest.as_str(), usize::MAX as u64) {
            Some(v) => Ok(v as usize),
            None => Err(FanError::InvalidNumber(parse_failure(rest.as_str(), usize::MAX as u64))),
        }
    }

    /// The writes that set an AMD GPU fan to `pct` percent.
    pub fn speed_write(fan_id: &str, pct: u8) -> (r: Result<AmdSpeedWrite, FanError>)
        ensures
            match amd_index_spec(fan_id@) {
                Err(e) => r == Err::<AmdSpeedWrite, FanError>(e),
                Ok(i) => r matches Ok(w) && {
                    &&& w.index == i
                    &&& w.enable_text@ == "1\n"@
                    &&& w.pwm_value == pct_to_pwm_spec(pct)
                    &&& w.pwm_text@ == sysfs_value(pct_to_pwm_spec(pct) as nat)
                },
            },
    {
        let index = match Self::parse_index(fan_id) {
            Ok(i) => i,
            Err(e) => {
                return Err(e);
            },
        };
        let pwm_value = pct_to_pwm(pct);
        Ok(AmdSpeedWrite {
            index,
            enable_text: String::from_str("1\n"),
            pwm_value,
            pwm_text: sysfs_text(pwm_value as u64),
        })
    }

    /// The GPU whose fan a reset hands back to the driver, and what is written
    /// to its `pwm1_enable` (automatic mode).
    pub fn reset_write(fan_id: &str) -> (r: Result<(usize, String), FanError>)
        ensures
            match amd_index_spec(fan_id@) {
                Err(e) => r == Err::<(usize, String), FanError>(e),
                Ok(i) => r matches Ok((j, t)) && j == i && t@ == "2\n"@,
            },
    {
        let index = match Self::parse_index(fan_id) {
            Ok(i) => i,
            Err(e) => {
                return Err(e);
            },
        };
        Ok((index, String::from_str("2\n")))
    }
}

// ─── laws ───────────────────────────────────────────────────────────────────

/// The enable value remembered for a fan is the first one seen: later scans
/// never replace it.
pub proof fn law_first_enable_kept(
    m: Map<Seq<char>, u32>,
    dir: Seq<char>,
    chip: Seq<char>,
    rs: Seq<HwmonFanReading>,
    k: Seq<char>,
)
    requires
        m.contains_key(k),
    ensures
        originals_after(m, dir, chip, rs).contains_key(k),
        originals_after(m, dir, chip, rs)[k] == m[k],
    decreases rs.len(),
{
    if rs.len() > 0 {
        law_first_enable_kept(m, dir, chip, rs.drop_last(), k);
    }
}

/// Headers with different numbers get different ids.
proof fn lemma_hwmon_fan_id_distinct(dir: Seq<char>, chip: Seq<char>, a: u32, b: u32)
    requires
        a != b,
    ensures
        hwmon_fan_id(dir, chip, a) != hwmon_fan_id(dir, chip, b),
{
    let p = "hwmon:"@ + dir + "/"@ + chip + "/fan"@;
    assert(hwmon_fan_id(dir, chip, a) =~= p + dec_seq(a as nat));
    assert(hwmon_fan_id(dir, chip, b) =~= p + dec_seq(b as nat));
    if hwmon_fan_id(dir, chip, a) == hwmon_fan_id(dir, chip, b) {
        assert((p + dec_seq(a as nat)).skip(p.len() as int) =~= dec_seq(a as nat));
        assert((p + dec_seq(b as nat)).skip(p.len() as int) =~= dec_seq(b as nat));
        crate::text::lemma_dec_seq(a as nat);
        crate::text::lemma_dec_seq(b as nat);
    }
}

/// A fan remembered after a scan was remembered before it or is one of the
/// scanned headers.
proof fn lemma_originals_from(
    m: Map<Seq<char>, u32>,
    dir: Seq<char>,
    chip: Seq<char>,
    rs: Seq<HwmonFanReading>,
    k: Seq<char>,
)
    requires
        originals_after(m, dir, chip, rs).contains_key(k),
    ensures
        m.contains_key(k) || exists|a: int| 0 <= a < rs.len() && hwmon_fan_id(dir, chip, #[trigger] rs[a].index) == k,
    decreases rs.len(),
{
    if rs.len() > 0 {
        let t = rs.drop_last();
        let id = hwmon_fan_id(dir, chip, rs.last().index);
        if k != id {
            lemma_originals_from(m, dir, chip, t, k);
            if !m.contains_key(k) {
                let a = choose|a: int| 0 <= a < t.len() && hwmon_fan_id(dir, chip, #[trigger] t[a].index) == k;
                assert(rs[a] == t[a]);
            }
        } else {
            assert(hwmon_fan_id(dir, chip, rs[rs.len() - 1].index) == k);
        }
    }
}

/// A listed header seen for the first time has its enable value remembered,
/// when the chip's headers have different numbers (as sysfs names them).
pub proof fn law_new_fan_enable_stored(
    m: Map<Seq<char>, u32>,
    dir: Seq<char>,
    chip: Seq<char>,
    rs: Seq<HwmonFanReading>,
    j: int,
)
    requires
        0 <= j < rs.len(),
        hwmon_kept(rs[j]),
        rs[j].enable is Some,
        !m.contains_key(hwmon_fan_id(dir, chip, rs[j].index)),
        forall|a: int, b: int| 0 <= a < b < rs.len() ==> #[trigger] rs[a].index != #[trigger] rs[b].index,
    ensures
        originals_after(m, dir, chip, rs).contains_key(hwmon_fan_id(dir, chip, rs[j].index)),
        originals_after(m, dir, chip, rs)[hwmon_fan_id(dir, chip, rs[j].index)] == rs[j].enable->0,
    decreases rs.len(),
{
    let id = hwmon_fan_id(dir, chip, rs[j].index);
    let t = rs.drop_last();
    let last = rs.len() - 1;
    if j == last {
        if originals_after(m, dir, chip, t).contains_key(id) {
            lemma_originals_from(m, dir, chip, t, id);
            let a = choose|a: int| 0 <= a < t.len() && hwmon_fan_id(dir, chip, #[trigger] t[a].index) == id;
            assert(t[a] == rs[a]);
            assert(rs[a].index != rs[j].index);
            lemma_hwmon_fan_id_distinct(dir, chip, rs[a].index, rs[j].index);
        }
    } else {
        assert(t[j] == rs[j]);
        assert forall|a: int, b: int| 0 <= a < b < t.len() implies #[trigger] t[a].index != #[trigger] t[b].index by {
            assert(t[a] == rs[a]);
            assert(t[b] == rs[b]);
        }
        law_new_fan_enable_stored(m, dir, chip, t, j);
        assert(rs[j].index != rs[last].index);
        lemma_hwmon_fan_id_distinct(dir, chip, rs[j].index, rs[last].index);
    }
}

/// A reset restores the exact mode a fan was in when it was first seen (such
/// as 5, SMART FAN IV), unless that was manual mode 1; a later scan, made
/// while the fan is under manual control, does not change it.
pub proof fn law_reset_restores_first_enable(
    m: Map<Seq<char>, u32>,
    dir: Seq<char>,
    chip: Seq<char>,
    rs: Seq<HwmonFanReading>,
    j: int,
    later_dir: Seq<char>,
    later_chip: Seq<char>,
    later: Seq<HwmonFanReading>,
)
    requires
        0 <= j < rs.len(),
        hwmon_kept(rs[j]),
        rs[j].enable is Some,
        rs[j].enable->0 != 1,
        !m.contains_key(hwmon_fan_id(dir, chip, rs[j].index)),
        forall|a: int, b: int| 0 <= a < b < rs.len() ==> #[trigger] rs[a].index != #[trigger] rs[b].index,
    ensures
        ({
            let id = hwmon_fan_id(dir, chip, rs[j].index);
            let after = originals_after(originals_after(m, dir, chip, rs), later_dir, later_chip, later);
            &&& after.contains_key(id)
            &&& restore_value_spec(Some(after[id])) == rs[j].enable->0
        }),
{
    let id = hwmon_fan_id(dir, chip, rs[j].index);
    law_new_fan_enable_stored(m, dir, chip, rs, j);
    law_first_enable_kept(originals_after(m, dir, chip, rs), later_dir, later_chip, later, id);
}

/// The RPMs the pump heuristic compares are exactly those of the fans not yet
/// known as pumps that report more than 0 RPM.
pub proof fn law_pump_candidates(fs: Seq<FanInfoView>)
    ensures
        pump_candidate_rpms(fs).len() <= fs.len(),
        forall|i: int|
            0 <= i < fs.len() && !fs[i].is_pump && #[trigger] fs[i].rpm is Some && fs[i].rpm->0 > 0
                ==> pump_candidate_rpms(fs).contains(fs[i].rpm->0),
        forall|x: u32|
            #[trigger] pump_candidate_rpms(fs).contains(x) ==> x > 0 && exists|i: int|
                0 <= i < fs.len() && !fs[i].is_pump && #[trigger] fs[i].rpm == Some(x),
    decreases fs.len(),
{
    if fs.len() > 0 {
        let t = fs.drop_last();
        law_pump_candidates(t);
        let c = pump_candidate_rpms(t);
        let f = fs.last();
        assert forall|i: int|
            0 <= i < fs.len() && !fs[i].is_pump && #[trigger] fs[i].rpm is Some && fs[i].rpm->0 > 0
                implies pump_candidate_rpms(fs).contains(fs[i].rpm->0) by {
            if i < fs.len() - 1 {
                assert(t[i] == fs[i]);
                assert(t[i].rpm is Some);
                let j = choose|j: int| 0 <= j < c.len() && c[j] == fs[i].rpm->0;
                if !f.is_pump && f.rpm is Some && f.rpm->0 > 0 {
                    assert(pump_candidate_rpms(fs)[j] == c[j]);
                }
            } else {
                assert(pump_candidate_rpms(fs) == c.push(f.rpm->0));
                assert(pump_candidate_rpms(fs)[c.len() as int] == f.rpm->0);
            }
        }
        assert forall|x: u32| #[trigger] pump_candidate_rpms(fs).contains(x) implies x > 0 && exists|i: int|
            0 <= i < fs.len() && !fs[i].is_pump && #[trigger] fs[i].rpm == Some(x) by {
            let r = pump_candidate_rpms(fs);
            let j = choose|j: int| 0 <= j < r.len() && r[j] == x;
            if j < c.len() {
                assert(r[j] == c[j]);
                assert(c.contains(x));
                let i = choose|i: int| 0 <= i < t.len() && !t[i].is_pump && #[trigger] t[i].rpm == Some(x);
                assert(fs[i] == t[i]);
            } else {
                assert(fs[fs.len() - 1].rpm == Some(x));
            }
        }
    }
}

/// The pump heuristic: when some fans are candidates, a fan not yet known as a
/// pump that spins more than three times the median of the candidate RPMs (the
/// middle element of them in ascending order, whatever order the headers come
/// in) becomes a pump labelled "Pump"; every other fan stays as it was.
pub proof fn law_pump_heuristic(fs: Seq<FanInfoView>, p: Seq<u32>, i: int)
    requires
        0 <= i < fs.len(),
        p.to_multiset() == pump_candidate_rpms(fs).to_multiset(),
        forall|a: int, b: int| 0 <= a < b < p.len() ==> #[trigger] p[a] <= #[trigger] p[b],
    ensures
        with_pump_heuristic(fs).len() == fs.len(),
        p.len() > 0 && !fs[i].is_pump && fs[i].rpm is Some && fs[i].rpm->0 as int > 3 * p[p.len() as int / 2]
            ==> with_pump_heuristic(fs)[i] == (FanInfoView { is_pump: true, label: "Pump"@, ..fs[i] }),
        !(p.len() > 0 && !fs[i].is_pump && fs[i].rpm is Some && fs[i].rpm->0 as int > 3 * p[p.len() as int / 2])
            ==> with_pump_heuristic(fs)[i] == fs[i],
{
    broadcast use vstd::seq_lib::group_to_multiset_ensures;

    let c = pump_candidate_rpms(fs);
    assert(p.to_multiset().len() == p.len());
    assert(c.to_multiset().len() == c.len());
    if c.len() > 0 {
        crate::order::law_median_of_sorted(c, p);
    }
}

/// The duty value for a percentage `p` of at most 100 is `p * 255 / 100`
/// rounded down, so below full duty (255) for every `p < 100`; a larger
/// percentage gives full duty.
pub proof fn law_pct_to_pwm_floor(p: u8)
    ensures
        p <= 100 ==> 100 * pct_to_pwm_spec(p) <= p as int * 255 < 100 * (pct_to_pwm_spec(p) + 1),
        p < 100 ==> pct_to_pwm_spec(p) < 255,
        p >= 100 ==> pct_to_pwm_spec(p) == 255,
{
    let q = p as int * 255 / 100;
    assert(100 * q <= p as int * 255 < 100 * q + 100) by {
        lemma_fundamental_div_mod(p as int * 255, 100);
        lemma_mod_bound(p as int * 255, 100);
    }
}

/// The duty value a hwmon fan is set to: `p * 255 / 100` rounded down for a
/// percentage `p` between 20 and 100, that of 20 % (51) below it, and full duty
/// (255) above 100 %.
pub proof fn law_hwmon_pwm(p: u8)
    ensures
        20 <= p <= 100 ==> 100 * hwmon_pwm_spec(p) <= p as int * 255 < 100 * (hwmon_pwm_spec(p) + 1),
        p < 20 ==> hwmon_pwm_spec(p) == 51,
        p >= 100 ==> hwmon_pwm_spec(p) == 255,
{
    law_pct_to_pwm_floor(p);
    law_pct_to_pwm_floor(20);
}

/// A hwmon fan is never set below 20 %: its duty value is between 51 and 255.
pub proof fn law_hwmon_speed_floor(pct: u8)
    ensures
        51 <= hwmon_pwm_spec(pct) <= 255,
{
}

/// A reset never leaves a hwmon fan in manual mode (enable value 1).
pub proof fn law_reset_not_manual(original: Option<u32>)
    ensures
        restore_value_spec(original) != 1,
{
}

/// An NVIDIA fan is never asked to run below 30 %.
pub proof fn law_nvidia_speed_floor(pct: u8)
    ensures
        30 <= nvidia_pct_spec(pct),
        pct >= 30 ==> nvidia_pct_spec(pct) == pct,
{
}

/// The id a GPU fan is listed under parses back to its GPU and fan indices.
pub proof fn law_nvidia_id_round_trip(gpu: u32, fan: u32)
    ensures
        nvidia_id_spec(nvidia_fan_id(gpu, fan)) == Ok::<(u32, u32), FanError>((gpu, fan)),
{
    reveal_strlit("nvidia:");
    reveal_strlit(":");
    let p = "nvidia:"@;
    let g = dec_seq(gpu as nat);
    let f = dec_seq(fan as nat);
    let rest = g + ":"@ + f;
    let id = nvidia_fan_id(gpu, fan);
    assert(id =~= p + rest);
    crate::text::lemma_dec_seq(gpu as nat);
    crate::text::lemma_dec_seq(fan as nat);
    assert(!starts_with_spec(rest, p)) by {
        if starts_with_spec(rest, p) {
            assert(rest[0] == p[0]);
            assert(rest[0] == g[0]);
        }
    }
    crate::text::lemma_trim_start_matches_once(p, rest);
    assert(id.take(p.len() as int) =~= p);
    crate::text::lemma_dec_seq_lacks(gpu as nat, ':');
    crate::text::lemma_find_from_concat(g, ":"@ + f, ':');
    assert(rest =~= g + (":"@ + f));
    assert((":"@ + f)[0] == ':');
    assert(find_from(":"@ + f, ':', 0) == Some(0int));
    let pos = g.len() as int;
    assert(rest.subrange(0, pos) =~= g);
    assert(rest.subrange(pos + 1, rest.len() as int) =~= f);
    crate::text::lemma_parse_dec_seq(gpu as nat, u32::MAX as nat);
    crate::text::lemma_parse_dec_seq(fan as nat, u32::MAX as nat);
}

/// The id an AMD GPU fan is listed under parses back to the GPU's place.
pub proof fn law_amd_id_round_trip(i: usize)
    ensures
        amd_index_spec("amd:"@ + dec_seq(i as nat)) == Ok::<usize, FanError>(i),
{
    reveal_strlit("amd:");
    let p = "amd:"@;
    let d = dec_seq(i as nat);
    crate::text::lemma_dec_seq(i as nat);
    assert(!starts_with_spec(d, p)) by {
        if starts_with_spec(d, p) {
            assert(d[0] == p[0]);
        }
    }
    crate::text::lemma_trim_start_matches_once(p, d);
    assert((p + d).take(p.len() as int) =~= p);
    crate::text::lemma_parse_dec_seq(i as nat, usize::MAX as nat);
}

/// The id a hwmon header is listed under parses back to its device and header
/// number, when neither the device nor the chip name holds a '/' and the
/// device name does not itself start with "hwmon:"; so speed and reset writes
/// go to the files of the header that was scanned.
pub proof fn law_hwmon_id_round_trip(dir: Seq<char>, chip: Seq<char>, i: u32)
    requires
        forall|k: int| 0 <= k < dir.len() ==> dir[k] != '/',
        forall|k: int| 0 <= k < chip.len() ==> chip[k] != '/',
        !starts_with_spec(dir, "hwmon:"@),
    ensures
        hwmon_id_parts(hwmon_fan_id(dir, chip, i)) == Some((dir, dec_seq(i as nat))),
{
    reveal_strlit("hwmon:");
    reveal_strlit("/");
    reveal_strlit("/fan");
    reveal_strlit("fan");
    let h = "hwmon:"@;
    let d = dec_seq(i as nat);
    let id = hwmon_fan_id(dir, chip, i);
    let a = h + dir;
    let tail = "/"@ + chip + "/fan"@ + d;
    assert(id =~= a + tail);
    assert forall|k: int| 0 <= k < a.len() implies a[k] != '/' by {
        if k >= h.len() {
            assert(a[k] == dir[k - h.len()]);
        }
    }
    crate::text::lemma_find_from_concat(a, tail, '/');
    assert(tail[0] == '/');
    assert(find_from(tail, '/', 0) == Some(0int));
    let i1 = a.len() as int;
    let b = "/"@ + chip;
    let tail2 = "/fan"@ + d;
    assert(id =~= (a + b) + tail2);
    assert forall|k: int| i1 + 1 <= k < (a + b).len() implies id[k] != '/' by {
        assert(id[k] == chip[k - i1 - 1]);
    }
    crate::text::lemma_find_from_skip(id, '/', i1 + 1, (a + b).len() as int);
    assert(id[(a + b).len() as int] == '/');
    let i2 = (a + b).len() as int;
    assert(id.subrange(0, i1) =~= a);
    crate::text::lemma_trim_start_matches_once(h, dir);
    let f = "fan"@;
    assert(id.subrange(i2 + 1, id.len() as int) =~= f + d);
    crate::text::lemma_dec_seq(i as nat);
    assert(!starts_with_spec(d, f)) by {
        if starts_with_spec(d, f) {
            assert(d[0] == f[0]);
        }
    }
    crate::text::lemma_trim_start_matches_once(f, d);
}

} // verus!
