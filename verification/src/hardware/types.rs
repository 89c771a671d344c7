use vstd::prelude::*;

verus! {

/// Type of fan / controller.
#[derive(Debug, Clone, Copy, PartialEq, Eq, Structural)]
pub enum FanType {
    /// Standard PWM / DC fan via motherboard header (hwmon / WMI).
    System,
    /// NVIDIA GPU fan (via NVML).
    Nvidia,
    /// AMD GPU fan (via amdgpu sysfs).
    Amd,
}

/// How the fan is currently controlled.
#[derive(Debug, Clone, Copy, PartialEq, Eq, Structural)]
pub enum FanMode {
    /// OS / driver controls speed automatically.
    Auto,
    /// User-defined temperature to speed curve.
    Curve,
    /// Fixed speed percentage.
    Fixed,
}

/// A single point on a fan curve.
#[derive(Debug, Clone, Copy, PartialEq, Eq, Structural)]
pub struct CurvePoint {
    /// Temperature in degrees Celsius.
    pub temp_c: u8,
    /// Fan speed in percent (0 to 100).
    pub speed_pct: u8,
}

/// Full info about one fan.
#[derive(Debug, Clone)]
pub struct FanInfo {
    /// Unique identifier (e.g. "hwmon:hwmon2/it8689/fan1" or "nvidia:0:0").
    pub id: String,
    /// Human-readable label.
    pub label: String,
    /// Fan type.
    pub fan_type: FanType,
    /// Current mode.
    pub mode: FanMode,
    /// Current RPM, if readable.
    pub rpm: Option<u32>,
    /// Current speed percentage, if readable.
    pub speed_pct: Option<u8>,
    /// Temperature of the sensor that drives this fan, in millidegrees Celsius.
    pub temp_milli_c: Option<i64>,
    /// Active curve points (if mode is `Curve`).
    pub curve: Vec<CurvePoint>,
    /// Minimum RPM reported by hardware.
    pub rpm_min: Option<u32>,
    /// Maximum RPM reported by hardware.
    pub rpm_max: Option<u32>,
    /// Whether this fan supports PWM control.
    pub controllable: bool,
    /// True when this is a pump header (fixed speed / water cooling pump).
    pub is_pump: bool,
}

/// The mathematical value of a `FanInfo`.
pub struct FanInfoView {
    pub id: Seq<char>,
    pub label: Seq<char>,
    pub fan_type: FanType,
    pub mode: FanMode,
    pub rpm: Option<u32>,
    pub speed_pct: Option<u8>,
    pub temp_milli_c: Option<i64>,
    pub curve: Seq<CurvePoint>,
    pub rpm_min: Option<u32>,
    pub rpm_max: Option<u32>,
    pub controllable: bool,
    pub is_pump: bool,
}

impl View for FanInfo {
    type V = FanInfoView;

    open spec fn view(&self) -> FanInfoView {
        FanInfoView {
            id: self.id@,
            label: self.label@,
            fan_type: self.fan_type,
            mode: self.mode,
            rpm: self.rpm,
            speed_pct: self.speed_pct,
            temp_milli_c: self.temp_milli_c,
            curve: self.curve@,
            rpm_min: self.rpm_min,
            rpm_max: self.rpm_max,
            controllable: self.controllable,
            is_pump: self.is_pump,
        }
    }
}

/// A copy of a list of curve points.
pub fn copy_points(pts: &[CurvePoint]) -> (r: Vec<CurvePoint>)
    ensures
        r@ == pts@,
{
    let mut r: Vec<CurvePoint> = Vec::new();
    let mut i: usize = 0;
    while i < pts.len()
        invariant
            i <= pts@.len(),
            r@ == pts@.take(i as int),
        decreases pts@.len() - i,
    {
        r.push(pts[i]);
        assert(pts@.take(i + 1) =~= pts@.take(i as int).push(pts@[i as int]));
        i = i + 1;
    }
    assert(pts@.take(pts@.len() as int) =~= pts@);
    r
}

impl FanInfo {
    /// A copy of this fan info.
    pub fn duplicate(&self) -> (r: FanInfo)
        ensures
            r@ == self@,
    {
        FanInfo {
            id: self.id.clone(),
            label: self.label.clone(),
            fan_type: self.fan_type,
            mode: self.mode,
            rpm: self.rpm,
            speed_pct: self.speed_pct,
            temp_milli_c: self.temp_milli_c,
            curve: copy_points(self.curve.as_slice()),
            rpm_min: self.rpm_min,
            rpm_max: self.rpm_max,
            controllable: self.controllable,
            is_pump: self.is_pump,
        }
    }
}

} // verus!
