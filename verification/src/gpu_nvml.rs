//! NVIDIA GPU fans through NVML: the snapshot of one fan, the limits applied
//! to requested speeds, and the privileged command line (`--gpu-set`,
//! `--gpu-reset`) that the NVML calls are run through as root.

use vstd::prelude::*;
use crate::text::{dec_seq, parse_unsigned, parse_unsigned_spec, str_eq};

verus! {

/// One readable GPU fan snapshot.
pub struct GpuFan {
    pub gpu_idx: u32,
    pub fan_idx: u32,
    pub gpu_name: String,
    pub fan_count: u32,
    pub speed_pct: Option<u8>,
    pub rpm: Option<u32>,
    /// GPU temperature in millidegrees Celsius.
    pub temp_milli_c: Option<i64>,
}

/// The number of fans of a GPU: what NVML reports, 1 when it reports nothing,
/// and never less than 1.
pub fn fan_count(reported: Option<u32>) -> (n: u32)
    ensures
        n == (match reported {
            Some(c) => if c >= 1 { c } else { 1 },
            None => 1,
        }),
        n >= 1,
{
    match reported {
        Some(c) => if c >= 1 {
            c
        } else {
            1
        },
        None => 1,
    }
}

/// The snapshot of fan `fan_idx` of GPU `gpu_idx` from what NVML reported: the
/// name ("NVIDIA GPU" when unknown), the speed capped at 100 %, the RPM, and the
/// GPU temperature in whole degrees.
pub fn gpu_fan(
    gpu_idx: u32,
    fan_idx: u32,
    name: Option<String>,
    fan_count: u32,
    speed: Option<u32>,
    rpm: Option<u32>,
    temp_c: Option<u32>,
) -> (g: GpuFan)
    ensures
        g.gpu_idx == gpu_idx,
        g.fan_idx == fan_idx,
        g.gpu_name@ == (match name {
            Some(n) => n@,
            None => "NVIDIA GPU"@,
        }),
        g.fan_count == fan_count,
        g.speed_pct == (match speed {
            Some(s) => Some((if s <= 100 { s } else { 100 }) as u8),
            None => None,
        }),
        g.rpm == rpm,
        g.temp_milli_c == (match temp_c {
            Some(t) => Some((t as int * 1000) as i64),
            None => None,
        }),
{
    let gpu_name = match name {
        Some(n) => n,
        None => String::from_str("NVIDIA GPU"),
    };
    let speed_pct = match speed {
        Some(s) => Some(
            if s <= 100 {
                s as u8
            } else {
                100
            },
        ),
        None => None,
    };
    let temp_milli_c = match temp_c {
        Some(t) => Some(t as i64 * 1000),
        None => None,
    };
    GpuFan { gpu_idx, fan_idx, gpu_name, fan_count, speed_pct, rpm, temp_milli_c }
}

/// The speed NVML is asked for: `pct` clamped to 30 to 100 %.
pub open spec fn nvml_pct_spec(pct: u8) -> u32 {
    if pct < 30 {
        30
    } else if pct > 100 {
        100
    } else {
        pct as u32
    }
}

/// The speed NVML is asked for when `pct` is requested (setting a GPU fan to 0
/// risks overheating).
pub fn nvml_pct(pct: u8) -> (p: u32)
    ensures
        p == nvml_pct_spec(pct),
        30 <= p <= 100,
{
    if pct < 30 {
        30
    } else if pct > 100 {
        100
    } else {
        pct as u32
    }
}

/// NVML is asked for exactly the requested speed between 30 and 100 %, for
/// 30 % below that and for 100 % above it.
pub proof fn law_nvml_pct_clamps(pct: u8)
    ensures
        30 <= pct <= 100 ==> nvml_pct_spec(pct) == pct as u32,
        pct < 30 ==> nvml_pct_spec(pct) == 30,
        pct > 100 ==> nvml_pct_spec(pct) == 100,
{
}

/// A privileged NVML operation.
#[derive(Debug, Clone, Copy, PartialEq, Eq, Structural)]
pub enum GpuCommand {
    /// Set one fan of a GPU to a speed.
    SetFan { gpu: u32, fan: u32, pct: u8 },
    /// Hand all fans of a GPU back to the driver.
    Reset { gpu: u32 },
}

/// What the process is to do with its command line.
#[derive(Debug, Clone, Copy, PartialEq, Eq, Structural)]
pub enum CliRequest {
    /// Not a privileged subcommand: run normally.
    NotCli,
    /// Run this NVML operation and exit.
    Run(GpuCommand),
    /// `--gpu-set` with a GPU or fan index above 7: refuse and exit with status 1.
    BadSetIndex,
    /// `--gpu-reset` with a GPU index above 7: refuse and exit with status 1.
    BadResetIndex,
}

/// The number at `args[i]` parsed, or `default` when it is missing or not a number.
pub open spec fn arg_num(args: Seq<String>, i: int, max: nat, default: nat) -> nat {
    if 0 <= i < args.len() {
        match parse_unsigned_spec(args[i]@, max) {
            Some(v) => v,
            None => default,
        }
    } else {
        default
    }
}

/// The NVML operation named at `args[at]` with its numbers after it
/// (missing or malformed numbers read as GPU 0, fan 0, 50 %).
pub open spec fn gpu_command_spec(args: Seq<String>, at: int) -> Option<GpuCommand> {
    if 0 <= at < args.len() && args[at]@ == "--gpu-set"@ {
        Some(
            GpuCommand::SetFan {
                gpu: arg_num(args, at + 1, u32::MAX as nat, 0) as u32,
                fan: arg_num(args, at + 2, u32::MAX as nat, 0) as u32,
                pct: arg_num(args, at + 3, u8::MAX as nat, 50) as u8,
            },
        )
    } else if 0 <= at < args.len() && args[at]@ == "--gpu-reset"@ {
        Some(GpuCommand::Reset { gpu: arg_num(args, at + 1, u32::MAX as nat, 0) as u32 })
    } else {
        None
    }
}

fn parse_arg(args: &Vec<String>, i: usize, max: u64, default: u64) -> (v: u64)
    requires
        default <= max,
    ensures
        v == arg_num(args@, i as int, max as nat, default as nat),
        v <= max,
{
    if i < args.len() {
        match parse_unsigned(args[i].as_str(), max) {
            Some(v) => v,
            None => default,
        }
    } else {
        default
    }
}

/// The NVML operation named at `args[at]`, as the privileged re-exec reads it.
pub fn gpu_command(args: &Vec<String>, at: usize) -> (r: Option<GpuCommand>)
    requires
        at < usize::MAX - 3,
    ensures
        r == gpu_command_spec(args@, at as int),
{
    if at < args.len() && str_eq(args[at].as_str(), "--gpu-set") {
        let gpu = parse_arg(args, at + 1, u32::MAX as u64, 0);
        let fan = parse_arg(args, at + 2, u32::MAX as u64, 0);
        let pct = parse_arg(args, at + 3, u8::MAX as u64, 50);
        Some(GpuCommand::SetFan { gpu: gpu as u32, fan: fan as u32, pct: pct as u8 })
    } else if at < args.len() && str_eq(args[at].as_str(), "--gpu-reset") {
        let gpu = parse_arg(args, at + 1, u32::MAX as u64, 0);
        Some(GpuCommand::Reset { gpu: gpu as u32 })
    } else {
        None
    }
}

/// What the command line asks for: a privileged NVML subcommand in `args[1]`
/// with GPU and fan indices of at most 7, or nothing.
pub open spec fn cli_request_spec(args: Seq<String>) -> CliRequest {
    match gpu_command_spec(args, 1) {
        None => CliRequest::NotCli,
        Some(GpuCommand::SetFan { gpu, fan, pct }) => if gpu > 7 || fan > 7 {
            CliRequest::BadSetIndex
        } else {
            CliRequest::Run(GpuCommand::SetFan { gpu, fan, pct })
        },
        Some(GpuCommand::Reset { gpu }) => if gpu > 7 {
            CliRequest::BadResetIndex
        } else {
            CliRequest::Run(GpuCommand::Reset { gpu })
        },
    }
}

/// Reads the privileged subcommands from the command line (`args[0]` is the
/// program): `--gpu-set <gpu> <fan> <pct>` and `--gpu-reset <gpu>`; indices
/// above 7 are refused, so the sudoers rule cannot be misused.
pub fn cli_request(args: &Vec<String>) -> (r: CliRequest)
    ensures
        r == cli_request_spec(args@),
{
    match gpu_command(args, 1) {
        None => CliRequest::NotCli,
        Some(GpuCommand::SetFan { gpu, fan, pct }) => if gpu > 7 || fan > 7 {
            CliRequest::BadSetIndex
        } else {
            CliRequest::Run(GpuCommand::SetFan { gpu, fan, pct })
        },
        Some(GpuCommand::Reset { gpu }) => if gpu > 7 {
            CliRequest::BadResetIndex
        } else {
            CliRequest::Run(GpuCommand::Reset { gpu })
        },
    }
}

/// A command the CLI runs never names a GPU or fan index above 7.
pub proof fn law_cli_indices_bounded(args: Seq<String>)
    ensures
        cli_request_spec(args) matches CliRequest::Run(GpuCommand::SetFan { gpu, fan, pct }) ==> gpu <= 7
            && fan <= 7,
        cli_request_spec(args) matches CliRequest::Run(GpuCommand::Reset { gpu }) ==> gpu <= 7,
{
}

} // verus!
