# fancontroller

The logic of a fan manager for Linux: motherboard fans through hwmon, NVIDIA
GPU fans through NVML and AMD GPU fans through amdgpu sysfs, each run in auto
mode, on a temperature curve, or at a fixed speed.

`src/` is the library, verified with Verus. It decides everything that can be
decided from plain values: which curves are accepted and what speed a curve
gives at a temperature, the state of every fan, which sysfs file gets which
value, which backend is asked next and when to stop asking, how fan ids are
built and parsed, the pump heuristic, the privileged command line, and the
permission rules the program installs. Temperatures are whole millidegrees
Celsius, the unit the kernel reports, and may be negative.

- `hardware/curve.rs`: curve validation and interpolation, with their laws.
- `hardware/controller.rs`: the controller state, its operations and the order
  in which backends are asked.
- `hardware/linux.rs`, `hardware/windows.rs`: the backends' decisions.
- `gpu_nvml.rs`: NVML snapshots, speed limits and the `--gpu-set` /
  `--gpu-reset` command line.
- `setup.rs`: configuration paths, root detection, permission rules.
- `table.rs`, `order.rs`, `text.rs`: an ordered string-keyed map, sorting and
  the median, and text handling.

`app/` is the program around it: sysfs and NVML access, the daemon loop, the
JSON files and the GTK/WebKit window. `tests/` runs the library on concrete
values.
