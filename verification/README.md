# tpu-monitor

An nvidia-smi style monitor for TPUs. It tells chips and cores apart, and shows who holds
them, how full their memory is and how busy they are, as a printed snapshot or as a live
view in the terminal.

    tpu-monitor          # snapshot
    tpu-monitor -l 1     # live view, refreshed every second

## Layout

`src/` is a library written in Verus. It decides what is shown, and its functions state in
their contracts what they return. What is left to other crates is the drawing of the
snapshot's boxes and, on a terminal of fewer than 26 lines, which of the panels beside the
table of chips give way.

- `text`, `number`, `reading`, `format`: strings, whole numbers, doubles held by their bit
  pattern, and how quantities are written
- `device`, `ranges`: the chips of a machine, the processes that hold them, sets of device
  numbers as runs
- `procfs`, `sysmon`, `host`: what the system's files say, the processes and the traffic
  between two samples, the host's memory and disk
- `metrics`, `address`, `collect`, `rows`: the workers' reports and the rows made of them
- `layout`, `panel`, `ui`, `session`, `snapshot`: the live view and the snapshot

Proof functions whose names begin with `law_` state what holds across functions.

`app/` is the program around it: it reads files and sensors, asks the workers over gRPC,
computes in floating point, and paints. `tests/` runs the library on concrete values.
