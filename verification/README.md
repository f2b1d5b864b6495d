# Hecate

A virtual machine for RV32 ELF programs that counts what a program costs. `rvsim` interprets the
instructions; around it Hecate keeps memory behind three levels of caches, counts cycles, accesses
and system calls, and offers the machine for stepping, running, saving and restoring.

The library under `src/` is verified with Verus.

| Module | What it holds |
| --- | --- |
| `stats`, `config` | the counters, and what things cost |
| `cache`, `memory` | the caches and the memory behind them |
| `cpu`, `machine` | the registers, the interpreter, and system calls |
| `elf` | loading programs |
| `disasm` | showing instructions |
| `vm`, `laws` | the machine, and what holds of it across operations |
| `control`, `json` | requests and responses, and their arguments |
| `browser`, `wasm` | the machine as a browser commands it |
| `debug_ui` | the machine behind the debugging interface |
| `report` | running a program and reporting on it |
| `runtime`, `entry` | what programs for the machine are linked with |
| `number`, `text` | reading and writing numbers |

`tests/` runs the library on concrete values. `app/` is the program around it: the command line,
files, the debugging server, the bindings for a browser (on `wasm32` only), and the system calls of
programs for the machine (on `riscv32`).

```
hecate-vm run program.elf --dump-registers
hecate-vm run program.elf --max-instructions 1000000
hecate-vm run program.elf --default-syscall-score 1 --syscall-score 64=8
hecate-vm run --debug-ui
```

Calls into `rvsim`, `sha2`, `base64`, `serde_json` and parts of `std` are taken on trust; the doc comment of each
such item says what is claimed of it.
