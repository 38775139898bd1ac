# ch8

A CHIP-8 interpreter core, verified with Verus.

- `src/cpu.rs`: the machine (memory, registers, stack, timers), its mathematical view
  `CpuView`, the fetch/execute step with its faults, ROM loading, and proved laws.
- `src/framebuffer.rs`: the 64x32 XOR frame buffer and its laws.
- `src/settings.rs`: the log level chosen from the command line.
- `app/`: the SDL2 window, audio, event loop and command line.
