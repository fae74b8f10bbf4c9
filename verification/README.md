# ozone

Ozone is a plugin loader for Super Smash Bros. Ultimate, a drop-in replacement for skyline.
This crate holds its logic as a library verified with Verus; the code that runs inside the
game (SDK hooks, threads, sockets, files, raw memory) is in `app/`.

## Layout

- `src/pattern.rs`: signature search over a code image (`PatternCommandBuffer`) and the
  AArch64 decoders (`adrp`, `ldr`, `add`, `b`/`bl`). Signatures are found by `lazysimd`.
- `src/loader.rs`: NRO images (module name, bss fix, hash), the NRR that registers their
  SHA-256 hashes (sorted, without duplicates, page-rounded), the outcomes of the `nn::ro`
  calls, and the table of mounted plugins used to name addresses. The hashes are computed
  with the `sha2` crate: the SDK's own SHA-256 routine is an unsafe foreign call that only
  exists on the console, while SHA-256 itself is a fixed function that `sha2` computes
  the same way.
- `src/plugins.rs`: where plugins are found and how a mounted plugin is named.
- `src/sockets.rs`: when the socket library and `nn::ro` are really initialized.
- `src/logger.rs`: the state of the TCP log sink: listener, client, accept failures and the
  bounded backlog replayed to the next client.
- `src/crash.rs`: the text of crash reports (exception summary, registers, stack scan,
  exlaunch aborts), with addresses named after the plugin or module that holds them.
- `src/fmt.rs`: hexadecimal and decimal formatting as `{:#0Nx}` and `{:0N}` write it.
- `src/memory.rs`: descriptions of the process's memory and `svcGetInfo` ids.
- `app/`: the hooks, the logger threads, the exception handler and the loader's SDK calls,
  which hand plain values to the library and act on what it returns.
- `tests/`: tests of the library.
