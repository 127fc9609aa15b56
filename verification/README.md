# tari_gpu_miner

The host side of a SHA3x GPU miner for the Tari network, written in Verus.

`src/` is the verified library:

- `bytes`: packing of bytes into 64-bit words and back, with the round trips proved.
- `kernel`: the kernel's input words for a mining hash, the nonce window of each
  device, and the share target of a difficulty.
- `template`: the work taken from a block template (or the fixed benchmark work)
  and the kernel launch prepared from it.
- `schedule`: the round counter of the template loop and the rounds that pay the
  development fee.
- `address`: the payout address of a round, parsed with `tari_common_types`.
- `search`: the decisions of a device's search loop: what a kernel launch found,
  when to fetch a new template, when to submit, when to report.
- `report`: the status line, with numbers grouped by `num_format`.
- `coinbase`: the choices made while building the coinbase transaction.

`app/` is the program around it: command line, configuration file, CUDA device
handling, the gRPC client of the base node and the coinbase builder of `tari_core`.
