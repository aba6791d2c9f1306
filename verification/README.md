# t_display_s3_amoled

Verified driver logic for the RM67162 AMOLED panel of the LilyGo
T-Display-S3 AMOLED board, written in Verus.

* `src/` — the verified library. `rm67162::dma::RM67162Dma` computes, for
  each panel operation (reset, power-up, orientation, window selection,
  pixel fills, framebuffer uploads, single pixels), the exact sequence of bus
  steps (`bus::BusOp`): chip-select and data/command levels, byte writes and
  pauses. Pixel data is cut into DMA transfers of at most `BUFFER_SIZE`
  bytes by `PixelStream`. `rm67162::laws` holds the proved properties that
  tie the operations together; `morph`, `image` and `timing` hold the
  integer parts of the demos.
* `app/` — the firmware: it owns the SPI bus and pins and performs the
  steps (`app/display.rs`), and runs the demos, whose floating-point
  shading, physics and easing stay there.
* `tests/` — executable tests of the library.
