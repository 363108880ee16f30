# arborui

The verified core of a terminal user interface toolkit, written in Verus.

- `src/` is the library. Every function in it carries a contract that Verus
  proves: normalized input events and modifier sets, invalidation levels,
  geometry, validated RGBA images, transactional image scenes with their
  repaint scopes, Kitty graphics planning (wire identities, transfer sizes,
  an LRU cache of encoded payloads, byte-exact command output), terminal
  capability and environment-hint interpretation, synchronized-update stream
  parsing, grapheme interning, the key handling of a single-line text
  input, the terminal lifecycle plans (which commands bring the terminal to
  the desired modes, settle Kitty images first, and restore it on exit), color metadata inspection of encoded raster formats (PNG, BMP,
  ICO, QOI, TGA, TIFF, GIF, PNM), and the decode plan of a source (its
  sniffed format, the TGA fallback, its transfer and allocation limits).
- The few calls into outside crates (base64 and zlib encoding, Unicode
  grapheme segmentation, image format sniffing, random identities) go through small trusted
  wrappers whose contracts are stated in their doc comments.
- `app/` holds what stays outside verification: translating crossterm
  events, writing the lifecycle plans as crossterm commands, reading the
  process environment and the tty, driving the `image`
  and `image-webp` codecs, and floating-point color conversion and
  resampling. It calls the library for the decode plan, the size,
  allocation and color-profile checks, and the terminal and input
  decisions. EXIF orientation and pixel decoding are left to the `image`
  codecs.
- `tests/` exercises the library on concrete values.
