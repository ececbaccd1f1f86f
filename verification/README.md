# openshoot_core

The core of OpenShoot, a local photo-culling and editing tool, written as a
Verus library: its rules are stated as `requires`/`ensures` contracts and
proved.

- `src/` — the verified library: RAW preview extraction (CR3 and EXIF
  ranges), EXIF summaries and camera settings, preview decoding and
  JPEG thumbnails, catalog rules (folder names, duplicate groups, scans, presets,
  albums, schema migrations, listing and count queries), culling ratings and
  picks, face grouping and the embedding cache format, manifest export entries and import
  planning, export and gallery naming, XMP sidecars, web gallery pages,
  captions, Lightroom preset reading, inpainting and box blurs, upscale
  tiling and scale selection, content hashes.
- `app/` — the application layer around it: SQLite, files, image decoding
  and encoding, ONNX models, and the floating-point image operations.
- `tests/` — tests of the library on concrete values.

Calls into other crates (`sha2`, `base64`, `image`, `serde_json`,
`kamadak-exif`, and `std::path`) go through small trusted wrappers whose contracts are stated
next to them.
