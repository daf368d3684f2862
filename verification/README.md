# stars

Star-field analysis for smartphone night photographs.

`src/` is a library verified with Verus. It holds the integer core of the
analysis, each function with a contract:

- `raster`: grayscale and RGB pixel planes with their size invariant.
- `sky`: the landscape horizon search and the median / median absolute
  deviation of the sky background.
- `star_blobs`: connected-component labelling of star candidates
  (breadth-first, 8-connected, seeded at one level and grown at another) and
  their selection by area.
- `satellites`: the embedded two-line-element database, its lookup, and the
  bright-pixel sampling that feeds the streak search.
- `exif_metadata`: EXIF tags read with the `exif` crate and kept as exact
  rationals, with the capture time parsed by `chrono`.
- `image_loader`: decoding photographs with the `image` crate into planes.
- `web`, `tui`: the upload handling, the JPEG data URL and the key handling of
  the dashboards.

Calls into outside crates go through small trusted wrappers whose contracts
are documented where they are declared.

`app/` is the program around the library: the command line, the web server
(axum), the terminal dashboard (ratatui), and the floating-point parts of the
analysis (plate solving, SIP distortion fits, aberrations, satellite
identification with SGP4, synthetic frames).

`tests/` exercises the library on concrete values.
