# kornia_slam

Visual odometry and SLAM building blocks, verified with Verus.

- `src/` is the library. Its functions carry contracts that Verus proves, but for the trusted
  items: the functions marked `#[verifier::external_body]`, which only call into the kornia
  crates. Verus believes what these claim of the outside function that their doc comment names,
  and the declared outside types and the bodiless spec functions that name outside results go
  with them.
  - `mapping/` holds the map: keyframes, map points, local maps, growth, culling and local
    bundle adjustment.
  - `odometry/` and `estimation/` track frames against the map, initialize it from two views,
    follow points by optical flow, and initialize inertial states.
  - `stereo` matches rectified pairs, `apriltag_anchor` observes a tag of known size, and
    `vi_ba_schur` lays out and drives Schur-complement bundle adjustment.
  - `geometry`, `frame` and `descriptor` hold the calls into the kornia crates that the
    contracts rest on; `single` and `double` compare floating-point numbers by their bits.
- `app/` is the floating-point side: camera models, residuals, linear solvers and thresholds,
  wired to the library.
- `tests/` runs the library on concrete values.

What a contract cannot say of a floating-point computation comes in from the caller, as a value
or as a function that answers one question; the contract then holds for every answer.
