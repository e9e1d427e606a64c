# m_v_r_esprint1

Deterministic assurance for bulk electric grid operation: CIM topology
reconstruction, telemetry and operational-semantics checks, SCED offer hash chains,
attestation logs and TPM quotes, audit tickets, trusted time, and the decision logic
of the control and validation paths.

- `src/` is the library, written in Verus. Every function carries a contract over
  mathematical models (`Seq`, `Map`, spec functions) and is verified. Calls into
  `sha2`, `hex` and `quick-xml`, and the few std calls without a specification in
  vstd, go through small trusted wrappers whose contracts are documented where they
  stand.
- `tests/` runs the library on concrete inputs.
- `app/` is ordinary Rust around the library: reading and writing files, git,
  CSV with csv, JSON with serde, and the computations on floating-point
  measurements.
