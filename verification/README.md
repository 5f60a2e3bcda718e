# openstranded_plugin_api

Plugin SDK types for OpenStranded, written in Verus.

- `src/` is the verified library:
  - `strmap.rs` — `StrMap`, a string-keyed map (entries in insertion order,
    keys distinct) whose abstract value is a `Map<Seq<char>, V>`;
  - `registry.rs` — `Registry` and `RegistryEntry`, the in-memory content
    pack (domain, then filename, then bytes);
  - `service.rs` — `ServiceRegistry`, services by domain name, refusing a
    domain that is already taken;
  - `version.rs` — `ApiVersion`, the compatibility rule, decimal text and
    reading of version numbers.  `ApiVersion::current` reads the digits of
    the API version written out in that file; they must be changed by hand
    together with the `version` in `Cargo.toml`;
  - `error.rs`, `contributions.rs`, `game_api.rs` — `ServiceError`, the
    build-phase declarations and `LogLevel`.
- `app/` holds what Verus does not check: the `Value` type (it carries
  `f64`), the `Service` and `GameAPI` traits, RON parsing of registry data,
  `MockGameAPI`, and `std::error::Error` forms of the error types.
- `tests/` exercises the library.
