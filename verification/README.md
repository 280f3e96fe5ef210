# eclipse_redirect

Redirects the HTTP requests of an Unreal Engine client (and of the EOS SDK)
to a custom backend: it finds `FCurlHttpRequest::ProcessRequest` in the
loaded modules, hooks its vtable slot, and rewrites the host of matching
request URLs while keeping their path and query.

## Layout

- `src/` — the verified library (Verus):
  - `url.rs`: splitting URLs into scheme, separator, host, port, path and
    query, replacing the host, joining them again; proofs that joining a
    parsed URL gives it back and that a rewrite keeps path and query.
  - `redirection.rs`: which URLs each mode redirects.
  - `patchfinder.rs`: byte signatures, signature and string-reference
    scans, function-start and vtable-slot searches over memory windows.
  - `pe.rs`: memory windows, memory regions and readability, PE section
    headers.
  - `unreal.rs`: engine strings (including UTF-16 encoding), the allocator
    signature, detection of the `SetURL` vtable index.
  - `hooks.rs`: the decision for each request, locating `ProcessRequest`,
    the exit functions, command-line options, and the initialisation steps.
  - `opts.rs`: configuration.
- `app/` — the DLL around it: entry point, Windows calls, raw engine
  memory and strings, logging, applying hooks and patches.
- `tests/` — tests of the library on concrete values and synthetic images.
