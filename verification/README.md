# SwagEx

SwagEx exports the account profile of Summoners War to a local JSON file
compatible with the tools that read SWEX exports. It intercepts the game's
login response through a local proxy, decodes it, and writes a canonical copy.

The library under `src/` is verified with Verus:

- `json`, `sorting`, `canonical`, `canonical_laws`: the JSON model, stable
  sorting, the canonical order of an export and its laws (idempotence, items
  kept, received order ignored, business-ordered lists untouched).
- `codec`, `protocol`: Base64, AES-128-CBC and zlib decoding of a response
  body, and the check that it is a login profile.
- `export`, `siege`, `paths`: what an export writes and where.
- `capture`: the proxy's routing and capture decisions, and the Steam
  tunnel's request and reply.
- `steam`, `hosts_laws`: the owned block of the Windows hosts file and its
  laws.
- `certificate`: the configuration profile of the certificate, the decision
  to create or reuse the certificate authority, and the trust check.
- `setup`, `status`, `storage`: settings, the status shown to the user, and
  the migration of the first builds' data.

`app/` holds the runtime around it: files, the intercepting proxy, the hosts
file and the commands of the interface.
