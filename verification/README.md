# jan_core

The verified core of Jan's web UI server: the single-password session
authentication, the request router, the `/api/invoke` dispatcher, the
server-side LLM gateway's forwarding rules, the remote-attach picker (its
bounded directory walk and the read check that keeps it inside the
configured roots), the provider configuration table and the web server
settings.

* `src/` is the library, written in Verus: its functions carry
  `requires`/`ensures` contracts proved by Verus (the calls into `sha2`,
  `hmac`, `hex`, `base64`, `serde_json` and the system clock sit behind
  small trusted wrappers whose contracts state what those crates document;
  the clock's have none beyond their types), and the laws of the library
  (a session cookie authenticates until it expires, a cleared cookie never
  does, no `/api/` handler but the auth endpoints is reached without a
  session, a forwarded request stays within its provider's `base_url` (same
  scheme, host and port, below its path), a walk never leaves its root, ...)
  are public proof functions.
* The gateway forwards only to targets within the provider's `base_url`:
  the target must begin with the base (trailing `/` removed), what follows
  the base must be nothing or begin with `/`, `?` or `#`, and the base must
  name an origin (`scheme://` and a host). A provider whose `base_url` names no origin gets 403 for
  every target.
* The attach picker lists each directory's children with regular files
  before directories, each group in the byte order of the names, and
  descends depth first.
* `tests/` runs the library on concrete values.
* `app/` is ordinary Rust around it: the hyper server, the files under the
  data folder, the upstream requests, and the serde forms of the library's
  values.
