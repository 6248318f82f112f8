# tricoder

A scanner of the web hosts of a domain. It gathers host names under the domain
from the certificate log of crt.sh and from web.archive.org, keeps those that
resolve, probes the most common TCP ports of each, and asks a set of HTTP
modules whether the open ports expose something (a `.env` file, a git `HEAD`,
a directory listing, an open etcd or Kibana, ...).

- `src/` is the verified library: every decision of the scanner, with its
  contract, proved by Verus. `text` holds the character-level primitives
  (white space, trimming, substring search, line splitting, duplicate
  removal, decimal notation); `modules` the enumeration and HTTP modules;
  `cli`, `dns` and `ports` what a scan keeps and which addresses it probes.
- `app/` is the program around it: the command line, the HTTP client, the
  resolver, the port probes and the concurrency. It hands the library plain
  values (status, body, parsed JSON, probe results) and prints what comes back.
- `tests/` runs the library on concrete values.
