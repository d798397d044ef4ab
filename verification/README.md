# configuard

A service that hands out WireGuard configurations to workstations over HTTP.

- `src/` is the verified library (Verus): dotted-quad address parsing and
  allocation (`ipv4`, `workstation`), decimal digits (`decimal`), entry
  files (`entries`), command lines (`command`), key generation (`keys`),
  random decoy values (`random`), settings checks (`config`), template
  values (`templates`) and the character-level text operations they share
  (`text`).
- `app/` is the HTTP service around it: reading and writing files, walking
  the entry directory, rendering the askama templates (from `templates/`),
  running commands, and the rocket routes.
