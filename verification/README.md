# mod_explorer

A web explorer for the files of Factorio mods: it indexes a folder of
unpacked mods (`<name>_<version>` folders), serves their file trees and
syntax-highlighted files, and can put the explorer behind a login through the
Factorio OAuth2 provider.

Layout:

- `src/` – the verified library (Verus): the mod index and version order,
  the checks on requested paths and files and their order, the file tree
  walk (one folder listing at a time), syntax highlighting of a file and
  theme CSS through syntect, the login rules (starting and recording login
  flows through oauth2, token lifetimes, the callback's steps, the
  per-request login check), attribution and the small text builders the
  pages use.
- `app/` – the server around it: command line, configuration, the folder
  scanner task, disk reads, HTTP routes and session storage, the OAuth2 and
  HTTP clients and the page components.
- `tests/` – tests of the library on concrete values.
