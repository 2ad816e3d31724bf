# forever_addons

An addon manager for World of Warcraft: Forever clients: it browses the
CurseForge, Wago Addons and GitHub catalogs, installs and upgrades addons into
the client's `Interface/AddOns` directory, and removes exactly the folders it
installed.

The library under `src/` is verified with Verus: public functions state their
results in their contracts (where a result comes from an outside crate, over a
named description of what that crate returns), and the properties the
application relies on are proved as lemmas beside the code they speak of.

- `domain/`: addon ids, folder names, versions, sources.
- `text.rs`, `sorting.rs`, `picking.rs`: the character-level text operations,
  the stable sort and the first-match search the rest is written in.
- `wow.rs`, `wow/`: validating a client directory, reading `.toc` files,
  describing installed folders.
- `install.rs`, `install/`: what an archive installs and where each entry
  goes (every destination lies in a folder the plan owns, so an uninstall
  removes it), the manifest of installed addons, the order of an install's
  progress reports, and the checks around a download.
- `catalog.rs`, `view.rs`: searching the catalogs, and the installed view with
  its update status.
- `source.rs`, `source/`: what each provider's responses mean for the catalog.
- `config.rs`, `state.rs`, `commands.rs`: settings, the loaded catalogs, and
  the status the application reports.

`app/` is the program around the library: file and network I/O, JSON shapes,
and a command-line front end. `tests/` exercises the library on concrete
values.
