# ipm

The decisions of the IPM package manager, verified with Verus: reading apt
package records and release files, turning them into IPM package
descriptions, resolving dependencies and ordering installations, planning
uninstalls and imports, checking answers to interactive questions, and
choosing what a command line asks for.

- `src/` is the verified library. `text` and `control` hold the character
  sequence model that everything is specified over (`Key: value` records,
  splitting, trimming, number parsing). `package` holds package
  descriptions, dependency resolution (`package::install`) and install
  ordering (`package::order`). `third::apt` reads apt records and indexes.
  `www`, `server`, `help`, `cli`, `system`, `library` and `utils` hold the
  rest of the command's logic.
- `tests/` runs the library on concrete inputs.
- `app/` is the `ipm` program: files, network, terminal and JSON, around
  the library.
