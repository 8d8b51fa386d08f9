# bebasin

A terminal installer that puts a curated hosts list over the system's hosts
file, keeping a backup of the original.

- `src/` is the verified library:
  - `app` — the menu and its highlight (`App`, `next`, `previous`);
  - `ui` — the installer session: each event (a key, or the outcome of file
    work) gives the next state and the action to perform; plus the pieces of
    the screen that are computed (status word, row heights, cursor);
  - `hosts` — the hosts file format: reading, writing, merging tables;
  - `layout` — splitting the terminal into boxes;
  - `updater`, `os` — where the files are and whether they exist.
- `app/` is the program: terminal setup, drawing, and file access.
- `tests/` runs the library on concrete inputs.

The program reads its bundled data from `misc/` in the working directory:
`header-hosts`, `hosts`, `default-hosts` and `header-backup`.
