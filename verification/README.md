# nmt_platform

The platform logic of a terminal application, written in Verus and proved
against its contracts.

`src/` is the verified library:

- `shell` — which shell is launched (trimming, default resolution, the file
  name of the resolved path), the zsh prompt integration's environment, and
  the staging names its startup files are installed through.
- `process` — raw wait statuses, the process-group field of a Linux
  `/proc/<pid>/stat` line, group membership counts, and the checks that
  decide whether a child leads its own process group.
- `review` — the review sidebar's selection state as transitions of
  `ReviewState`, file and change navigation, and the reference a selected
  diff line is quoted with.
- `tabs` — navigation between a workspace's tabs and its review tab.
- `syntax` — validation of the descriptors a loaded syntax bundle reports.
- `updater` — the updater's start-up checks and failure messages.
- `integration` — desktop-integration switches this platform refuses.
- `text` — string helpers (Unicode whitespace, trimming, path file names,
  decimal numerals) the other modules are specified with.

`app/` gathers the environment, files, processes, native libraries and macOS
frameworks these decisions act on.
