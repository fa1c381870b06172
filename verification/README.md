# bugsee_cli

The logic of the Bugsee build tool, verified with Verus: what is uploaded for a build,
under which ids, and whether anything is uploaded at all.

- `src/` is the library. Every function states its result in `requires` and `ensures`
  over mathematical values (texts as sequences of characters, paths as sequences of parts,
  the environment as a map); functions named `law_...` state what holds of several of them
  together.
- `tests/` runs the library on concrete values.
- `app/` is the program around it: the command line, files, processes and the network.

What the disk, a process or the server says is handed to the library as plain values:
lists of the paths that exist, the text that a tool printed, the reply of the server.
Doubles are handed over by their bits; the library orders and truncates them as integers,
and arithmetic on them is done by the program.

Calls into `flate2`, `plist`, `regex`, `serde_json`, `sha2`, `symbolic-debuginfo` and `uuid`
stand behind small wrappers whose contracts are trusted. Where a result takes more than a
few lines to state it is only given a name, such as `json_at` or `sha256`, and the contracts
above speak of that name.

| Modules | What they hold |
| --- | --- |
| `cli`, `error`, `exit_code`, `env` | commands, failures and their codes, variables |
| `text`, `numeral`, `decimals`, `double`, `order`, `sorting`, `paths`, `path_order`, `json` | the ground the others stand on |
| `podfile`, `manifests`, `patterns`, `dep_entry`, `dep_merge`, `ios_deps` | dependencies of an iOS project |
| `slf`, `titles`, `intervals`, `xcactivitylog`, `timeline` | timings out of an Xcode build log |
| `build_env`, `vcs_metadata`, `plist`, `dsym` | where and how a build was made |
| `xcode`, `xcode_app`, `xcode_ipa`, `registration`, `size_check`, `post_action`, `calendar` | the post-action of Xcode |
| `ids`, `inject`, `inject_run`, `sri`, `exclude` | debug ids in JavaScript bundles |
| `compress`, `pack`, `upload`, `debug_files`, `symbol_run` | archives and uploads |
| `digest`, `update` | updates of the tool itself |
