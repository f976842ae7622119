# git-warp

A daemon that makes a development environment follow the branch of a git repository:

- `node_modules` is a link into a cache that is addressed by the SHA-256 of the lockfile, so a
  branch that was visited before needs no install;
- the volumes of a compose file are scoped to the branch by the suffix `--warp--<branch>`, so
  every branch works on data of its own;
- cache entries, shadow volumes and rewritten compose files that were not used for some days are
  collected.

## Layout

`src/` is the library, verified with Verus. It touches no file and starts no process: it decides
on plain values, and says what to do.

| Module | What it decides |
|--------|-----------------|
| `branch` | the name that stands for a branch |
| `docker_proxy` | how a compose file is rewritten, and which program runs it |
| `symlink_manager` | what a swap or a stash of `node_modules` does, action by action |
| `watcher` | what `.git/HEAD` says, and when a burst of file events is a change of branch |
| `gc` | what is stale, what is kept, and what is counted |
| `text`, `hashing`, `timestamp`, `yaml` | strings, hashes, times and documents |

Three modules state what these promise together, as proved laws: `isolation` for volumes,
`dependency_cache` for swaps and stashes on the model of the file system in `file_model`, and
`retention` for garbage collection.

`app/` is the command around the library: arguments, logging, files, Docker, and file events.
`tests/` runs the library on concrete values.

## What is trusted

The library calls `serde_yaml`, `sha2`, `hex` and `chrono`. What it relies on of each call stands
in the contract of the function that makes it, in `yaml`, `hashing` and `timestamp`.
