# bgumcl

The decisions of a Minecraft launcher, verified with Verus.

`src/` holds what the launcher decides: from which addresses a file is downloaded and in what
order, how a download recovers from sources that fail, how a file is parted into segments, what an
update of a modpack changes, which release of a modpack is taken, and what a request about an
instance amounts to. Nothing in it opens a connection or a file. Functions take what was read and
say what to do next, and their contracts say exactly what that is.

- `text`, `paths`, `ranking`: texts, paths and stable orders.
- `external`: the calls into other crates, with the contracts that are believed of them.
- `web`: addresses, their mirrors, and how they are compared.
- `download`: candidates, the health of sources, requests, segments, and the download of a file.
- `tasks`: the state of a task and the order of a group of tasks.
- `modpack`: updates from a manifest, CurseForge files, and files that an archive brings along.
- `instance`: instances, their settings, their creation, their loaders and their resources.
- `updater`, `loader_meta`, `account`, `build_env`: updates of the launcher, lists of loaders,
  offline accounts, and the settings of a build.

`app/` connects these decisions to the network and the file system. `tests/` runs the library on
examples.
