# adbfs

Mounts the filesystem of an Android device through `adb`, with the logic
verified by Verus.

- `src/` is the library: everything that is decided and computed, with
  contracts. `adb` is the device and the calls it was given, `ops` the file
  operations as shell commands, `parse` what `ls -l` prints, `escape` shell
  quoting, `cache` metadata kept for a while, `inodes` and `handles` the tables
  behind the requests, `fs` the requests themselves, `mount_opts` and `run` the
  command line. `table` holds what is taken on trust about the concurrent maps.
- `app/` is the program: it runs `adb`, works on local files and speaks FUSE.
- `tests/` runs the library against a device that answers from a queue.

A request that needs work on a local file hands that work out as a value and is
resumed with the outcome, so that the library itself does no input or output.
