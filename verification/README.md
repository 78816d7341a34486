# limusic_downloads

Verified decision logic for persistent, app-managed offline audio downloads:
stable file names, the layout of the managed folder, resolving stored paths
so that they cannot leave it, the queue's state changes, the ranged-request
transfer loop as a state machine, settings, folder migration and the desktop
folder picker's rules.

- `src/` is the library, verified with Verus. Every public function carries
  a contract; the laws are public proof functions beside the code they
  speak of.
- `tests/` runs the library on concrete values.
- `app/` holds the I/O around it: the serialised views, the file system, HTTP
  range requests, the folder picker, and a download manager that drives the
  library's decisions against a store, a stream resolver and a user interface
  given as traits.
