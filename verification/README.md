# rutis

A plugin kernel whose rules are proved with Verus.

A plugin is assembled in a *fiber*, a lifecycle container with six states. A
fiber declares what it depends on, is loaded once all of it is ready, is unloaded
when some of it goes, and hands its cleanups back when it ends. Fibers form a
tree: what a parent owns ends with the parent. Contexts reach services by typed
keys, in scopes that can be isolated, and events by the same keys.

## Layout

- `src/` is the verified library. It does no I/O, and it waits for nothing: where
  the runtime has to wait (an assembly, a cleanup, a callback in flight), a
  driver stands at a *stage*, and is told how the wait ended.
  - `key`, `ctx`, `error`, `diagnostics`, `effect`, `fiber`: the data.
  - `shared`, `registry`, `records`, `admission`, `services`, `reads`, `spawn`,
    `drive`, `view`, `subtree`, `survey`, `lifecycle`, `outcomes`: the runtime.
  - `bus`, `dispatch`, `observe`, `intercept`, `feed`, `host_events`: events,
    interceptors and observers.
  - `boot`, `elf`, `paths`, `versions`, `digest`, `manifest`, `loader`, `bundle`:
    the admission of dynamic plugins.
  - `flags`, `lockfile`, `identity`, `order`: the identity of a build.
  - `text`, `list`: small helpers.
- `tests/` runs the library, the kernel with a small driver loop of its own.
- `app/` is what cannot be proved: the tokio runtime that carries out what the
  kernel waits for, the loading of libraries, the launcher and the build steps.

Values, configurations and callbacks stay in `app/`; the kernel knows them by
number. What is true of the whole, such as that an ended fiber is never assembled
again, stands beside the functions as public proof functions.
